//! The decoded form of a task's body: a chosen executor kind plus a workload
//! description (an output list and an ordered list of steps).  The step list
//! is opaque payload: it is decoded, re-encoded verbatim, and handed to one
//! control container — its contents are never interpreted here.

use vstd::prelude::*;

verus! {

/// The closed set of executor kinds a task may declare.  Every consumer must
/// match on all of them; adding a kind forces each match to be revisited.
#[derive(Debug, Clone, Copy, PartialEq, Eq, Structural)]
pub enum Executor {
    DockerExecutor,
    HPCExecutor,
}

/// The executor choice carried inside an execution task.
#[derive(Debug, Clone, Copy, PartialEq, Eq, Structural)]
pub struct ExecutorInfo {
    pub name: Executor,
}

/// One step of a workload: a name, a container image, optional environment
/// variables, optional input references, and an output reference.
#[derive(Debug, Clone)]
pub struct WorkflowStep {
    pub name: String,
    pub image: String,
    pub env: Option<Vec<String>>,
    pub input: Option<Vec<String>>,
    pub output: String,
}

/// A workload description: an output file list and an ordered list of steps.
#[derive(Debug, Clone)]
pub struct Workflow {
    pub output: Vec<String>,
    pub steps: Vec<WorkflowStep>,
}

/// The decoded payload of one task: the executor kind that selects the
/// engine, and the workload forwarded to it.
#[derive(Debug, Clone)]
pub struct ExecutionTask {
    pub executor: ExecutorInfo,
    pub workflow: Workflow,
}

/// Mathematical model of a workflow step.
pub ghost struct StepView {
    pub name: Seq<char>,
    pub image: Seq<char>,
    pub env: Option<Seq<Seq<char>>>,
    pub input: Option<Seq<Seq<char>>>,
    pub output: Seq<char>,
}

/// Mathematical model of a workflow.
pub ghost struct WorkflowView {
    pub output: Seq<Seq<char>>,
    pub steps: Seq<StepView>,
}

/// Mathematical model of an execution task.
pub ghost struct ExecutionTaskView {
    pub executor: Executor,
    pub workflow: WorkflowView,
}

impl DeepView for WorkflowStep {
    type V = StepView;

    open spec fn deep_view(&self) -> StepView {
        StepView {
            name: self.name@,
            image: self.image@,
            env: self.env.deep_view(),
            input: self.input.deep_view(),
            output: self.output@,
        }
    }
}

impl DeepView for Workflow {
    type V = WorkflowView;

    open spec fn deep_view(&self) -> WorkflowView {
        WorkflowView { output: self.output.deep_view(), steps: self.steps.deep_view() }
    }
}

impl DeepView for ExecutionTask {
    type V = ExecutionTaskView;

    open spec fn deep_view(&self) -> ExecutionTaskView {
        ExecutionTaskView { executor: self.executor.name, workflow: self.workflow.deep_view() }
    }
}

} // verus!
