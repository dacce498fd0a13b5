//! The task source's decisions: the bounded availability probe, the
//! authenticated retrieval request, the handling of each poll cycle's
//! response, and the per-task decoding of a fetched batch.  The surrounding
//! loop performs the HTTP calls and the waiting; everything it decides is
//! here.

use vstd::prelude::*;
use crate::beam::{AppId, BeamTask};
use crate::codec::{decode_tasks, decode_execution_task, spec_parse_tasks,
    spec_parse_execution_task, spec_strip_ws, TaskWire};
use crate::error::ExecutorError;
use crate::workflow::{ExecutionTask, ExecutionTaskView};

verus! {

/// The availability probe gives up after this many failed attempts; giving
/// up is logged, not fatal.
pub const PROBE_MAX_ATTEMPTS: usize = 10;

/// Seconds the probe waits between attempts.
pub const PROBE_RETRY_SECS: u64 = 3;

/// Seconds the source backs off after a failed poll cycle before restarting
/// from the availability probe.
pub const RETRIEVAL_BACKOFF_SECS: u64 = 10;

/// Milliseconds the dispatcher idles when the channel is empty.
pub const IDLE_WAIT_MILLIS: u64 = 50;

/// What one availability request observed.
#[derive(Debug, Clone, Copy, PartialEq, Eq, Structural)]
pub enum ProbeEvent {
    /// A success status: the broker is available.
    Success,
    /// A response arrived but was not a success status.
    Unavailable,
    /// The request itself failed.  Counted and delayed like an unavailable
    /// response, so the probe cannot spin without bound.
    TransportError,
}

/// What the probe loop does next.
#[derive(Debug, Clone, Copy, PartialEq, Eq, Structural)]
pub enum ProbeDecision {
    /// The broker answered: stop probing and move on to retrieval.
    Available,
    /// The attempt cap was reached: stop probing and proceed regardless.
    GiveUp,
    /// Wait [`PROBE_RETRY_SECS`] and probe again.
    RetryAfterDelay,
}

/// One step of the availability probe: first success ends it; otherwise the
/// attempt counter grows until the cap, after which the caller proceeds
/// anyway.  The counter never passes [`PROBE_MAX_ATTEMPTS`], so a probe makes
/// at most that many delayed retries.
pub fn probe_step(attempts: usize, event: ProbeEvent) -> (r: (usize, ProbeDecision))
    requires
        attempts <= PROBE_MAX_ATTEMPTS,
    ensures
        r.0 <= PROBE_MAX_ATTEMPTS,
        event == ProbeEvent::Success ==> r == (attempts, ProbeDecision::Available),
        event != ProbeEvent::Success && attempts == PROBE_MAX_ATTEMPTS ==> r == (
            attempts,
            ProbeDecision::GiveUp,
        ),
        event != ProbeEvent::Success && attempts < PROBE_MAX_ATTEMPTS ==> r == (
            (attempts + 1) as usize,
            ProbeDecision::RetryAfterDelay,
        ),
{
    match event {
        ProbeEvent::Success => (attempts, ProbeDecision::Available),
        _ => {
            if attempts == PROBE_MAX_ATTEMPTS {
                (attempts, ProbeDecision::GiveUp)
            } else {
                (attempts + 1, ProbeDecision::RetryAfterDelay)
            }
        },
    }
}

/// The static authorization header sent with every retrieval request.
pub fn authorization_header(app_id: &AppId, api_key: &str) -> (r: String)
    ensures
        r@ == "ApiKey "@ + app_id.dotted() + " "@ + api_key@,
{
    let mut r = String::from_str("ApiKey ");
    let rendered = app_id.get_app_id();
    r.append(rendered.as_str());
    r.append(" ");
    r.append(api_key);
    proof {
        assert(r@ =~= "ApiKey "@ + app_id.dotted() + " "@ + api_key@);
    }
    r
}

/// The long-polling retrieval URL: only outstanding tasks, waiting for at
/// least one result up to 100 milliseconds.
pub fn tasks_url(base: &str) -> (r: String)
    ensures
        r@ == base@ + "v1/tasks?filter=todo&wait_count=1&wait_time=100"@,
{
    let mut r = base.to_owned();
    r.append("v1/tasks?filter=todo&wait_count=1&wait_time=100");
    r
}

/// The lightweight availability-probe URL.
pub fn health_url(base: &str) -> (r: String)
    ensures
        r@ == base@ + "v1/health"@,
{
    let mut r = base.to_owned();
    r.append("v1/health");
    r
}

/// The statuses whose body carries a task list.
pub open spec fn is_task_bearing(status: u16) -> bool {
    status == 200 || status == 206
}

/// Server errors: the retrieval itself failed and the cycle backs off.
pub open spec fn is_server_error(status: u16) -> bool {
    500 <= status < 600
}

/// What the poll loop observed: either the request failed outright, or a
/// response with its status and body text arrived.
#[derive(Debug, Clone)]
pub enum PollResponse {
    TransportError,
    Response(u16, String),
}

/// What the poll loop does next.
#[derive(Debug)]
pub enum PollCycleOutcome {
    /// Push these decoded tasks onto the dispatch channel, then start the
    /// next cycle.
    Dispatch(Vec<ExecutionTask>),
    /// The retrieval failed: wait [`RETRIEVAL_BACKOFF_SECS`], then restart
    /// the cycle from the availability probe.
    BackoffAndRetry,
}

/// The bodies of a fetched batch, in fetch order.
pub open spec fn bodies_of(ts: Seq<BeamTask>) -> Seq<Seq<char>> {
    Seq::new(ts.len(), |m: int| ts[m].body@)
}

/// The bodies of a batch as it stands on the wire.
pub open spec fn wire_bodies(ws: Seq<TaskWire>) -> Seq<Seq<char>> {
    Seq::new(ws.len(), |m: int| ws[m].body)
}

/// The execution tasks decoded from a batch of bodies, in order, each
/// malformed body silently dropped.
pub open spec fn spec_decoded_bodies(bs: Seq<Seq<char>>) -> Seq<ExecutionTaskView>
    decreases bs.len(),
{
    if bs.len() == 0 {
        Seq::empty()
    } else {
        spec_decoded_bodies(bs.drop_last()) + (match spec_parse_execution_task(
            spec_strip_ws(bs.last()),
        ) {
            Some(v) => seq![v],
            None => Seq::empty(),
        })
    }
}

/// Decode every task of a batch, dropping each task whose body is malformed
/// and keeping the rest in fetch order — one bad task never costs its
/// siblings.
pub fn process_batch(ts: &Vec<BeamTask>) -> (r: Vec<ExecutionTask>)
    ensures
        r.deep_view() == spec_decoded_bodies(bodies_of(ts@)),
{
    let mut out: Vec<ExecutionTask> = Vec::new();
    let mut k: usize = 0;
    while k < ts.len()
        invariant
            k <= ts@.len(),
            out.deep_view() == spec_decoded_bodies(bodies_of(ts@).take(k as int)),
        decreases ts@.len() - k,
    {
        let ghost bs = bodies_of(ts@);
        match decode_execution_task(ts[k].body.as_str()) {
            Ok(t) => {
                let ghost tv = t.deep_view();
                out.push(t);
                proof {
                    assert(bs.take(k + 1).drop_last() =~= bs.take(k as int));
                    assert(bs.take(k + 1).last() == bs[k as int]);
                    assert(bs[k as int] == ts@[k as int].body@);
                    assert(out.deep_view() =~= spec_decoded_bodies(bs.take(k as int)).push(tv));
                    assert(out.deep_view() =~= spec_decoded_bodies(bs.take(k + 1)));
                }
            },
            Err(_) => {
                proof {
                    assert(bs.take(k + 1).drop_last() =~= bs.take(k as int));
                    assert(bs.take(k + 1).last() == bs[k as int]);
                    assert(bs[k as int] == ts@[k as int].body@);
                    assert(out.deep_view() =~= spec_decoded_bodies(bs.take(k + 1)));
                }
            },
        }
        k += 1;
    }
    proof {
        assert(bodies_of(ts@).take(ts@.len() as int) =~= bodies_of(ts@));
    }
    out
}

/// A malformed task never costs its siblings: dropping a task whose body
/// does not decode leaves the decoded batch unchanged.
pub proof fn lemma_malformed_task_isolated(bs: Seq<Seq<char>>, i: int)
    requires
        0 <= i < bs.len(),
        spec_parse_execution_task(spec_strip_ws(bs[i])) is None,
    ensures
        spec_decoded_bodies(bs) == spec_decoded_bodies(bs.remove(i)),
    decreases bs.len(),
{
    if i == bs.len() - 1 {
        assert(bs.remove(i) =~= bs.drop_last());
    } else {
        assert(bs.remove(i).drop_last() =~= bs.drop_last().remove(i));
        assert(bs.remove(i).last() == bs.last());
        lemma_malformed_task_isolated(bs.drop_last(), i);
    }
}

/// Decide one poll cycle from what the retrieval call observed.
///
/// A transport failure, a server-error status, or an undecodable task list is
/// a failed cycle: back off and restart from the probe.  A task-bearing
/// status dispatches exactly the tasks whose bodies decode; any other status
/// means "no tasks now" and dispatches nothing, keeping the loop alive.
pub fn plan_poll_cycle(resp: &PollResponse) -> (r: PollCycleOutcome)
    ensures
        match *resp {
            PollResponse::TransportError => r is BackoffAndRetry,
            PollResponse::Response(status, body) => {
                if is_task_bearing(status) {
                    match spec_parse_tasks(spec_strip_ws(body@)) {
                        Some(ws) => r matches PollCycleOutcome::Dispatch(ts) && ts.deep_view()
                            == spec_decoded_bodies(wire_bodies(ws)),
                        None => r is BackoffAndRetry,
                    }
                } else if is_server_error(status) {
                    r is BackoffAndRetry
                } else {
                    r matches PollCycleOutcome::Dispatch(ts) && ts@.len() == 0
                }
            },
        },
{
    match resp {
        PollResponse::TransportError => PollCycleOutcome::BackoffAndRetry,
        PollResponse::Response(status, body) => {
            let st = *status;
            if st == 200 || st == 206 {
                match decode_tasks(body.as_str()) {
                    Ok(ts) => {
                        let out = process_batch(&ts);
                        proof {
                            let ws = spec_parse_tasks(spec_strip_ws(body@))->Some_0;
                            assert(bodies_of(ts@) =~= wire_bodies(ws));
                        }
                        PollCycleOutcome::Dispatch(out)
                    },
                    Err(_) => PollCycleOutcome::BackoffAndRetry,
                }
            } else if 500 <= st && st < 600 {
                PollCycleOutcome::BackoffAndRetry
            } else {
                let none: Vec<ExecutionTask> = Vec::new();
                PollCycleOutcome::Dispatch(none)
            }
        },
    }
}

} // verus!
