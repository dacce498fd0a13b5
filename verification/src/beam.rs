//! Hierarchical broker addressing: an application is addressed as
//! `app.proxy.broker`, an identity that parses from and renders back to its
//! canonical dotted string.

use vstd::prelude::*;
use crate::error::ExecutorError;

verus! {

/// No dot occurs in `s` strictly before position `n`.
pub open spec fn no_dot_upto(s: Seq<char>, n: int) -> bool {
    forall|j: int| 0 <= j < n ==> s[j] != '.'
}

/// `i` is the position of the first dot of `s`.
pub open spec fn is_first_dot(s: Seq<char>, i: int) -> bool {
    0 <= i < s.len() && s[i] == '.' && no_dot_upto(s, i)
}

pub open spec fn has_dot(s: Seq<char>) -> bool {
    exists|i: int| is_first_dot(s, i)
}

pub open spec fn first_dot(s: Seq<char>) -> int {
    choose|i: int| is_first_dot(s, i)
}

/// `s` contains at least one character that is not a dot, i.e. at least one
/// of its dot-separated components is non-empty.
pub open spec fn has_non_dot(s: Seq<char>) -> bool {
    exists|i: int| 0 <= i < s.len() && s[i] != '.'
}

/// The number of non-empty dot-separated components of `s`.
pub open spec fn nonempty_components(s: Seq<char>) -> nat
    decreases s.len(),
{
    if has_dot(s) {
        (if first_dot(s) > 0 {
            1nat
        } else {
            0nat
        }) + nonempty_components(s.subrange(first_dot(s) + 1, s.len() as int))
    } else {
        if s.len() > 0 {
            1nat
        } else {
            0nat
        }
    }
}

/// Splitting a proxy identity `proxy.broker` at the first dot: the proxy
/// component must be non-empty and the broker remainder must contain at
/// least one name character (a non-dot).
pub open spec fn spec_parse_proxy_id(s: Seq<char>) -> Option<(Seq<char>, Seq<char>)> {
    if has_dot(s) {
        let i = first_dot(s);
        let proxy = s.subrange(0, i);
        let broker = s.subrange(i + 1, s.len() as int);
        if proxy.len() > 0 && broker.len() > 0 && has_non_dot(broker) {
            Some((proxy, broker))
        } else {
            None
        }
    } else {
        None
    }
}

/// Splitting an application identity `app.proxy.broker`: a non-empty app
/// component before the first dot, and a remainder that is a valid proxy
/// identity.
pub open spec fn spec_parse_app_id(s: Seq<char>) -> Option<(Seq<char>, Seq<char>, Seq<char>)> {
    if has_dot(s) {
        let i = first_dot(s);
        let app = s.subrange(0, i);
        let rest = s.subrange(i + 1, s.len() as int);
        if app.len() > 0 {
            match spec_parse_proxy_id(rest) {
                Some((proxy, broker)) => Some((app, proxy, broker)),
                None => None,
            }
        } else {
            None
        }
    } else {
        None
    }
}

proof fn lemma_first_dot_unique(s: Seq<char>, i: int)
    requires
        is_first_dot(s, i),
    ensures
        first_dot(s) == i,
{
    let k = first_dot(s);
    assert(is_first_dot(s, k));
    if k < i {
        assert(s[k] != '.');
    } else if i < k {
        assert(s[i] != '.');
    }
}

/// The identity of a proxy within a broker, rendered as `proxy.broker`.
#[derive(Debug, Clone)]
pub struct ProxyId {
    proxy: String,
    broker: String,
}

/// The identity of an application within a proxy, rendered as
/// `app.proxy.broker`.
#[derive(Debug, Clone)]
pub struct AppId {
    app: String,
    rest: ProxyId,
}

impl ProxyId {
    /// The proxy component.
    pub closed spec fn spec_proxy(&self) -> Seq<char> {
        self.proxy@
    }

    /// The broker remainder.
    pub closed spec fn spec_broker(&self) -> Seq<char> {
        self.broker@
    }

    /// Well-formedness: exactly what the parser establishes.
    pub open spec fn wf(&self) -> bool {
        &&& self.spec_proxy().len() > 0
        &&& no_dot_upto(self.spec_proxy(), self.spec_proxy().len() as int)
        &&& self.spec_broker().len() > 0
        &&& has_non_dot(self.spec_broker())
    }

    /// The canonical dotted rendering `proxy.broker`.
    pub open spec fn dotted(&self) -> Seq<char> {
        self.spec_proxy() + seq!['.'] + self.spec_broker()
    }

    pub fn get_proxy_id(&self) -> (r: String)
        ensures
            r@ == self.dotted(),
    {
        proof {
            reveal_strlit(".");
        }
        let mut r = self.proxy.clone();
        r.append(".");
        r.append(self.broker.as_str());
        proof {
            assert(r@ =~= self.dotted());
        }
        r
    }

    pub fn get_broker_id(&self) -> (r: String)
        ensures
            r@ == self.spec_broker(),
    {
        self.broker.clone()
    }

    /// Parse `proxy.broker` from its dotted string.  Returns `Ok` exactly on
    /// the strings accepted by [`spec_parse_proxy_id`], and the parsed value
    /// holds precisely the split components.
    pub fn new(full: String) -> (r: Result<Self, ExecutorError>)
        ensures
            match r {
                Ok(p) => p.wf() && spec_parse_proxy_id(full@) == Some(
                    (p.spec_proxy(), p.spec_broker()),
                ),
                Err(e) => spec_parse_proxy_id(full@) is None && (e matches
                    ExecutorError::InvalidIdentifier(m) && m@ == full@),
            },
    {
        let len = full.as_str().unicode_len();
        match find_first_dot(full.as_str()) {
            Some(i) => {
                if i == 0 {
                    return Err(ExecutorError::InvalidIdentifier(full));
                }
                let proxy = full.as_str().substring_char(0, i).to_owned();
                let broker = full.as_str().substring_char(i + 1, len).to_owned();
                if broker.as_str().unicode_len() == 0 {
                    return Err(ExecutorError::InvalidIdentifier(full));
                }
                if !contains_non_dot(broker.as_str()) {
                    return Err(ExecutorError::InvalidIdentifier(full));
                }
                proof {
                    lemma_first_dot_unique(full@, i as int);
                }
                Ok(ProxyId { proxy, broker })
            },
            None => Err(ExecutorError::InvalidIdentifier(full)),
        }
    }
}

impl AppId {
    /// The application component.
    pub closed spec fn spec_app(&self) -> Seq<char> {
        self.app@
    }

    /// The proxy identity after the application component.
    pub closed spec fn spec_rest(&self) -> ProxyId {
        self.rest
    }

    /// Well-formedness: exactly what the parser establishes.
    pub open spec fn wf(&self) -> bool {
        &&& self.spec_app().len() > 0
        &&& no_dot_upto(self.spec_app(), self.spec_app().len() as int)
        &&& self.spec_rest().wf()
    }

    /// The canonical dotted rendering `app.proxy.broker`.
    pub open spec fn dotted(&self) -> Seq<char> {
        self.spec_app() + seq!['.'] + self.spec_rest().dotted()
    }

    /// Render the identity back to its dotted string.
    pub fn get_app_id(&self) -> (r: String)
        ensures
            r@ == self.dotted(),
    {
        proof {
            reveal_strlit(".");
        }
        let mut r = self.app.clone();
        r.append(".");
        let tail = self.rest.get_proxy_id();
        r.append(tail.as_str());
        proof {
            assert(r@ =~= self.dotted());
        }
        r
    }

    pub fn get_proxy_id(&self) -> (r: String)
        ensures
            r@ == self.spec_rest().dotted(),
    {
        self.rest.get_proxy_id()
    }

    /// Parse `app.proxy.broker` from its dotted string.  Returns `Ok` exactly
    /// on the strings accepted by [`spec_parse_app_id`], and the parsed value
    /// holds precisely the split components.
    pub fn new(full: String) -> (r: Result<Self, ExecutorError>)
        ensures
            match r {
                Ok(a) => a.wf() && spec_parse_app_id(full@) == Some(
                    (a.spec_app(), a.spec_rest().spec_proxy(), a.spec_rest().spec_broker()),
                ),
                Err(e) => spec_parse_app_id(full@) is None && (e matches
                    ExecutorError::InvalidIdentifier(m) && m@ == full@),
            },
    {
        let len = full.as_str().unicode_len();
        match find_first_dot(full.as_str()) {
            Some(i) => {
                if i == 0 {
                    return Err(ExecutorError::InvalidIdentifier(full));
                }
                let app = full.as_str().substring_char(0, i).to_owned();
                let rest_str = full.as_str().substring_char(i + 1, len).to_owned();
                proof {
                    lemma_first_dot_unique(full@, i as int);
                }
                match ProxyId::new(rest_str) {
                    Ok(rest) => Ok(AppId { app, rest }),
                    Err(_) => Err(ExecutorError::InvalidIdentifier(full)),
                }
            },
            None => Err(ExecutorError::InvalidIdentifier(full)),
        }
    }
}

/// Find the position of the first dot of `s`, if any.
fn find_first_dot(s: &str) -> (r: Option<usize>)
    ensures
        match r {
            Some(i) => is_first_dot(s@, i as int),
            None => !has_dot(s@),
        },
{
    let len = s.unicode_len();
    let mut i: usize = 0;
    while i < len
        invariant
            i <= len,
            len == s@.len(),
            no_dot_upto(s@, i as int),
        decreases len - i,
    {
        if s.get_char(i) == '.' {
            return Some(i);
        }
        i += 1;
    }
    assert forall|k: int| !is_first_dot(s@, k) by {
        if 0 <= k < s@.len() {
            assert(s@[k] != '.');
        }
    }
    None
}

/// Does `s` contain any character other than a dot?
fn contains_non_dot(s: &str) -> (r: bool)
    ensures
        r == has_non_dot(s@),
{
    let len = s.unicode_len();
    let mut i: usize = 0;
    while i < len
        invariant
            i <= len,
            len == s@.len(),
            forall|j: int| 0 <= j < i ==> s@[j] == '.',
        decreases len - i,
    {
        if s.get_char(i) != '.' {
            return true;
        }
        i += 1;
    }
    false
}

/// Identity round trip: any dotted string the parser accepts renders back to
/// itself, component by component — `render(parse(s)) == s`.
pub proof fn lemma_identity_round_trip(s: Seq<char>)
    ensures
        spec_parse_app_id(s) matches Some((app, proxy, broker)) ==> app + seq!['.'] + (proxy
            + seq!['.'] + broker) =~= s,
{
    if spec_parse_app_id(s) is Some {
        let i = first_dot(s);
        let rest = s.subrange(i + 1, s.len() as int);
        let j = first_dot(rest);
        assert(rest.subrange(0, j) + seq!['.'] + rest.subrange(j + 1, rest.len() as int) =~= rest);
        assert(s.subrange(0, i) + seq!['.'] + rest =~= s);
    }
}

/// A string with a non-dot character has at least one non-empty
/// dot-separated component.
proof fn lemma_non_dot_gives_component(s: Seq<char>)
    requires
        has_non_dot(s),
    ensures
        nonempty_components(s) >= 1,
    decreases s.len(),
{
    if has_dot(s) {
        let i = first_dot(s);
        if i == 0 {
            let k = choose|k: int| 0 <= k < s.len() && s[k] != '.';
            assert(k >= 1);
            let rest = s.subrange(1, s.len() as int);
            assert(rest[k - 1] != '.');
            lemma_non_dot_gives_component(rest);
        }
    }
}

/// How a task asks the broker to handle failures: retry with a backoff, a
/// bounded number of times.  The executing side carries this along but does
/// not enforce it.
#[derive(Debug, Clone)]
pub struct Retry {
    pub backoff_millisecs: usize,
    pub max_tries: usize,
}

/// The failure-handling policy declared by a task.
#[derive(Debug, Clone)]
pub enum FailureStrategy {
    Retry(Retry),
}

/// One unit of work fetched from the broker.  The `body` carries the
/// serialized execution task; `id` is the broker-assigned task identifier in
/// its canonical hyphenated form.
#[derive(Debug, Clone)]
pub struct BeamTask {
    pub id: String,
    pub from: AppId,
    pub to: Vec<AppId>,
    pub metadata: String,
    pub body: String,
    pub ttl: usize,
    pub failure_strategy: FailureStrategy,
}

/// The four task outcomes reported back to the broker.
#[derive(Debug, Clone, PartialEq, Eq, Structural)]
pub enum Status {
    Claimed,
    Succeeded,
    TempFailed,
    PermFailed,
}

/// A per-task outcome report addressed back to the broker.
#[derive(Debug, Clone)]
pub struct BeamResult {
    pub from: AppId,
    pub to: Vec<AppId>,
    pub task: String,
    pub status: Status,
    pub metadata: String,
    pub body: String,
}

impl BeamResult {
    /// A claim on a task: received, work not yet finished.
    pub fn claimed(from: AppId, to: Vec<AppId>, task: String) -> (r: Self)
        ensures
            r.from == from,
            r.to == to,
            r.task == task,
            r.status == Status::Claimed,
            r.metadata@ == "unused"@,
            r.body@ == "unused"@,
    {
        BeamResult {
            from,
            to,
            task,
            status: Status::Claimed,
            metadata: String::from_str("unused"),
            body: String::from_str("unused"),
        }
    }

    /// A successful outcome, carrying the result body.
    pub fn succeeded(from: AppId, to: Vec<AppId>, task: String, body: String) -> (r: Self)
        ensures
            r.from == from,
            r.to == to,
            r.task == task,
            r.status == Status::Succeeded,
            r.metadata@ == "unused"@,
            r.body == body,
    {
        BeamResult {
            from,
            to,
            task,
            status: Status::Succeeded,
            metadata: String::from_str("unused"),
            body,
        }
    }

    /// A permanently failed outcome, carrying a failure description.
    pub fn perm_failed(from: AppId, to: Vec<AppId>, task: String, body: String) -> (r: Self)
        ensures
            r.from == from,
            r.to == to,
            r.task == task,
            r.status == Status::PermFailed,
            r.metadata@ == "unused"@,
            r.body == body,
    {
        BeamResult {
            from,
            to,
            task,
            status: Status::PermFailed,
            metadata: String::from_str("unused"),
            body,
        }
    }

    /// A temporarily failed outcome, carrying a failure description.
    pub fn temp_failed(from: AppId, to: Vec<AppId>, task: String, body: String) -> (r: Self)
        ensures
            r.from == from,
            r.to == to,
            r.task == task,
            r.status == Status::TempFailed,
            r.metadata@ == "unused"@,
            r.body == body,
    {
        BeamResult {
            from,
            to,
            task,
            status: Status::TempFailed,
            metadata: String::from_str("unused"),
            body,
        }
    }
}

/// An accepted identity has at least three non-empty dot-separated
/// components; equivalently, strings with fewer are rejected.
pub proof fn lemma_identity_needs_three_components(s: Seq<char>)
    requires
        nonempty_components(s) < 3,
    ensures
        spec_parse_app_id(s) is None,
{
    if spec_parse_app_id(s) is Some {
        let i = first_dot(s);
        let rest = s.subrange(i + 1, s.len() as int);
        let j = first_dot(rest);
        let broker = rest.subrange(j + 1, rest.len() as int);
        lemma_non_dot_gives_component(broker);
        assert(nonempty_components(rest) >= 2);
        assert(nonempty_components(s) >= 3);
    }
}

} // verus!
