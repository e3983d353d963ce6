//! Messages of the administration channel, and what a client of the channel
//! decides about the answers it reads.
use rand::Rng;
use vstd::prelude::*;
use crate::backend::LoadBalancingParams;
use crate::load_balancing::LoadBalancingAlgorithms;
use crate::router::{Method, PathRule, RulePosition};
use crate::text::str_eq;

verus! {

#[derive(Debug, Clone, Copy, PartialEq, Eq, Structural)]
pub enum ResponseStatus {
    /// an intermediate answer: a terminal one follows
    Processing,
    Success,
    Error,
}

#[derive(Debug, Clone)]
pub struct WorkerResponse {
    pub id: String,
    pub status: ResponseStatus,
    pub message: String,
}

#[derive(Debug, Clone)]
pub struct Cluster {
    pub cluster_id: String,
    pub sticky_session: bool,
    pub https_redirect: bool,
    pub load_balancing: LoadBalancingAlgorithms,
    /// body of the answer sent when no backend is available
    pub answer_503: Option<String>,
}

#[derive(Debug, Clone)]
pub struct HttpFrontend {
    /// `None` for a frontend that refuses its requests
    pub cluster_id: Option<String>,
    /// address of the listener
    pub address: String,
    pub hostname: String,
    pub path: PathRule,
    pub method: Option<Method>,
    pub position: RulePosition,
}

#[derive(Debug, Clone)]
pub struct AddBackend {
    pub cluster_id: String,
    pub backend_id: String,
    pub address: String,
    pub sticky_id: Option<String>,
    pub load_balancing_parameters: Option<LoadBalancingParams>,
    pub backup: Option<bool>,
}

#[derive(Debug, Clone)]
pub struct RemoveBackend {
    pub cluster_id: String,
    pub backend_id: String,
}

#[derive(Debug, Clone)]
pub enum RequestType {
    AddCluster(Cluster),
    RemoveCluster(String),
    /// a listener at this address, with its sticky cookie name and connect timeout
    AddHttpListener(String, String, u32),
    AddHttpFrontend(HttpFrontend),
    RemoveHttpFrontend(HttpFrontend),
    AddBackend(AddBackend),
    RemoveBackend(RemoveBackend),
    ActivateListener(String),
    DeactivateListener(String),
    Status,
    SoftStop,
    HardStop,
    ReturnListenSockets,
    /// asks for a dump of the configuration
    DumpState,
    /// saving and loading the state to and from a file belong to the main process
    SaveState(String),
    LoadState(String),
}

#[derive(Debug, Clone)]
pub struct WorkerRequest {
    pub id: String,
    pub content: RequestType,
}

/// What a client does with an answer read while it waits for request `id`.
#[derive(Debug, Clone, Copy, PartialEq, Eq, Structural)]
pub enum AnswerAction {
    /// the answer is for another request
    WrongId,
    /// the request is in progress; read on
    KeepWaiting,
    /// the request failed: a terminal answer
    Failed,
    /// the request succeeded: a terminal answer
    Done,
}

pub open spec fn answer_action(expected: Seq<char>, r: WorkerResponse) -> AnswerAction {
    if r.id@ != expected {
        AnswerAction::WrongId
    } else {
        match r.status {
            ResponseStatus::Processing => AnswerAction::KeepWaiting,
            ResponseStatus::Error => AnswerAction::Failed,
            ResponseStatus::Success => AnswerAction::Done,
        }
    }
}

/// Decides about an answer read while waiting for request `expected_id`. Only
/// an answer carrying that id ends the wait, whatever its status.
pub fn classify_answer(expected_id: &str, response: &WorkerResponse) -> (r: AnswerAction)
    ensures
        r == answer_action(expected_id@, *response),
{
    if !str_eq(response.id.as_str(), expected_id) {
        return AnswerAction::WrongId;
    }
    match response.status {
        ResponseStatus::Processing => AnswerAction::KeepWaiting,
        ResponseStatus::Error => AnswerAction::Failed,
        ResponseStatus::Success => AnswerAction::Done,
    }
}

pub open spec fn is_alphanumeric(c: char) -> bool {
    ('a' <= c && c <= 'z') || ('A' <= c && c <= 'Z') || ('0' <= c && c <= '9')
}

/// Relies on `rand::distributions::Alphanumeric` sampled from `rand::thread_rng`:
/// `len` characters, each an ASCII letter or digit.
#[verifier::external_body]
fn random_alphanumeric(len: usize) -> (r: String)
    ensures
        r@.len() == len,
        forall|i: int| 0 <= i < len ==> is_alphanumeric(#[trigger] r@[i]),
{
    rand::thread_rng().sample_iter(&rand::distributions::Alphanumeric).take(len).map(char::from).collect()
}

/// A fresh request identifier: `ID-` and six random letters or digits.
pub fn generate_id() -> (r: String)
    ensures
        r@.len() == 9,
        r@.subrange(0, 3) == "ID-"@,
        forall|i: int| 3 <= i < 9 ==> is_alphanumeric(#[trigger] r@[i]),
{
    let suffix = random_alphanumeric(6);
    let mut id = String::from_str("ID-");
    proof {
        reveal_strlit("ID-");
    }
    id.append(suffix.as_str());
    assert(id@.subrange(0, 3) =~= "ID-"@);
    assert forall|i: int| 3 <= i < 9 implies is_alphanumeric(#[trigger] id@[i]) by {
        assert(id@[i] == suffix@[i - 3]);
    }
    id
}

pub open spec fn distinct(s: Seq<Seq<char>>) -> bool {
    forall|i: int, j: int| 0 <= i < j < s.len() ==> s[i] != s[j]
}

/// Requests sent and still waiting for their terminal answer.
pub struct PendingRequests {
    pub ids: Vec<String>,
}

impl PendingRequests {
    pub open spec fn view_ids(self) -> Seq<Seq<char>> {
        self.ids@.map_values(|s: String| s@)
    }

    pub open spec fn wf(self) -> bool {
        distinct(self.view_ids())
    }

    pub open spec fn pending(self, id: Seq<char>) -> bool {
        self.view_ids().contains(id)
    }

    pub fn new() -> (r: PendingRequests)
        ensures
            r.wf(),
            forall|id: Seq<char>| !r.pending(id),
    {
        PendingRequests { ids: Vec::new() }
    }

    pub fn is_empty(&self) -> (r: bool)
        ensures
            r == forall|id: Seq<char>| !self.pending(id),
    {
        proof {
            if self.ids@.len() > 0 {
                assert(self.pending(self.view_ids()[0]));
            }
        }
        self.ids.len() == 0
    }

    fn position(&self, id: &str) -> (r: Option<usize>)
        ensures
            r is None <==> !self.pending(id@),
            r matches Some(i) ==> i < self.ids@.len() && self.ids@[i as int]@ == id@,
    {
        let mut i: usize = 0;
        while i < self.ids.len()
            invariant
                i <= self.ids@.len(),
                forall|j: int| 0 <= j < i ==> (#[trigger] self.ids@[j])@ != id@,
            decreases self.ids.len() - i,
        {
            if str_eq(self.ids[i].as_str(), id) {
                assert(self.view_ids()[i as int] == id@);
                return Some(i);
            }
            i = i + 1;
        }
        proof {
            if self.pending(id@) {
                let k = choose|k: int| 0 <= k < self.view_ids().len() && self.view_ids()[k] == id@;
                assert(self.ids@[k]@ == id@);
            }
        }
        None
    }

    /// Starts waiting for request `id`; an id already waited for is not added twice.
    pub fn insert(&mut self, id: String)
        requires
            old(self).wf(),
        ensures
            final(self).wf(),
            forall|x: Seq<char>| final(self).pending(x) <==> (old(self).pending(x) || x == id@),
    {
        if self.position(id.as_str()).is_none() {
            let ghost before = self.view_ids();
            self.ids.push(id);
            proof {
                let after = self.view_ids();
                assert(after =~= before.push(id@));
                assert forall|x: Seq<char>| after.contains(x) <==> (before.contains(x) || x == id@) by {
                    if after.contains(x) {
                        let k = choose|k: int| 0 <= k < after.len() && after[k] == x;
                        if k < before.len() {
                            assert(before[k] == x);
                        }
                    }
                    if before.contains(x) {
                        let k = choose|k: int| 0 <= k < before.len() && before[k] == x;
                        assert(after[k] == x);
                    }
                    if x == id@ {
                        assert(after[before.len() as int] == x);
                    }
                }
            }
        }
    }

    /// Takes an answer into account. A terminal answer for a pending request
    /// ends the wait for it and is reported as completing it; any other
    /// answer changes nothing.
    pub fn on_response(&mut self, response: &WorkerResponse) -> (completed: bool)
        requires
            old(self).wf(),
        ensures
            final(self).wf(),
            completed == (old(self).pending(response.id@) && !(response.status is Processing)),
            forall|x: Seq<char>|
                final(self).pending(x) <==> (old(self).pending(x) && !(completed && x == response.id@)),
    {
        if response.status == ResponseStatus::Processing {
            return false;
        }
        match self.position(response.id.as_str()) {
            None => false,
            Some(i) => {
                let ghost before = self.view_ids();
                self.ids.remove(i);
                proof {
                    assert(self.view_ids() =~= before.remove(i as int));
                    assert forall|x: Seq<char>|
                        self.pending(x) <==> (before.contains(x) && x != response.id@) by {
                        if self.pending(x) {
                            let k = choose|k: int| 0 <= k < self.view_ids().len() && self.view_ids()[k] == x;
                            if k < i {
                                assert(before[k] == x);
                                assert(before[k] != before[i as int]);
                            } else {
                                assert(before[k + 1] == x);
                                assert(before[i as int] != before[k + 1]);
                            }
                        }
                        if before.contains(x) && x != response.id@ {
                            let k = choose|k: int| 0 <= k < before.len() && before[k] == x;
                            if k < i {
                                assert(self.view_ids()[k] == x);
                            } else {
                                assert(k != i);
                                assert(self.view_ids()[k - 1] == x);
                            }
                        }
                    }
                    assert forall|a: int, b: int| 0 <= a < b < self.view_ids().len() implies self.view_ids()[a]
                        != self.view_ids()[b] by {
                        let a2 = if a < i { a } else { a + 1 };
                        let b2 = if b < i { b } else { b + 1 };
                        assert(before[a2] != before[b2]);
                    }
                }
                true
            },
        }
    }
}

/// A request is completed at most once: once a terminal answer completed
/// it, the request is no longer pending, so no later answer completes it
/// again unless it is sent anew.
pub proof fn lemma_completed_once(p0: PendingRequests, p1: PendingRequests, first: WorkerResponse, second: WorkerResponse)
    requires
        p0.wf(),
        p0.pending(first.id@),
        !(first.status is Processing),
        forall|x: Seq<char>| p1.pending(x) <==> (p0.pending(x) && !(x == first.id@)),
        second.id@ == first.id@,
    ensures
        !(p1.pending(second.id@) && !(second.status is Processing)),
{
}

} // verus!
