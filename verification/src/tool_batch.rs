//! A batch of tool calls requested by the model, collecting their results.
//!
//! A batch is `Resolving` while some requested call has no result, and can be
//! turned into a `Resolved` batch once every call has one.

use vstd::prelude::*;
use crate::provider::{ToolCallRequest, ToolResult};
use crate::text::chars_of;
use std::marker::PhantomData;

verus! {

/// The id of a tool call.
#[derive(Debug)]
pub struct ToolCallId(pub String);

impl View for ToolCallId {
    type V = Seq<char>;

    open spec fn view(&self) -> Seq<char> {
        self.0@
    }
}

impl Clone for ToolCallId {
    fn clone(&self) -> (r: Self)
        ensures
            r == *self,
    {
        ToolCallId(self.0.clone())
    }
}

impl ToolCallId {
    /// The id held in `value`.
    pub fn from_string(value: String) -> (r: ToolCallId)
        ensures
            r@ == value@,
    {
        ToolCallId(value)
    }

    /// The id as a string.
    pub fn into_string(self) -> (r: String)
        ensures
            r@ == self@,
    {
        self.0
    }

    /// Whether two ids are equal.
    pub fn same(&self, other: &ToolCallId) -> (r: bool)
        ensures
            r == (self@ == other@),
    {
        self.0 == other.0
    }
}

/// Why a result could not be added to a batch.
#[derive(Debug)]
pub enum AddToolResponseIssue {
    /// The model did not request a call with this id.
    NotRequested(ToolCallId),
    /// The call already has a result in this batch.
    AlreadyProvided(ToolCallId),
    /// Calls without a result.
    Incomplete(Vec<ToolCallId>),
}

/// The state of a tool batch.
pub trait ToolBatchState {}

/// Some tools do not yet have a result.
#[derive(Debug)]
pub struct Resolving;

/// All tools have a result.
#[derive(Debug)]
pub struct Resolved;

impl ToolBatchState for Resolving {}

impl ToolBatchState for Resolved {}

/// Index of the entry with key `id` in `v`, or `v.len()`.
pub open spec fn key_index<T>(v: Seq<(ToolCallId, T)>, id: Seq<char>) -> int
    decreases v.len(),
{
    if v.len() == 0 {
        0
    } else if v[0].0@ == id {
        0
    } else {
        1 + key_index(v.drop_first(), id)
    }
}

/// Whether some entry of `v` has key `id`.
pub open spec fn has_key<T>(v: Seq<(ToolCallId, T)>, id: Seq<char>) -> bool {
    exists|i: int| 0 <= i < v.len() && #[trigger] v[i].0@ == id
}

/// No two entries of `v` share a key.
pub open spec fn keys_unique<T>(v: Seq<(ToolCallId, T)>) -> bool {
    forall|i: int, j: int| 0 <= i < v.len() && 0 <= j < v.len() && i != j ==> #[trigger] v[i].0@
        != #[trigger] v[j].0@
}

/// The keys of `v`, as a set.
pub open spec fn key_set<T>(v: Seq<(ToolCallId, T)>) -> Set<Seq<char>> {
    Set::new(|id: Seq<char>| has_key(v, id))
}

/// Tool calls requested by the model and their results.
#[derive(Debug)]
pub struct ToolBatch<S: ToolBatchState> {
    pending_calls: Vec<(ToolCallId, ToolCallRequest)>,
    results: Vec<(ToolCallId, ToolResult)>,
    _state: PhantomData<S>,
}

impl<S: ToolBatchState> ToolBatch<S> {
    /// The calls still waiting for a result, keyed by their id.
    pub closed spec fn pending(&self) -> Seq<(ToolCallId, ToolCallRequest)> {
        self.pending_calls@
    }

    /// The results collected so far, keyed by the id of their call.
    pub closed spec fn collected(&self) -> Seq<(ToolCallId, ToolResult)> {
        self.results@
    }

    /// Every id appears once, either as pending or as answered.
    pub open spec fn wf(&self) -> bool {
        &&& keys_unique(self.pending())
        &&& keys_unique(self.collected())
        &&& key_set(self.pending()).disjoint(key_set(self.collected()))
    }

    /// All ids of the batch, answered or not.
    pub open spec fn ids(&self) -> Set<Seq<char>> {
        key_set(self.pending()) + key_set(self.collected())
    }
}

/// The last call in `calls` with id `id`.
pub open spec fn last_call_with_id(calls: Seq<ToolCallRequest>, id: Seq<char>) -> ToolCallRequest
    decreases calls.len(),
{
    if calls.len() == 0 {
        arbitrary()
    } else if calls.last().id@ == id {
        calls.last()
    } else {
        last_call_with_id(calls.drop_last(), id)
    }
}

fn find_key<T>(v: &Vec<(ToolCallId, T)>, id: &ToolCallId) -> (r: Option<usize>)
    ensures
        match r {
            Some(i) => i < v.len() && v@[i as int].0@ == id@,
            None => !has_key(v@, id@),
        },
{
    let mut i: usize = 0;
    while i < v.len()
        invariant
            i <= v.len(),
            forall|j: int| 0 <= j < i ==> v@[j].0@ != id@,
        decreases v.len() - i,
    {
        if v[i].0.same(id) {
            return Some(i);
        }
        i = i + 1;
    }
    assert(!has_key(v@, id@)) by {
        if has_key(v@, id@) {
            let j = choose|j: int| 0 <= j < v@.len() && #[trigger] v@[j].0@ == id@;
            assert(v@[j].0@ != id@);
        }
    }
    None
}

impl ToolBatch<Resolving> {
    /// A batch waiting for results for `tool_calls`. Where two calls share an
    /// id, the later one is kept.
    pub fn new(tool_calls: Vec<ToolCallRequest>) -> (r: Self)
        ensures
            r.wf(),
            r.collected().len() == 0,
            forall|id: Seq<char>| #[trigger] has_key(r.pending(), id) <==> exists|i: int|
                0 <= i < tool_calls@.len() && tool_calls@[i].id@ == id,
            forall|i: int| 0 <= i < r.pending().len() ==> r.pending()[i].1 == last_call_with_id(
                tool_calls@,
                #[trigger] r.pending()[i].0@,
            ),
    {
        let mut pending: Vec<(ToolCallId, ToolCallRequest)> = Vec::new();
        let mut i: usize = 0;
        while i < tool_calls.len()
            invariant
                i <= tool_calls.len(),
                keys_unique(pending@),
                forall|id: Seq<char>| #[trigger] has_key(pending@, id) <==> exists|k: int|
                    0 <= k < i && tool_calls@[k].id@ == id,
                forall|k: int| 0 <= k < pending@.len() ==> pending@[k].1 == last_call_with_id(
                    tool_calls@.take(i as int),
                    #[trigger] pending@[k].0@,
                ),
            decreases tool_calls.len() - i,
        {
            let call = tool_calls[i].clone();
            let id = ToolCallId(call.id.clone());
            let ghost prev = pending@;
            let ghost calls_i = tool_calls@.take(i as int);
            let ghost calls_next = tool_calls@.take(i + 1);
            assert(calls_next.drop_last() =~= calls_i);
            assert(calls_next.last() == tool_calls@[i as int]);
            match find_key(&pending, &id) {
                Some(k) => {
                    pending.set(k, (id, call));
                    assert forall|idv: Seq<char>| #[trigger] has_key(pending@, idv) <==> exists|m: int|
                        0 <= m < i + 1 && tool_calls@[m].id@ == idv by {
                        if has_key(pending@, idv) {
                            let j = choose|j: int| 0 <= j < pending@.len() && #[trigger] pending@[j].0@ == idv;
                            if j != k {
                                assert(prev[j].0@ == idv);
                                assert(has_key(prev, idv));
                            } else {
                                assert(tool_calls@[i as int].id@ == idv);
                            }
                        }
                        if exists|m: int| 0 <= m < i + 1 && tool_calls@[m].id@ == idv {
                            let m = choose|m: int| 0 <= m < i + 1 && tool_calls@[m].id@ == idv;
                            if m < i {
                                assert(has_key(prev, idv));
                                let j = choose|j: int| 0 <= j < prev.len() && #[trigger] prev[j].0@ == idv;
                                assert(pending@[j].0@ == idv);
                            } else {
                                assert(pending@[k as int].0@ == idv);
                            }
                        }
                    }
                    assert forall|a: int| 0 <= a < pending@.len() implies pending@[a].1 == last_call_with_id(
                        calls_next,
                        #[trigger] pending@[a].0@,
                    ) by {
                        if a != k {
                            assert(prev[a].0@ != tool_calls@[i as int].id@);
                        }
                    }
                },
                None => {
                    pending.push((id, call));
                    assert forall|idv: Seq<char>| #[trigger] has_key(pending@, idv) <==> exists|m: int|
                        0 <= m < i + 1 && tool_calls@[m].id@ == idv by {
                        if has_key(pending@, idv) {
                            let j = choose|j: int| 0 <= j < pending@.len() && #[trigger] pending@[j].0@ == idv;
                            if j < prev.len() {
                                assert(prev[j].0@ == idv);
                                assert(has_key(prev, idv));
                            } else {
                                assert(tool_calls@[i as int].id@ == idv);
                            }
                        }
                        if exists|m: int| 0 <= m < i + 1 && tool_calls@[m].id@ == idv {
                            let m = choose|m: int| 0 <= m < i + 1 && tool_calls@[m].id@ == idv;
                            if m < i {
                                assert(has_key(prev, idv));
                                let j = choose|j: int| 0 <= j < prev.len() && #[trigger] prev[j].0@ == idv;
                                assert(pending@[j].0@ == idv);
                            } else {
                                assert(pending@[prev.len() as int].0@ == idv);
                            }
                        }
                    }
                    assert forall|a: int| 0 <= a < pending@.len() implies pending@[a].1 == last_call_with_id(
                        calls_next,
                        #[trigger] pending@[a].0@,
                    ) by {
                        if a < prev.len() {
                            assert(prev[a].0@ != tool_calls@[i as int].id@) by {
                                if prev[a].0@ == tool_calls@[i as int].id@ {
                                    assert(has_key(prev, tool_calls@[i as int].id@));
                                }
                            }
                        }
                    }
                },
            }
            i = i + 1;
        }
        assert(tool_calls@.take(tool_calls.len() as int) =~= tool_calls@);
        let r = ToolBatch { pending_calls: pending, results: Vec::new(), _state: PhantomData };
        assert(key_set(r.collected()) =~= Set::<Seq<char>>::empty());
        r
    }
}

} // verus!

verus! {

/// The result of trying to resolve a batch.
pub enum Resolution {
    /// Some calls still have no result; the batch is handed back.
    Pending(ToolBatch<Resolving>),
    /// Every call has a result.
    Complete(ToolBatch<Resolved>),
}

/// The text recorded for a call that was interrupted before it ran.
pub open spec fn interrupted_content() -> Seq<char> {
    "Tool call interrupted before execution"@
}

impl ToolBatch<Resolving> {
    /// The calls still awaiting a result.
    pub fn requested(&self) -> (r: Vec<&ToolCallRequest>)
        ensures
            r@.len() == self.pending().len(),
            forall|i: int| 0 <= i < r@.len() ==> *r@[i] == #[trigger] self.pending()[i].1,
    {
        let mut out: Vec<&ToolCallRequest> = Vec::new();
        let mut i: usize = 0;
        while i < self.pending_calls.len()
            invariant
                i <= self.pending_calls.len(),
                out@.len() == i,
                forall|j: int| 0 <= j < i ==> *out@[j] == #[trigger] self.pending_calls@[j].1,
            decreases self.pending_calls.len() - i,
        {
            out.push(&self.pending_calls[i].1);
            i = i + 1;
        }
        out
    }

    /// Records the result of the call `call_id`. Refused when the call
    /// already has a result, or was not requested.
    pub fn add_result(&mut self, call_id: ToolCallId, result: ToolResult) -> (r: Result<
        (),
        AddToolResponseIssue,
    >)
        requires
            old(self).wf(),
        ensures
            final(self).wf(),
            final(self).ids() == old(self).ids(),
            match r {
                Ok(()) => {
                    &&& !has_key(old(self).collected(), call_id@)
                    &&& exists|k: int|
                        0 <= k < old(self).pending().len() && old(self).pending()[k].0@ == call_id@
                            && final(self).pending() == old(self).pending().remove(k)
                    &&& final(self).collected() == old(self).collected().push((call_id, result))
                },
                Err(AddToolResponseIssue::AlreadyProvided(id)) => {
                    &&& id@ == call_id@
                    &&& has_key(old(self).collected(), call_id@)
                    &&& final(self).pending() == old(self).pending()
                    &&& final(self).collected() == old(self).collected()
                },
                Err(AddToolResponseIssue::NotRequested(id)) => {
                    &&& id@ == call_id@
                    &&& !has_key(old(self).collected(), call_id@)
                    &&& !has_key(old(self).pending(), call_id@)
                    &&& final(self).pending() == old(self).pending()
                    &&& final(self).collected() == old(self).collected()
                },
                Err(AddToolResponseIssue::Incomplete(_)) => false,
            },
    {
        if let Some(_) = find_key(&self.results, &call_id) {
            return Err(AddToolResponseIssue::AlreadyProvided(call_id));
        }
        let k = match find_key(&self.pending_calls, &call_id) {
            Some(k) => k,
            None => return Err(AddToolResponseIssue::NotRequested(call_id)),
        };
        let ghost old_pending = self.pending_calls@;
        let ghost old_results = self.results@;
        let removed = self.pending_calls.remove(k);
        assert(self.pending_calls@ == old_pending.remove(k as int));
        self.results.push((call_id, result));
        proof {
            let np = self.pending_calls@;
            let nr = self.results@;
            assert(forall|i: int| 0 <= i < np.len() ==> np[i] == (if i < k {
                old_pending[i]
            } else {
                old_pending[i + 1]
            }));
            assert(keys_unique(np)) by {
                assert forall|i: int, j: int|
                    0 <= i < np.len() && 0 <= j < np.len() && i != j implies #[trigger] np[i].0@
                    != #[trigger] np[j].0@ by {
                    let oi = if i < k { i } else { i + 1 };
                    let oj = if j < k { j } else { j + 1 };
                    assert(np[i] == old_pending[oi]);
                    assert(np[j] == old_pending[oj]);
                }
            }
            assert(keys_unique(nr)) by {
                assert forall|i: int, j: int|
                    0 <= i < nr.len() && 0 <= j < nr.len() && i != j implies #[trigger] nr[i].0@
                    != #[trigger] nr[j].0@ by {
                    if i == nr.len() - 1 && j < old_results.len() {
                        assert(old_results[j] == nr[j]);
                        if nr[i].0@ == nr[j].0@ {
                            assert(has_key(old_results, call_id@));
                        }
                    } else if j == nr.len() - 1 && i < old_results.len() {
                        assert(old_results[i] == nr[i]);
                        if nr[i].0@ == nr[j].0@ {
                            assert(has_key(old_results, call_id@));
                        }
                    } else {
                        assert(old_results[i] == nr[i]);
                        assert(old_results[j] == nr[j]);
                    }
                }
            }
            assert forall|id: Seq<char>| has_key(np, id) <==> (has_key(old_pending, id) && id != call_id@) by {
                if has_key(np, id) {
                    let j = choose|j: int| 0 <= j < np.len() && #[trigger] np[j].0@ == id;
                    let oj = if j < k { j } else { j + 1 };
                    assert(old_pending[oj].0@ == id);
                    assert(oj != k);
                }
                if has_key(old_pending, id) && id != call_id@ {
                    let j = choose|j: int| 0 <= j < old_pending.len() && #[trigger] old_pending[j].0@ == id;
                    assert(j != k);
                    if j < k {
                        assert(np[j] == old_pending[j]);
                    } else {
                        assert(np[j - 1] == old_pending[j]);
                    }
                }
            }
            assert forall|id: Seq<char>| has_key(nr, id) <==> (has_key(old_results, id) || id == call_id@) by {
                if has_key(nr, id) {
                    let j = choose|j: int| 0 <= j < nr.len() && #[trigger] nr[j].0@ == id;
                    if j < old_results.len() {
                        assert(old_results[j] == nr[j]);
                    }
                }
                if has_key(old_results, id) {
                    let j = choose|j: int| 0 <= j < old_results.len() && #[trigger] old_results[j].0@ == id;
                    assert(nr[j] == old_results[j]);
                }
                if id == call_id@ {
                    assert(nr[nr.len() - 1].0@ == id);
                }
            }
            assert forall|id: Seq<char>| !(key_set(np).contains(id) && key_set(nr).contains(id)) by {
                if key_set(np).contains(id) && key_set(nr).contains(id) {
                    assert(has_key(old_pending, id) && id != call_id@);
                    assert(key_set(old_pending).contains(id));
                    assert(!key_set(old_results).contains(id));
                }
            }
            assert(key_set(np).disjoint(key_set(nr)));
            assert(key_set(np) + key_set(nr) =~= key_set(old_pending) + key_set(old_results));
        }
        Ok(())
    }

    /// Marks every call without a result as interrupted, without running it.
    pub fn interrupt_remaining(self) -> (r: ToolBatch<Resolved>)
        requires
            self.wf(),
        ensures
            r.wf(),
            r.pending().len() == 0,
            r.ids() == self.ids(),
            r.collected().len() == self.collected().len() + self.pending().len(),
            forall|i: int| 0 <= i < self.collected().len() ==> r.collected()[i] == self.collected()[i],
            forall|i: int|
                0 <= i < self.pending().len() ==> {
                    let (id, res) = #[trigger] r.collected()[self.collected().len() + i];
                    &&& id@ == self.pending()[i].0@
                    &&& res.tool_call_id@ == self.pending()[i].0@
                    &&& res.content@ == interrupted_content()
                },
    {
        let ToolBatch { pending_calls, mut results, _state } = self;
        let ghost old_results = results@;
        let mut i: usize = 0;
        while i < pending_calls.len()
            invariant
                i <= pending_calls.len(),
                keys_unique(pending_calls@),
                keys_unique(old_results),
                key_set(pending_calls@).disjoint(key_set(old_results)),
                results@.len() == old_results.len() + i,
                forall|j: int| 0 <= j < old_results.len() ==> results@[j] == old_results[j],
                forall|j: int|
                    0 <= j < i ==> {
                        let (id, res) = #[trigger] results@[old_results.len() + j];
                        &&& id@ == pending_calls@[j].0@
                        &&& res.tool_call_id@ == pending_calls@[j].0@
                        &&& res.content@ == interrupted_content()
                    },
            decreases pending_calls.len() - i,
        {
            let id = pending_calls[i].0.clone();
            let content = "Tool call interrupted before execution".to_owned();
            let result = ToolResult { tool_call_id: id.0.clone(), content };
            results.push((id, result));
            i = i + 1;
        }
        let r: ToolBatch<Resolved> = ToolBatch { pending_calls: Vec::new(), results, _state: PhantomData };
        proof {
            let nr = r.collected();
            let n = old_results.len();
            assert forall|j: int| 0 <= j < nr.len() implies #[trigger] has_key(old_results, nr[j].0@)
                || has_key(pending_calls@, nr[j].0@) by {
                if j < n {
                    assert(old_results[j] == nr[j]);
                } else {
                    assert(nr[n + (j - n)].0@ == pending_calls@[j - n].0@);
                }
            }
            assert(keys_unique(nr)) by {
                assert forall|a: int, b: int|
                    0 <= a < nr.len() && 0 <= b < nr.len() && a != b implies #[trigger] nr[a].0@
                    != #[trigger] nr[b].0@ by {
                    if a < n && b < n {
                        assert(old_results[a] == nr[a] && old_results[b] == nr[b]);
                    } else if a >= n && b >= n {
                        assert(nr[n + (a - n)].0@ == pending_calls@[a - n].0@);
                        assert(nr[n + (b - n)].0@ == pending_calls@[b - n].0@);
                    } else if a < n {
                        assert(old_results[a] == nr[a]);
                        assert(nr[n + (b - n)].0@ == pending_calls@[b - n].0@);
                        if nr[a].0@ == nr[b].0@ {
                            assert(has_key(old_results, nr[a].0@));
                            assert(has_key(pending_calls@, nr[a].0@));
                            assert(key_set(pending_calls@).contains(nr[a].0@));
                        }
                    } else {
                        assert(old_results[b] == nr[b]);
                        assert(nr[n + (a - n)].0@ == pending_calls@[a - n].0@);
                        if nr[a].0@ == nr[b].0@ {
                            assert(has_key(old_results, nr[b].0@));
                            assert(has_key(pending_calls@, nr[b].0@));
                            assert(key_set(pending_calls@).contains(nr[b].0@));
                        }
                    }
                }
            }
            assert forall|id: Seq<char>| has_key(nr, id) <==> (has_key(old_results, id) || has_key(pending_calls@, id)) by {
                if has_key(nr, id) {
                    let j = choose|j: int| 0 <= j < nr.len() && #[trigger] nr[j].0@ == id;
                    assert(has_key(old_results, nr[j].0@) || has_key(pending_calls@, nr[j].0@));
                }
                if has_key(old_results, id) {
                    let j = choose|j: int| 0 <= j < old_results.len() && #[trigger] old_results[j].0@ == id;
                    assert(nr[j] == old_results[j]);
                }
                if has_key(pending_calls@, id) {
                    let j = choose|j: int| 0 <= j < pending_calls@.len() && #[trigger] pending_calls@[j].0@ == id;
                    assert(nr[n + j].0@ == id);
                }
            }
            assert(key_set(r.pending()) =~= Set::<Seq<char>>::empty());
            assert(r.ids() =~= key_set(pending_calls@) + key_set(old_results));
        }
        r
    }

    /// Turns the batch into a resolved one when every call has a result, and
    /// hands it back unchanged otherwise.
    pub fn into_resolved(self) -> (r: Resolution)
        ensures
            match r {
                Resolution::Complete(b) => self.pending().len() == 0 && b.pending().len() == 0
                    && b.collected() == self.collected(),
                Resolution::Pending(b) => self.pending().len() > 0 && b.pending() == self.pending()
                    && b.collected() == self.collected(),
            },
    {
        if self.pending_calls.len() == 0 {
            Resolution::Complete(ToolBatch {
                pending_calls: self.pending_calls,
                results: self.results,
                _state: PhantomData,
            })
        } else {
            Resolution::Pending(self)
        }
    }
}

impl ToolBatch<Resolved> {
    /// Consumes the completed batch and returns its results.
    pub fn drain(self) -> (r: Vec<ToolResult>)
        ensures
            r@.len() == self.collected().len(),
            forall|i: int| 0 <= i < r@.len() ==> r@[i] == #[trigger] self.collected()[i].1,
    {
        let mut out: Vec<ToolResult> = Vec::new();
        let ToolBatch { pending_calls: _, results, _state } = self;
        let mut results = results;
        let ghost all = results@;
        let mut i: usize = 0;
        while i < results.len()
            invariant
                i <= results.len(),
                results@ == all,
                out@.len() == i,
                forall|j: int| 0 <= j < i ==> out@[j] == #[trigger] all[j].1,
            decreases results.len() - i,
        {
            out.push(results[i].1.clone());
            i = i + 1;
        }
        out
    }

    /// The results of the batch.
    pub fn results(&self) -> (r: Vec<&ToolResult>)
        ensures
            r@.len() == self.collected().len(),
            forall|i: int| 0 <= i < r@.len() ==> *r@[i] == #[trigger] self.collected()[i].1,
    {
        let mut out: Vec<&ToolResult> = Vec::new();
        let mut i: usize = 0;
        while i < self.results.len()
            invariant
                i <= self.results.len(),
                out@.len() == i,
                forall|j: int| 0 <= j < i ==> *out@[j] == #[trigger] self.results@[j].1,
            decreases self.results.len() - i,
        {
            out.push(&self.results[i].1);
            i = i + 1;
        }
        out
    }
}

/// Whether no two entries of `v` share a key.
fn unique_keys<T>(v: &Vec<(ToolCallId, T)>) -> (r: bool)
    ensures
        r == keys_unique(v@),
{
    let mut i: usize = 0;
    while i < v.len()
        invariant
            i <= v.len(),
            forall|a: int, b: int| 0 <= a < i && 0 <= b < v.len() && a != b ==> #[trigger] v@[a].0@ != #[trigger] v@[b].0@,
        decreases v.len() - i,
    {
        let mut j: usize = 0;
        while j < v.len()
            invariant
                i < v.len(),
                j <= v.len(),
                forall|a: int, b: int| 0 <= a < i && 0 <= b < v.len() && a != b ==> #[trigger] v@[a].0@ != #[trigger] v@[b].0@,
                forall|b: int| 0 <= b < j && b != i ==> v@[i as int].0@ != #[trigger] v@[b].0@,
            decreases v.len() - j,
        {
            if j != i && v[i].0.same(&v[j].0) {
                assert(!keys_unique(v@)) by {
                    assert(v@[i as int].0@ == v@[j as int].0@);
                }
                return false;
            }
            j = j + 1;
        }
        i = i + 1;
    }
    true
}

/// Whether `ids` answer exactly the calls still waiting in `batch`: some
/// ids, one per waiting call, none already answered, none twice, in a
/// well-formed batch.
pub open spec fn answers_exactly(batch: ToolBatch<Resolving>, ids: Seq<ToolCallId>) -> bool {
    &&& batch.wf()
    &&& ids.len() > 0
    &&& ids.len() == batch.pending().len()
    &&& forall|i: int| 0 <= i < ids.len() ==> has_key(batch.pending(), (#[trigger] ids[i])@) && !has_key(
        batch.collected(),
        ids[i]@,
    )
    &&& forall|i: int, j: int| 0 <= i < j < ids.len() ==> (#[trigger] ids[i])@ != (#[trigger] ids[j])@
}

impl ToolBatch<Resolving> {
    /// Whether `ids` answer exactly the calls still waiting (see
    /// `answers_exactly`).
    pub fn answered_exactly_by(&self, ids: &Vec<ToolCallId>) -> (r: bool)
        ensures
            r == answers_exactly(*self, ids@),
    {
        if !unique_keys(&self.pending_calls) || !unique_keys(&self.results) {
            return false;
        }
        let mut k: usize = 0;
        while k < self.pending_calls.len()
            invariant
                k <= self.pending_calls.len(),
                forall|a: int| 0 <= a < k ==> !has_key(self.results@, (#[trigger] self.pending_calls@[a]).0@),
            decreases self.pending_calls.len() - k,
        {
            if find_key(&self.results, &self.pending_calls[k].0).is_some() {
                assert(!key_set(self.pending()).disjoint(key_set(self.collected()))) by {
                    assert(key_set(self.pending()).contains(self.pending_calls@[k as int].0@));
                    assert(key_set(self.collected()).contains(self.pending_calls@[k as int].0@));
                }
                return false;
            }
            k = k + 1;
        }
        assert(key_set(self.pending()).disjoint(key_set(self.collected()))) by {
            assert forall|id: Seq<char>| key_set(self.pending()).contains(id) implies !key_set(self.collected()).contains(id) by {
                let a = choose|a: int| 0 <= a < self.pending_calls@.len() && #[trigger] self.pending_calls@[a].0@ == id;
                assert(!has_key(self.results@, self.pending_calls@[a].0@));
            }
        }
        if ids.len() == 0 || ids.len() != self.pending_calls.len() {
            return false;
        }
        let mut i: usize = 0;
        while i < ids.len()
            invariant
                i <= ids.len(),
                forall|a: int| 0 <= a < i ==> has_key(self.pending_calls@, (#[trigger] ids@[a])@) && !has_key(
                    self.results@,
                    ids@[a]@,
                ),
                forall|a: int, b: int| 0 <= a < b < i ==> (#[trigger] ids@[a])@ != (#[trigger] ids@[b])@,
            decreases ids.len() - i,
        {
            if find_key(&self.pending_calls, &ids[i]).is_none() || find_key(&self.results, &ids[i]).is_some() {
                return false;
            }
            let mut j: usize = 0;
            while j < i
                invariant
                    i < ids.len(),
                    j <= i,
                    forall|a: int| 0 <= a < j ==> (#[trigger] ids@[a])@ != ids@[i as int]@,
                decreases i - j,
            {
                if ids[j].same(&ids[i]) {
                    return false;
                }
                j = j + 1;
            }
            i = i + 1;
        }
        true
    }
}

} // verus!
