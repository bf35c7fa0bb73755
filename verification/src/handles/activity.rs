//! In-flight calls on handles.
//!
//! Each handle has an activity: an admission state and a count of the calls in
//! flight, packed in one word so that a close and a reservation can never both
//! succeed. Activities form a forest; a call on a handle also counts on the
//! handle's ancestors, except on the root, which only its own calls reserve.

use vstd::prelude::*;

use super::handle_id::RegistryError;

verus! {

/// Whether new calls may start.
#[derive(Debug, Clone, Copy, PartialEq, Eq, Structural)]
pub enum Admission {
    Open,
    Closing,
    Retired,
}

/// One more than the largest count of calls a word can hold.
pub open spec fn count_limit() -> int {
    usize::MAX as int / 4 + 1
}

/// The largest count of calls a word can hold.
pub open spec fn spec_activity_max() -> usize {
    (count_limit() - 1) as usize
}

/// The largest count of calls a word can hold.
#[verifier::when_used_as_spec(spec_activity_max)]
pub fn activity_max() -> (max: usize)
    ensures
        max == spec_activity_max(),
{
    usize::MAX / 4
}

/// A word whose admission field holds one of the three admission states.
pub open spec fn word_wf(word: usize) -> bool {
    word < 3 * count_limit()
}

/// The admission state a word holds.
pub open spec fn spec_word_admission(word: usize) -> Admission {
    if word < count_limit() {
        Admission::Open
    } else if word < 2 * count_limit() {
        Admission::Closing
    } else {
        Admission::Retired
    }
}

/// The count of calls a well-formed word holds.
pub open spec fn spec_word_count(word: usize) -> usize {
    (match spec_word_admission(word) {
        Admission::Open => word as int,
        Admission::Closing => word - count_limit(),
        Admission::Retired => word - 2 * count_limit(),
    }) as usize
}

/// The admission state a word holds.
#[verifier::when_used_as_spec(spec_word_admission)]
pub fn word_admission(word: usize) -> (admission: Admission)
    ensures
        admission == spec_word_admission(word),
{
    let limit: usize = activity_max() + 1;
    if word < limit {
        Admission::Open
    } else if word < 2 * limit {
        Admission::Closing
    } else {
        Admission::Retired
    }
}

/// The count of calls a word holds.
#[verifier::when_used_as_spec(spec_word_count)]
pub fn word_count(word: usize) -> (count: usize)
    requires
        word_wf(word),
    ensures
        count == spec_word_count(word),
        count <= spec_activity_max(),
{
    let limit: usize = activity_max() + 1;
    match word_admission(word) {
        Admission::Open => word,
        Admission::Closing => word - limit,
        Admission::Retired => word - 2 * limit,
    }
}

/// The word with this admission state and count.
pub open spec fn spec_pack(admission: Admission, count: usize) -> usize {
    (match admission {
        Admission::Open => count as int,
        Admission::Closing => count_limit() + count,
        Admission::Retired => 2 * count_limit() + count,
    }) as usize
}

/// The word with this admission state and count.
pub fn pack(admission: Admission, count: usize) -> (word: usize)
    requires
        count <= spec_activity_max(),
    ensures
        word == spec_pack(admission, count),
        word_wf(word),
        spec_word_admission(word) == admission,
        spec_word_count(word) == count,
{
    let limit: usize = activity_max() + 1;
    match admission {
        Admission::Open => count,
        Admission::Closing => limit + count,
        Admission::Retired => 2 * limit + count,
    }
}

/// Why a word refuses one more call, if it does.
pub open spec fn word_refusal(word: usize) -> Option<RegistryError> {
    match spec_word_admission(word) {
        Admission::Open => if spec_word_count(word) == spec_activity_max() {
            Some(RegistryError::ActivityOverflow)
        } else {
            None
        },
        Admission::Closing => Some(RegistryError::Busy),
        Admission::Retired => Some(RegistryError::NotFound),
    }
}

/// Admits one more call.
pub fn reserve_word(word: usize) -> (result: Result<usize, RegistryError>)
    requires
        word_wf(word),
    ensures
        match word_refusal(word) {
            None => result == Ok::<usize, RegistryError>((word + 1) as usize),
            Some(error) => result == Err::<usize, RegistryError>(error),
        },
        result matches Ok(next) ==> {
            &&& word_wf(next)
            &&& spec_word_admission(next) == Admission::Open
            &&& spec_word_count(next) == spec_word_count(word) + 1
        },
{
    match word_admission(word) {
        Admission::Open => if word_count(word) == activity_max() {
            Err(RegistryError::ActivityOverflow)
        } else {
            Ok(word + 1)
        },
        Admission::Closing => Err(RegistryError::Busy),
        Admission::Retired => Err(RegistryError::NotFound),
    }
}

/// Ends one call.
pub fn release_word(word: usize) -> (next: usize)
    requires
        word_wf(word),
        spec_word_count(word) > 0,
    ensures
        next == word - 1,
        word_wf(next),
        spec_word_admission(next) == spec_word_admission(word),
        spec_word_count(next) == spec_word_count(word) - 1,
{
    word - 1
}

/// Refuses all further calls for good; calls in flight stay counted.
pub fn retire_word(word: usize) -> (next: usize)
    requires
        word_wf(word),
    ensures
        next == spec_pack(Admission::Retired, spec_word_count(word)),
        word_wf(next),
        spec_word_admission(next) == Admission::Retired,
        spec_word_count(next) == spec_word_count(word),
{
    pack(Admission::Retired, word_count(word))
}

/// Why a word refuses a close, if it does.
pub open spec fn close_refusal(word: usize) -> Option<RegistryError> {
    if word == spec_pack(Admission::Open, 1) {
        None
    } else if spec_word_admission(word) == Admission::Retired {
        Some(RegistryError::NotFound)
    } else {
        Some(RegistryError::Busy)
    }
}

/// Starts a close on behalf of the one call in flight. Any other call, or a
/// close already under way, makes the handle busy.
pub fn close_word(word: usize) -> (result: Result<usize, RegistryError>)
    requires
        word_wf(word),
    ensures
        match result {
            Ok(next) => {
                &&& word == spec_pack(Admission::Open, 1)
                &&& next == spec_pack(Admission::Closing, 1)
                &&& word_wf(next)
                &&& spec_word_admission(next) == Admission::Closing
                &&& spec_word_count(next) == 1
            },
            Err(error) => {
                &&& word != spec_pack(Admission::Open, 1)
                &&& close_refusal(word) == Some(error)
            },
        },
        result is Ok <==> close_refusal(word) is None,
{
    if word == 1 {
        Ok(pack(Admission::Closing, 1))
    } else if word_admission(word) == Admission::Retired {
        Err(RegistryError::NotFound)
    } else {
        Err(RegistryError::Busy)
    }
}

/// Ends a close. Only a closing word reopens: a retired one stays retired.
pub fn reopen_word(word: usize) -> (next: usize)
    requires
        word_wf(word),
    ensures
        next == (if spec_word_admission(word) == Admission::Closing {
            spec_pack(Admission::Open, spec_word_count(word))
        } else {
            word
        }),
        word_wf(next),
        spec_word_count(next) == spec_word_count(word),
{
    match word_admission(word) {
        Admission::Closing => word_count(word),
        _ => word,
    }
}

/// A reservation and a close on one word exclude each other, in either order:
/// once a close began no call is admitted, and once a second call was admitted
/// no close begins.
pub proof fn close_and_reservation_exclude_each_other(word: usize)
    requires
        word_wf(word),
    ensures
        word_refusal(spec_pack(Admission::Closing, 1)) == Some(RegistryError::Busy),
        word_refusal(word) is None && spec_word_count(word) >= 1 ==> (word + 1) as usize
            != spec_pack(Admission::Open, 1),
{
}

/// What a call does to the count, its end undoes.
pub proof fn release_undoes_reserve(word: usize)
    requires
        word_wf(word),
        word_refusal(word) is None,
    ensures
        ((word + 1) as usize - 1) as usize == word,
        spec_word_count((word + 1) as usize) > 0,
{
}

/// The activity of one handle.
#[derive(Debug, Clone, Copy, PartialEq, Eq)]
pub struct HandleActivity {
    /// The activity this one's calls also count on.
    pub parent: Option<usize>,
    /// The registry this activity's tree belongs to; kept on the root.
    pub owner: Option<u64>,
    /// Whether a registry entry was ever created for this activity.
    pub registered: bool,
    /// Admission state and call count.
    pub state: usize,
}

impl HandleActivity {
    /// Whether new calls may start here.
    pub open spec fn spec_admission(self) -> Admission {
        spec_word_admission(self.state)
    }

    /// Calls in flight here.
    pub open spec fn spec_count(self) -> usize {
        spec_word_count(self.state)
    }

    /// Whether new calls may start here.
    #[verifier::when_used_as_spec(spec_admission)]
    pub fn admission(self) -> (admission: Admission)
        ensures
            admission == self.spec_admission(),
    {
        word_admission(self.state)
    }

    /// Calls in flight here.
    #[verifier::when_used_as_spec(spec_count)]
    pub fn count(self) -> (count: usize)
        requires
            word_wf(self.state),
        ensures
            count == self.spec_count(),
    {
        word_count(self.state)
    }
}

/// The activity with another word.
pub open spec fn with_word(activity: HandleActivity, word: usize) -> HandleActivity {
    HandleActivity { state: word, ..activity }
}

/// Names one activity of a forest.
#[derive(Debug, Clone, Copy, PartialEq, Eq, Hash, Structural)]
pub struct ActivityId {
    pub index: usize,
}

/// An open, idle, unregistered activity under `parent`.
pub open spec fn new_activity(parent: Option<ActivityId>) -> HandleActivity {
    HandleActivity {
        parent: (match parent {
            Some(p) => Some(p.index),
            None => None,
        }),
        owner: None,
        registered: false,
        state: spec_pack(Admission::Open, 0),
    }
}

/// All activities. A parent always stands before its children.
#[derive(Debug)]
pub struct ActivityForest {
    pub nodes: Vec<HandleActivity>,
}

/// Whether `a` is `i` or one of its ancestors.
pub open spec fn in_chain(nodes: Seq<HandleActivity>, i: int, a: int) -> bool
    decreases i,
{
    a == i || match nodes[i].parent {
        Some(p) => 0 <= p < i && in_chain(nodes, p as int, a),
        None => false,
    }
}

/// The root above `i`.
pub open spec fn root_of(nodes: Seq<HandleActivity>, i: int) -> int
    decreases i,
{
    match nodes[i].parent {
        Some(p) => if 0 <= p < i {
            root_of(nodes, p as int)
        } else {
            i
        },
        None => i,
    }
}

/// Whether a call on `i` counts on `a`: on `i` itself and on every ancestor
/// that is not a root.
pub open spec fn counts_on(nodes: Seq<HandleActivity>, i: int, a: int) -> bool {
    in_chain(nodes, i, a) && (a == i || nodes[a].parent is Some)
}

/// The first refusal met going up from `i`, by admission alone.
pub open spec fn closed_by(nodes: Seq<HandleActivity>, i: int) -> Option<RegistryError>
    decreases i,
{
    match nodes[i].spec_admission() {
        Admission::Open => match nodes[i].parent {
            Some(p) => if 0 <= p < i {
                closed_by(nodes, p as int)
            } else {
                None
            },
            None => None,
        },
        Admission::Closing => Some(RegistryError::Busy),
        Admission::Retired => Some(RegistryError::NotFound),
    }
}

/// The first refusal met going up from `i` over the activities a call on `from`
/// counts on.
pub open spec fn refused_by(nodes: Seq<HandleActivity>, from: int, i: int) -> Option<RegistryError>
    decreases i,
{
    if i != from && nodes[i].parent is None {
        None
    } else {
        match word_refusal(nodes[i].state) {
            Some(error) => Some(error),
            None => match nodes[i].parent {
                Some(p) => if 0 <= p < i {
                    refused_by(nodes, from, p as int)
                } else {
                    None
                },
                None => None,
            },
        }
    }
}

/// The activities after one more call on `i`.
pub open spec fn with_call(nodes: Seq<HandleActivity>, i: int) -> Seq<HandleActivity> {
    Seq::new(
        nodes.len(),
        |a: int|
            if counts_on(nodes, i, a) {
                with_word(nodes[a], (nodes[a].state + 1) as usize)
            } else {
                nodes[a]
            },
    )
}

/// The activities after a call on `i` ended.
pub open spec fn without_call(nodes: Seq<HandleActivity>, i: int) -> Seq<HandleActivity> {
    Seq::new(
        nodes.len(),
        |a: int|
            if counts_on(nodes, i, a) {
                with_word(nodes[a], (nodes[a].state - 1) as usize)
            } else {
                nodes[a]
            },
    )
}

/// Whether a call on `i` is in flight, so far as the counts tell.
pub open spec fn call_in_flight(nodes: Seq<HandleActivity>, i: int) -> bool {
    forall|a: int| counts_on(nodes, i, a) ==> (#[trigger] nodes[a]).spec_count() > 0
}

/// The activities after `i` was retired.
pub open spec fn retired_nodes(nodes: Seq<HandleActivity>, i: int) -> Seq<HandleActivity> {
    nodes.update(
        i,
        with_word(nodes[i], spec_pack(Admission::Retired, nodes[i].spec_count())),
    )
}

/// The activities after a close of `i` began.
pub open spec fn closing_nodes(nodes: Seq<HandleActivity>, i: int) -> Seq<HandleActivity> {
    nodes.update(i, with_word(nodes[i], spec_pack(Admission::Closing, 1)))
}

/// The activities after a close of `i` ended.
pub open spec fn reopened_nodes(nodes: Seq<HandleActivity>, i: int) -> Seq<HandleActivity> {
    if nodes[i].spec_admission() == Admission::Closing {
        nodes.update(i, with_word(nodes[i], spec_pack(Admission::Open, nodes[i].spec_count())))
    } else {
        nodes
    }
}

/// The activities after the tree of `i` was bound to `owner`.
pub open spec fn claimed_nodes(
    nodes: Seq<HandleActivity>,
    i: int,
    root: int,
    owner: u64,
) -> Seq<HandleActivity> {
    let bound = nodes.update(root, HandleActivity { owner: Some(owner), ..nodes[root] });
    bound.update(i, HandleActivity { registered: true, ..bound[i] })
}

/// Parents stand before children and every word is well formed.
pub open spec fn nodes_wf(nodes: Seq<HandleActivity>) -> bool {
    &&& nodes.len() <= usize::MAX
    &&& forall|i: int|
        0 <= i < nodes.len() ==> {
            &&& word_wf((#[trigger] nodes[i]).state)
            &&& (nodes[i].parent matches Some(p) ==> p < i)
        }
}

/// Taking a close back leaves every activity as it was before the close began.
pub proof fn reopening_undoes_closing(nodes: Seq<HandleActivity>, i: int)
    requires
        nodes_wf(nodes),
        0 <= i < nodes.len(),
        nodes[i].state == spec_pack(Admission::Open, 1),
    ensures
        reopened_nodes(closing_nodes(nodes, i), i) == nodes,
{
    let closing = closing_nodes(nodes, i);
    assert(reopened_nodes(closing, i)[i] == nodes[i]);
    assert(reopened_nodes(closing, i) =~= nodes);
}

/// A retired activity stays retired: no close begins on it, and taking an
/// earlier close back does not reopen it.
pub proof fn retirement_is_final(nodes: Seq<HandleActivity>, i: int)
    requires
        nodes_wf(nodes),
        0 <= i < nodes.len(),
        nodes[i].spec_admission() == Admission::Retired,
    ensures
        nodes[i].state != spec_pack(Admission::Open, 1),
        reopened_nodes(nodes, i) == nodes,
        word_refusal(nodes[i].state) == Some(RegistryError::NotFound),
{
}

/// An ancestor never stands after its descendant.
pub proof fn lemma_in_chain_is_below(nodes: Seq<HandleActivity>, i: int, a: int)
    requires
        in_chain(nodes, i, a),
    ensures
        a <= i,
    decreases i,
{
    if a != i {
        lemma_in_chain_is_below(nodes, nodes[i].parent->Some_0 as int, a);
    }
}

/// No activity after `i` is in its chain.
pub proof fn lemma_nothing_above(nodes: Seq<HandleActivity>, i: int)
    ensures
        forall|a: int| a > i ==> !#[trigger] in_chain(nodes, i, a),
{
    assert forall|a: int| a > i implies !#[trigger] in_chain(nodes, i, a) by {
        if in_chain(nodes, i, a) {
            lemma_in_chain_is_below(nodes, i, a);
        }
    }
}

/// Every ancestor is an activity of the forest.
pub proof fn lemma_in_chain_in_bounds(nodes: Seq<HandleActivity>, i: int, a: int)
    requires
        in_chain(nodes, i, a),
        0 <= i,
    ensures
        0 <= a <= i,
    decreases i,
{
    if a != i {
        lemma_in_chain_in_bounds(nodes, nodes[i].parent->Some_0 as int, a);
    }
}

/// Ancestry depends on the parents alone.
pub proof fn lemma_in_chain_same_parents(
    left: Seq<HandleActivity>,
    right: Seq<HandleActivity>,
    i: int,
    a: int,
)
    requires
        left.len() == right.len(),
        0 <= i < left.len(),
        forall|k: int| 0 <= k < left.len() ==> (#[trigger] left[k]).parent == right[k].parent,
    ensures
        in_chain(left, i, a) == in_chain(right, i, a),
    decreases i,
{
    if let Some(p) = left[i].parent {
        assert(left[i].parent == right[i].parent);
        if p < i {
            lemma_in_chain_same_parents(left, right, p as int, a);
        }
    }
}

/// Going up from `cur` to its parent `p` leaves exactly the part of the chain
/// at or below `p`.
proof fn lemma_step_up(nodes: Seq<HandleActivity>, i: int, cur: int, p: int)
    requires
        nodes_wf(nodes),
        0 <= cur < nodes.len(),
        nodes[cur].parent == Some(p as usize),
        0 <= p <= usize::MAX,
        forall|a: int| a <= cur ==> #[trigger] in_chain(nodes, i, a) == in_chain(nodes, cur, a),
    ensures
        0 <= p < cur,
        forall|a: int| a <= p ==> #[trigger] in_chain(nodes, i, a) == in_chain(nodes, p, a),
        forall|a: int| p < a < cur ==> !#[trigger] in_chain(nodes, i, a),
{
    assert(word_wf(nodes[cur].state));
    assert forall|a: int| a <= p implies #[trigger] in_chain(nodes, i, a) == in_chain(nodes, p, a) by {
        assert(in_chain(nodes, i, a) == in_chain(nodes, cur, a));
    }
    assert forall|a: int| p < a < cur implies !#[trigger] in_chain(nodes, i, a) by {
        assert(in_chain(nodes, i, a) == in_chain(nodes, cur, a));
        if in_chain(nodes, p, a) {
            lemma_in_chain_is_below(nodes, p, a);
        }
    }
}

/// The nodes while a call on `i` is being reserved, with every activity above
/// `cur` already counted.
spec fn partly_called(
    before: Seq<HandleActivity>,
    now: Seq<HandleActivity>,
    i: int,
    cur: int,
    delta: int,
) -> bool {
    &&& now.len() == before.len()
    &&& forall|a: int|
        0 <= a < before.len() ==> #[trigger] now[a] == (if a > cur && counts_on(before, i, a) {
            with_word(before[a], (before[a].state + delta) as usize)
        } else {
            before[a]
        })
}

/// When nothing going up from `i` refuses a call on `from`, no activity it
/// counts on does.
proof fn lemma_not_refused(nodes: Seq<HandleActivity>, from: int, i: int, a: int)
    requires
        nodes_wf(nodes),
        0 <= i < nodes.len(),
        refused_by(nodes, from, i) is None,
        in_chain(nodes, i, a),
        a == from || nodes[a].parent is Some,
    ensures
        word_refusal(nodes[a].state) is None,
    decreases i,
{
    assert(word_wf(nodes[i].state));
    if a != i {
        lemma_not_refused(nodes, from, nodes[i].parent->Some_0 as int, a);
    }
}

/// A call that was admitted counts one on its handle and on every ancestor
/// below the root, and its end puts every count back.
pub proof fn release_call_undoes_reserve_call(nodes: Seq<HandleActivity>, i: int)
    requires
        nodes_wf(nodes),
        0 <= i < nodes.len(),
        refused_by(nodes, i, i) is None,
    ensures
        forall|a: int| #[trigger]
            counts_on(nodes, i, a) ==> with_call(nodes, i)[a].spec_count()
                == nodes[a].spec_count() + 1,
        call_in_flight(with_call(nodes, i), i),
        without_call(with_call(nodes, i), i) == nodes,
{
    let called = with_call(nodes, i);
    assert forall|a: int| #[trigger] counts_on(nodes, i, a) implies {
        &&& 0 <= a < nodes.len()
        &&& word_refusal(nodes[a].state) is None
        &&& called[a].spec_count() == nodes[a].spec_count() + 1
    } by {
        lemma_in_chain_in_bounds(nodes, i, a);
        lemma_not_refused(nodes, i, i, a);
        assert(word_wf(nodes[a].state));
    }
    assert forall|a: int| #[trigger] counts_on(called, i, a) == counts_on(nodes, i, a) by {
        lemma_in_chain_same_parents(nodes, called, i, a);
        if counts_on(called, i, a) {
            lemma_in_chain_in_bounds(called, i, a);
        }
        if counts_on(nodes, i, a) {
            lemma_in_chain_in_bounds(nodes, i, a);
        }
    }
    assert forall|a: int| counts_on(called, i, a) implies (#[trigger] called[a]).spec_count() > 0 by {
        assert(counts_on(nodes, i, a));
    }
    assert(without_call(called, i) =~= nodes);
}

/// While an ancestor closes or is retired, no call on its descendants starts.
pub proof fn closed_ancestor_refuses_descendants(nodes: Seq<HandleActivity>, i: int, a: int)
    requires
        nodes_wf(nodes),
        0 <= i < nodes.len(),
        in_chain(nodes, i, a),
        nodes[a].spec_admission() != Admission::Open,
    ensures
        closed_by(nodes, i) is Some,
    decreases i,
{
    assert(word_wf(nodes[i].state));
    if a != i {
        closed_ancestor_refuses_descendants(nodes, nodes[i].parent->Some_0 as int, a);
    }
}

/// While an ancestor closes and none was retired, a call on a descendant is
/// told that the handle is busy.
pub proof fn closing_ancestor_makes_descendants_busy(nodes: Seq<HandleActivity>, i: int, a: int)
    requires
        nodes_wf(nodes),
        0 <= i < nodes.len(),
        in_chain(nodes, i, a),
        nodes[a].spec_admission() == Admission::Closing,
        forall|b: int| #[trigger]
            in_chain(nodes, i, b) ==> nodes[b].spec_admission() != Admission::Retired,
    ensures
        closed_by(nodes, i) == Some(RegistryError::Busy),
    decreases i,
{
    assert(word_wf(nodes[i].state));
    assert(in_chain(nodes, i, i));
    if a != i {
        let p = nodes[i].parent->Some_0 as int;
        assert forall|b: int| #[trigger] in_chain(nodes, p, b) implies nodes[b].spec_admission()
            != Admission::Retired by {
            assert(in_chain(nodes, i, b));
        }
        closing_ancestor_makes_descendants_busy(nodes, p, a);
    }
}

/// A close that began on `a` makes `a` and its descendants busy, where none of
/// their ancestors was retired.
pub proof fn a_close_makes_descendants_busy(nodes: Seq<HandleActivity>, i: int, a: int)
    requires
        nodes_wf(nodes),
        0 <= i < nodes.len(),
        in_chain(nodes, i, a),
        forall|b: int| #[trigger]
            in_chain(nodes, i, b) ==> nodes[b].spec_admission() != Admission::Retired,
    ensures
        closed_by(closing_nodes(nodes, a), i) == Some(RegistryError::Busy),
{
    let closing = closing_nodes(nodes, a);
    lemma_in_chain_in_bounds(nodes, i, a);
    assert forall|b: int| #[trigger] in_chain(closing, i, b) implies closing[b].spec_admission()
        != Admission::Retired by {
        lemma_in_chain_same_parents(closing, nodes, i, b);
        lemma_in_chain_in_bounds(nodes, i, b);
    }
    lemma_in_chain_same_parents(closing, nodes, i, a);
    closing_ancestor_makes_descendants_busy(closing, i, a);
}

/// A descendant's call keeps every ancestor below the root from closing: with
/// it beside the closer's own call, the ancestor's word cannot be closed.
pub proof fn descendant_call_blocks_close(nodes: Seq<HandleActivity>, i: int, a: int)
    requires
        nodes_wf(nodes),
        0 <= i < nodes.len(),
        refused_by(nodes, i, i) is None,
        counts_on(nodes, i, a),
        nodes[a].spec_count() >= 1,
    ensures
        with_call(nodes, i)[a].state != spec_pack(Admission::Open, 1),
{
    release_call_undoes_reserve_call(nodes, i);
}

/// Calls on descendants never touch the root, so they do not keep it from
/// closing.
pub proof fn descendant_call_leaves_root_alone(nodes: Seq<HandleActivity>, i: int, root: int)
    requires
        nodes_wf(nodes),
        0 <= i < nodes.len(),
        0 <= root < i,
        nodes[root].parent is None,
    ensures
        with_call(nodes, i)[root] == nodes[root],
{
}

impl ActivityForest {
    /// Well-formedness of the forest.
    pub open spec fn wf(self) -> bool {
        nodes_wf(self.nodes@)
    }

    /// Whether `id` names an activity of this forest.
    pub open spec fn has(self, id: ActivityId) -> bool {
        id.index < self.nodes@.len()
    }

    /// The activity `id` names.
    pub open spec fn spec_at(self, id: ActivityId) -> HandleActivity {
        self.nodes@[id.index as int]
    }

    /// A forest without activities.
    pub fn new() -> (forest: Self)
        ensures
            forest.wf(),
            forest.nodes@.len() == 0,
    {
        ActivityForest { nodes: Vec::new() }
    }

    /// Adds an open, idle, unregistered activity under `parent`.
    pub fn add_activity(&mut self, parent: Option<ActivityId>) -> (id: ActivityId)
        requires
            old(self).wf(),
            parent matches Some(p) ==> old(self).has(p),
            old(self).nodes@.len() < usize::MAX,
        ensures
            final(self).wf(),
            id.index == old(self).nodes@.len(),
            final(self).nodes@ == old(self).nodes@.push(new_activity(parent)),
    {
        let index: usize = self.nodes.len();
        let above: Option<usize> = match parent {
            Some(p) => Some(p.index),
            None => None,
        };
        self.nodes.push(
            HandleActivity {
                parent: above,
                owner: None,
                registered: false,
                state: pack(Admission::Open, 0),
            },
        );
        ActivityId { index }
    }

    /// The activity `id` names.
    pub fn at(&self, id: ActivityId) -> (activity: HandleActivity)
        requires
            self.has(id),
        ensures
            activity == self.spec_at(id),
    {
        self.nodes[id.index]
    }

    /// The root of the tree `id` belongs to.
    pub fn root(&self, id: ActivityId) -> (root: ActivityId)
        requires
            self.wf(),
            self.has(id),
        ensures
            self.has(root),
            root.index == root_of(self.nodes@, id.index as int),
            self.spec_at(root).parent is None,
    {
        let mut current: usize = id.index;
        loop
            invariant
                self.wf(),
                current < self.nodes@.len(),
                root_of(self.nodes@, current as int) == root_of(self.nodes@, id.index as int),
            decreases current,
        {
            assert(word_wf(self.nodes@[current as int].state));
            match self.nodes[current].parent {
                Some(p) => {
                    current = p;
                },
                None => {
                    return ActivityId { index: current };
                },
            }
        }
    }

    /// Checks that `id` and all its ancestors admit calls.
    pub fn check_open(&self, id: ActivityId) -> (result: Result<(), RegistryError>)
        requires
            self.wf(),
            self.has(id),
        ensures
            match closed_by(self.nodes@, id.index as int) {
                None => result == Ok::<(), RegistryError>(()),
                Some(error) => result == Err::<(), RegistryError>(error),
            },
    {
        let mut current: usize = id.index;
        loop
            invariant
                self.wf(),
                current < self.nodes@.len(),
                closed_by(self.nodes@, current as int) == closed_by(self.nodes@, id.index as int),
            decreases current,
        {
            assert(word_wf(self.nodes@[current as int].state));
            let activity = self.nodes[current];
            match activity.admission() {
                Admission::Open => {},
                Admission::Closing => {
                    return Err(RegistryError::Busy);
                },
                Admission::Retired => {
                    return Err(RegistryError::NotFound);
                },
            }
            match activity.parent {
                Some(p) => {
                    current = p;
                },
                None => {
                    return Ok(());
                },
            }
        }
    }

    /// Whether `id` or one of its ancestors was retired.
    pub fn any_retired(&self, id: ActivityId) -> (retired: bool)
        requires
            self.wf(),
            self.has(id),
        ensures
            retired <==> exists|a: int|
                #[trigger] in_chain(self.nodes@, id.index as int, a)
                    && self.nodes@[a].spec_admission() == Admission::Retired,
    {
        let ghost i = id.index as int;
        let mut current: usize = id.index;
        proof {
            lemma_nothing_above(self.nodes@, i);
        }
        loop
            invariant
                self.wf(),
                i == id.index,
                current < self.nodes@.len(),
                forall|a: int|
                    a <= current ==> #[trigger] in_chain(self.nodes@, i, a) == in_chain(
                        self.nodes@,
                        current as int,
                        a,
                    ),
                forall|a: int|
                    a > current && #[trigger] in_chain(self.nodes@, i, a)
                        ==> self.nodes@[a].spec_admission() != Admission::Retired,
            decreases current,
        {
            let activity = self.nodes[current];
            assert(in_chain(self.nodes@, current as int, current as int));
            assert(in_chain(self.nodes@, i, current as int));
            if activity.admission() == Admission::Retired {
                return true;
            }
            match activity.parent {
                Some(p) => {
                    proof {
                        lemma_step_up(self.nodes@, i, current as int, p as int);
                    }
                    current = p;
                },
                None => {
                    assert forall|a: int| #[trigger]
                        in_chain(self.nodes@, i, a) implies self.nodes@[a].spec_admission()
                        != Admission::Retired by {
                        if a <= current {
                            assert(in_chain(self.nodes@, current as int, a));
                        }
                    }
                    return false;
                },
            }
        }
    }

    /// Counts one more call on `id` alone.
    pub fn reserve(&mut self, id: ActivityId) -> (result: Result<(), RegistryError>)
        requires
            old(self).wf(),
            old(self).has(id),
        ensures
            final(self).wf(),
            match word_refusal(old(self).spec_at(id).state) {
                None => {
                    &&& result == Ok::<(), RegistryError>(())
                    &&& final(self).nodes@ == old(self).nodes@.update(
                        id.index as int,
                        with_word(
                            old(self).spec_at(id),
                            (old(self).spec_at(id).state + 1) as usize,
                        ),
                    )
                },
                Some(error) => {
                    &&& result == Err::<(), RegistryError>(error)
                    &&& final(self).nodes@ == old(self).nodes@
                },
            },
    {
        let mut activity = self.nodes[id.index];
        assert(word_wf(self.nodes@[id.index as int].state));
        match reserve_word(activity.state) {
            Ok(word) => {
                activity.state = word;
                self.nodes.set(id.index, activity);
                Ok(())
            },
            Err(error) => Err(error),
        }
    }

    /// Ends one call on `id` alone.
    pub fn release(&mut self, id: ActivityId)
        requires
            old(self).wf(),
            old(self).has(id),
            old(self).spec_at(id).spec_count() > 0,
        ensures
            final(self).wf(),
            final(self).nodes@ == old(self).nodes@.update(
                id.index as int,
                with_word(old(self).spec_at(id), (old(self).spec_at(id).state - 1) as usize),
            ),
    {
        let mut activity = self.nodes[id.index];
        assert(word_wf(self.nodes@[id.index as int].state));
        activity.state = release_word(activity.state);
        self.nodes.set(id.index, activity);
    }

    /// Ends, for the activities a call on `id` counts on, one call each, going
    /// up from `id` and stopping before `end`.
    fn release_below(&mut self, id: ActivityId, end: Option<usize>)
        requires
            old(self).wf(),
            old(self).has(id),
            end matches Some(e) ==> in_chain(old(self).nodes@, id.index as int, e as int),
            forall|a: int|
                counts_on(old(self).nodes@, id.index as int, a) && (end matches Some(e) ==> a > e)
                    ==> (#[trigger] old(self).nodes@[a]).spec_count() > 0,
        ensures
            final(self).wf(),
            final(self).nodes@.len() == old(self).nodes@.len(),
            forall|a: int|
                0 <= a < old(self).nodes@.len() ==> #[trigger] final(self).nodes@[a] == (if counts_on(
                    old(self).nodes@,
                    id.index as int,
                    a,
                ) && (end matches Some(e) ==> a > e) {
                    with_word(old(self).nodes@[a], (old(self).nodes@[a].state - 1) as usize)
                } else {
                    old(self).nodes@[a]
                }),
    {
        let ghost before = self.nodes@;
        let ghost i = id.index as int;
        let mut current: usize = id.index;
        proof {
            lemma_nothing_above(before, i);
        }
        loop
            invariant
                i == id.index,
                before == old(self).nodes@,
                nodes_wf(before),
                self.wf(),
                0 <= current < before.len(),
                i < before.len(),
                end matches Some(e) ==> in_chain(before, i, e as int) && e <= current,
                forall|a: int|
                    a <= current ==> #[trigger] in_chain(before, i, a) == in_chain(
                        before,
                        current as int,
                        a,
                    ),
                forall|a: int|
                    counts_on(before, i, a) && (end matches Some(e) ==> a > e) ==> (
                    #[trigger] before[a]).spec_count() > 0,
                partly_called(before, self.nodes@, i, current as int, -1),
            ensures
                self.wf(),
                forall|a: int|
                    0 <= a <= current && counts_on(before, i, a) ==> (end matches Some(e) && a
                        <= e),
                end matches Some(e) ==> e <= current,
                end matches Some(e) ==> forall|a: int|
                    a > current && counts_on(before, i, a) ==> a > e,
                partly_called(before, self.nodes@, i, current as int, -1),
            decreases current,
        {
            assert(in_chain(before, current as int, current as int));
            assert(in_chain(before, i, current as int));
            if let Some(e) = end {
                if e == current {
                    break;
                }
            }
            assert(word_wf(before[current as int].state));
            assert(self.nodes@[current as int] == before[current as int]);
            let activity = self.nodes[current];
            match activity.parent {
                Some(p) => {
                    assert(counts_on(before, i, current as int));
                    self.release(ActivityId { index: current });
                    proof {
                        lemma_step_up(before, i, current as int, p as int);
                        if let Some(e) = end {
                            assert(in_chain(before, i, e as int));
                        }
                    }
                    current = p;
                },
                None => {
                    proof {
                        assert forall|a: int| a < current implies !#[trigger] in_chain(
                            before,
                            i,
                            a,
                        ) by {
                            assert(in_chain(before, i, a) == in_chain(before, current as int, a));
                        }
                    }
                    if current == id.index {
                        assert(counts_on(before, i, current as int));
                        self.release(ActivityId { index: current });
                    }
                    proof {
                        assert(end is None);
                        assert forall|a: int| 0 <= a < before.len() implies self.nodes@[a] == (
                        if counts_on(before, i, a) {
                            with_word(before[a], (before[a].state - 1) as usize)
                        } else {
                            before[a]
                        }) by {}
                    }
                    return ;
                },
            }
        }
    }

    /// Counts one more call on `id` and on its ancestors below the root, or on
    /// none of them when one refuses.
    pub fn reserve_call(&mut self, id: ActivityId) -> (result: Result<(), RegistryError>)
        requires
            old(self).wf(),
            old(self).has(id),
        ensures
            final(self).wf(),
            match refused_by(old(self).nodes@, id.index as int, id.index as int) {
                None => {
                    &&& result == Ok::<(), RegistryError>(())
                    &&& final(self).nodes@ == with_call(old(self).nodes@, id.index as int)
                },
                Some(error) => {
                    &&& result == Err::<(), RegistryError>(error)
                    &&& final(self).nodes@ == old(self).nodes@
                },
            },
    {
        let ghost before = self.nodes@;
        let ghost i = id.index as int;
        let mut current: usize = id.index;
        proof {
            lemma_nothing_above(before, i);
        }
        loop
            invariant
                i == id.index,
                before == old(self).nodes@,
                nodes_wf(before),
                self.wf(),
                0 <= current < before.len(),
                i < before.len(),
                forall|a: int|
                    a <= current ==> #[trigger] in_chain(before, i, a) == in_chain(
                        before,
                        current as int,
                        a,
                    ),
                refused_by(before, i, current as int) == refused_by(before, i, i),
                forall|a: int|
                    a > current && counts_on(before, i, a) ==> word_refusal(
                        (#[trigger] before[a]).state,
                    ) is None,
                partly_called(before, self.nodes@, i, current as int, 1),
            decreases current,
        {
            assert(word_wf(before[current as int].state));
            assert(in_chain(before, current as int, current as int));
            assert(in_chain(before, i, current as int));
            assert(self.nodes@[current as int] == before[current as int]);
            let activity = self.nodes[current];
            let is_root: bool = activity.parent.is_none();
            if is_root {
                proof {
                    assert forall|a: int| a < current implies !#[trigger] in_chain(
                        before,
                        i,
                        a,
                    ) by {
                        assert(in_chain(before, i, a) == in_chain(before, current as int, a));
                    }
                }
            }
            if current != id.index && is_root {
                assert(self.nodes@ =~= with_call(before, i));
                return Ok(());
            }
            assert(counts_on(before, i, current as int));
            match self.reserve(ActivityId { index: current }) {
                Ok(()) => {},
                Err(error) => {
                    proof {
                        assert forall|a: int|
                            counts_on(self.nodes@, i, a) && a > current implies (
                        #[trigger] self.nodes@[a]).spec_count() > 0 by {
                            lemma_in_chain_in_bounds(self.nodes@, i, a);
                            lemma_in_chain_same_parents(before, self.nodes@, i, a);
                            assert(word_refusal(before[a].state) is None);
                        }
                        lemma_in_chain_same_parents(before, self.nodes@, i, current as int);
                    }
                    let ghost middle = self.nodes@;
                    self.release_below(id, Some(current));
                    proof {
                        assert forall|a: int| 0 <= a < before.len() implies self.nodes@[a]
                            == before[a] by {
                            lemma_in_chain_same_parents(before, middle, i, a);
                            assert(word_wf(before[a].state));
                            if counts_on(before, i, a) && a > current {
                                assert(middle[a].parent == before[a].parent);
                                assert(word_refusal(before[a].state) is None);
                            }
                        }
                        assert(self.nodes@ =~= before);
                    }
                    return Err(error);
                },
            }
            match activity.parent {
                Some(p) => {
                    proof {
                        lemma_step_up(before, i, current as int, p as int);
                    }
                    current = p;
                },
                None => {
                    assert(self.nodes@ =~= with_call(before, i));
                    return Ok(());
                },
            }
        }
    }

    /// Ends one call on `id` and on its ancestors below the root.
    pub fn release_call(&mut self, id: ActivityId)
        requires
            old(self).wf(),
            old(self).has(id),
            call_in_flight(old(self).nodes@, id.index as int),
        ensures
            final(self).wf(),
            final(self).nodes@ == without_call(old(self).nodes@, id.index as int),
    {
        let ghost before = self.nodes@;
        self.release_below(id, None);
        assert(self.nodes@ =~= without_call(before, id.index as int));
    }

    /// Gives `id` another word.
    fn set_word(&mut self, id: ActivityId, word: usize)
        requires
            old(self).wf(),
            old(self).has(id),
            word_wf(word),
        ensures
            final(self).wf(),
            final(self).nodes@ == old(self).nodes@.update(
                id.index as int,
                with_word(old(self).spec_at(id), word),
            ),
    {
        let mut activity = self.nodes[id.index];
        assert(word_wf(self.nodes@[id.index as int].state));
        activity.state = word;
        self.nodes.set(id.index, activity);
    }

    /// Refuses all further calls on `id` for good.
    pub fn retire(&mut self, id: ActivityId)
        requires
            old(self).wf(),
            old(self).has(id),
        ensures
            final(self).wf(),
            final(self).nodes@ == retired_nodes(old(self).nodes@, id.index as int),
    {
        assert(word_wf(self.nodes@[id.index as int].state));
        let word: usize = retire_word(self.nodes[id.index].state);
        self.set_word(id, word);
    }

    /// Starts a close of `id` on behalf of its one call.
    pub fn start_close(&mut self, id: ActivityId) -> (result: Result<(), RegistryError>)
        requires
            old(self).wf(),
            old(self).has(id),
        ensures
            final(self).wf(),
            match result {
                Ok(()) => {
                    &&& old(self).spec_at(id).state == spec_pack(Admission::Open, 1)
                    &&& final(self).nodes@ == closing_nodes(old(self).nodes@, id.index as int)
                },
                Err(error) => {
                    &&& old(self).spec_at(id).state != spec_pack(Admission::Open, 1)
                    &&& close_refusal(old(self).spec_at(id).state) == Some(error)
                    &&& final(self).nodes@ == old(self).nodes@
                },
            },
            result is Ok <==> close_refusal(old(self).spec_at(id).state) is None,
    {
        assert(word_wf(self.nodes@[id.index as int].state));
        match close_word(self.nodes[id.index].state) {
            Ok(word) => {
                self.set_word(id, word);
                Ok(())
            },
            Err(error) => Err(error),
        }
    }

    /// Ends a close of `id`; a retired activity stays retired.
    pub fn reopen(&mut self, id: ActivityId)
        requires
            old(self).wf(),
            old(self).has(id),
        ensures
            final(self).wf(),
            final(self).nodes@ == reopened_nodes(old(self).nodes@, id.index as int),
    {
        assert(word_wf(self.nodes@[id.index as int].state));
        let word: usize = reopen_word(self.nodes[id.index].state);
        self.set_word(id, word);
        assert(self.nodes@ =~= reopened_nodes(old(self).nodes@, id.index as int));
    }

    /// Replaces the count of calls on `id`, keeping its admission.
    pub fn set_count(&mut self, id: ActivityId, count: usize)
        requires
            old(self).wf(),
            old(self).has(id),
            count <= spec_activity_max(),
        ensures
            final(self).wf(),
            final(self).nodes@ == old(self).nodes@.update(
                id.index as int,
                with_word(
                    old(self).spec_at(id),
                    spec_pack(old(self).spec_at(id).spec_admission(), count),
                ),
            ),
    {
        let admission = self.nodes[id.index].admission();
        let word: usize = pack(admission, count);
        self.set_word(id, word);
    }

    /// Binds the tree of `id`, whose root is `root`, to the registry `owner`
    /// and marks `id` as registered.
    pub fn claim(&mut self, id: ActivityId, root: ActivityId, owner: u64)
        requires
            old(self).wf(),
            old(self).has(id),
            old(self).has(root),
        ensures
            final(self).wf(),
            final(self).nodes@ == claimed_nodes(
                old(self).nodes@,
                id.index as int,
                root.index as int,
                owner,
            ),
    {
        let mut top = self.nodes[root.index];
        assert(word_wf(self.nodes@[root.index as int].state));
        top.owner = Some(owner);
        self.nodes.set(root.index, top);
        let mut activity = self.nodes[id.index];
        assert(word_wf(self.nodes@[id.index as int].state));
        activity.registered = true;
        self.nodes.set(id.index, activity);
    }
}

/// A word holds an admission state and a count, each read back as it was written:
/// two different ones never share a word. A quarter of the words is one state's.
pub proof fn words_hold_what_was_packed(
    admission: Admission,
    count: usize,
    other: Admission,
    other_count: usize,
)
    requires
        count <= usize::MAX / 4,
        other_count <= usize::MAX / 4,
    ensures
        word_wf(spec_pack(admission, count)),
        spec_word_admission(spec_pack(admission, count)) == admission,
        spec_word_count(spec_pack(admission, count)) == count,
        spec_pack(admission, count) == spec_pack(other, other_count) <==> admission == other
            && count == other_count,
        spec_pack(Admission::Open, count) == count,
        spec_activity_max() == usize::MAX / 4,
{
}

/// An open handle admits calls until its count is full; one that closes is busy, and
/// one that was retired is gone, whatever they count.
pub proof fn only_an_open_handle_admits_calls(count: usize)
    requires
        count <= usize::MAX / 4,
    ensures
        count < usize::MAX / 4 ==> word_refusal(spec_pack(Admission::Open, count)) is None,
        count == usize::MAX / 4 ==> word_refusal(spec_pack(Admission::Open, count)) == Some(
            RegistryError::ActivityOverflow,
        ),
        word_refusal(spec_pack(Admission::Closing, count)) == Some(RegistryError::Busy),
        word_refusal(spec_pack(Admission::Retired, count)) == Some(RegistryError::NotFound),
{
}

/// A call counts one on its handle, and beside that on what a call on the parent would
/// count on, unless the parent is the root.
pub proof fn a_call_counts_up_to_below_the_root(nodes: Seq<HandleActivity>, i: int)
    requires
        nodes_wf(nodes),
        0 <= i < nodes.len(),
    ensures
        ({
            let counted = with_word(nodes[i], (nodes[i].state + 1) as usize);
            match nodes[i].parent {
                Some(p) => if nodes[p as int].parent is Some {
                    with_call(nodes, i) == with_call(nodes, p as int).update(i, counted)
                } else {
                    with_call(nodes, i) == nodes.update(i, counted)
                },
                None => with_call(nodes, i) == nodes.update(i, counted),
            }
        }),
        ({
            let ended = with_word(nodes[i], (nodes[i].state - 1) as usize);
            match nodes[i].parent {
                Some(p) => if nodes[p as int].parent is Some {
                    without_call(nodes, i) == without_call(nodes, p as int).update(i, ended)
                } else {
                    without_call(nodes, i) == nodes.update(i, ended)
                },
                None => without_call(nodes, i) == nodes.update(i, ended),
            }
        }),
{
    assert(word_wf(nodes[i].state));
    match nodes[i].parent {
        Some(p) => {
            let p = p as int;
            assert(word_wf(nodes[p].state));
            lemma_nothing_above(nodes, p);
            assert forall|a: int| #[trigger] counts_on(nodes, i, a) implies a == i
                || nodes[p].parent is Some && counts_on(nodes, p, a) by {
                if a != i {
                    assert(in_chain(nodes, p, a));
                }
            }
            assert forall|a: int| nodes[p].parent is Some && #[trigger] counts_on(
                nodes,
                p,
                a,
            ) implies counts_on(nodes, i, a) by {
                assert(in_chain(nodes, p, a));
            }
            if nodes[p].parent is Some {
                assert(with_call(nodes, i) =~= with_call(nodes, p).update(
                    i,
                    with_word(nodes[i], (nodes[i].state + 1) as usize),
                ));
                assert(without_call(nodes, i) =~= without_call(nodes, p).update(
                    i,
                    with_word(nodes[i], (nodes[i].state - 1) as usize),
                ));
            } else {
                assert(with_call(nodes, i) =~= nodes.update(
                    i,
                    with_word(nodes[i], (nodes[i].state + 1) as usize),
                ));
                assert(without_call(nodes, i) =~= nodes.update(
                    i,
                    with_word(nodes[i], (nodes[i].state - 1) as usize),
                ));
            }
        },
        None => {
            assert(with_call(nodes, i) =~= nodes.update(
                i,
                with_word(nodes[i], (nodes[i].state + 1) as usize),
            ));
            assert(without_call(nodes, i) =~= nodes.update(
                i,
                with_word(nodes[i], (nodes[i].state - 1) as usize),
            ));
        },
    }
}

/// Whether a call is refused above a parent does not depend on where it came from.
proof fn lemma_refused_from_anywhere(nodes: Seq<HandleActivity>, a: int, b: int, i: int)
    requires
        nodes_wf(nodes),
        0 <= i < nodes.len(),
        nodes[i].parent is Some,
        i <= a,
        i <= b,
    ensures
        refused_by(nodes, a, i) == refused_by(nodes, b, i),
    decreases i,
{
    assert(word_wf(nodes[i].state));
    let p = nodes[i].parent->Some_0 as int;
    if nodes[p].parent is Some {
        lemma_refused_from_anywhere(nodes, a, b, p);
    }
}

/// A call is refused for what its own handle refuses; where that admits it, for what a
/// call on the parent is refused for, unless the parent is the root, which is not
/// asked.
pub proof fn a_call_is_refused_by_the_nearest(nodes: Seq<HandleActivity>, i: int)
    requires
        nodes_wf(nodes),
        0 <= i < nodes.len(),
    ensures
        word_refusal(nodes[i].state) is Some ==> refused_by(nodes, i, i) == word_refusal(
            nodes[i].state,
        ),
        word_refusal(nodes[i].state) is None ==> refused_by(nodes, i, i) == (match nodes[i].parent {
            Some(p) => if nodes[p as int].parent is Some {
                refused_by(nodes, p as int, p as int)
            } else {
                None
            },
            None => None,
        }),
{
    assert(word_wf(nodes[i].state));
    if let Some(p) = nodes[i].parent {
        if nodes[p as int].parent is Some {
            lemma_refused_from_anywhere(nodes, i, p as int, p as int);
        }
    }
}

/// A handle is closed to calls exactly where it or an ancestor is not open: the root
/// is asked too.
pub proof fn an_open_chain_is_not_closed(nodes: Seq<HandleActivity>, i: int)
    requires
        nodes_wf(nodes),
        0 <= i < nodes.len(),
    ensures
        nodes[i].spec_admission() == Admission::Closing ==> closed_by(nodes, i) == Some(
            RegistryError::Busy,
        ),
        nodes[i].spec_admission() == Admission::Retired ==> closed_by(nodes, i) == Some(
            RegistryError::NotFound,
        ),
        nodes[i].spec_admission() == Admission::Open ==> closed_by(nodes, i) == (
        match nodes[i].parent {
            Some(p) => closed_by(nodes, p as int),
            None => None,
        }),
        (forall|a: int| #[trigger]
            in_chain(nodes, i, a) ==> nodes[a].spec_admission() == Admission::Open) ==> closed_by(
            nodes,
            i,
        ) is None,
    decreases i,
{
    assert(word_wf(nodes[i].state));
    assert(in_chain(nodes, i, i));
    if let Some(p) = nodes[i].parent {
        an_open_chain_is_not_closed(nodes, p as int);
        assert forall|a: int| #[trigger] in_chain(nodes, p as int, a) implies in_chain(
            nodes,
            i,
            a,
        ) by {}
    }
}

/// A chain ends at a root, which has no parent and stands above every activity of the
/// chain.
pub proof fn a_chain_ends_at_its_root(nodes: Seq<HandleActivity>, i: int)
    requires
        nodes_wf(nodes),
        0 <= i < nodes.len(),
    ensures
        0 <= root_of(nodes, i) <= i,
        nodes[root_of(nodes, i)].parent is None,
        in_chain(nodes, i, root_of(nodes, i)),
        nodes[i].parent matches Some(p) ==> root_of(nodes, i) == root_of(nodes, p as int),
        nodes[i].parent is None ==> root_of(nodes, i) == i,
        nodes[i].parent matches Some(p) ==> in_chain(nodes, i, p as int),
    decreases i,
{
    assert(word_wf(nodes[i].state));
    if let Some(p) = nodes[i].parent {
        a_chain_ends_at_its_root(nodes, p as int);
        assert(in_chain(nodes, p as int, p as int));
    }
}

/// Closing, reopening and retiring touch one activity: its calls stay counted, its
/// place in the forest stays, and every other activity is as it was.
pub proof fn closing_and_retiring_touch_one_activity(nodes: Seq<HandleActivity>, i: int, other: int)
    requires
        nodes_wf(nodes),
        0 <= i < nodes.len(),
        0 <= other < nodes.len(),
    ensures
        retired_nodes(nodes, i)[i].spec_admission() == Admission::Retired,
        retired_nodes(nodes, i)[i].spec_count() == nodes[i].spec_count(),
        closing_nodes(nodes, i)[i].spec_admission() == Admission::Closing,
        closing_nodes(nodes, i)[i].spec_count() == 1,
        nodes[i].spec_admission() == Admission::Closing ==> reopened_nodes(
            nodes,
            i,
        )[i].spec_admission() == Admission::Open && reopened_nodes(nodes, i)[i].spec_count()
            == nodes[i].spec_count(),
        nodes[i].spec_admission() != Admission::Closing ==> reopened_nodes(nodes, i) == nodes,
        retired_nodes(nodes, i)[i].parent == nodes[i].parent,
        closing_nodes(nodes, i)[i].parent == nodes[i].parent,
        reopened_nodes(nodes, i)[i].parent == nodes[i].parent,
        retired_nodes(nodes, i)[i].owner == nodes[i].owner,
        closing_nodes(nodes, i)[i].owner == nodes[i].owner,
        reopened_nodes(nodes, i)[i].owner == nodes[i].owner,
        retired_nodes(nodes, i)[i].registered == nodes[i].registered,
        other != i ==> retired_nodes(nodes, i)[other] == nodes[other] && closing_nodes(
            nodes,
            i,
        )[other] == nodes[other] && reopened_nodes(nodes, i)[other] == nodes[other],
        nodes_wf(retired_nodes(nodes, i)),
        nodes_wf(closing_nodes(nodes, i)),
        nodes_wf(reopened_nodes(nodes, i)),
{
    assert(word_wf(nodes[i].state));
}

/// Binding a tree names its owner at the root and marks the one activity as
/// registered; no word and no parent changes.
pub proof fn claiming_names_the_owner(
    nodes: Seq<HandleActivity>,
    i: int,
    root: int,
    owner: u64,
    other: int,
)
    requires
        0 <= i < nodes.len(),
        0 <= root < nodes.len(),
        0 <= other < nodes.len(),
    ensures
        claimed_nodes(nodes, i, root, owner)[root].owner == Some(owner),
        claimed_nodes(nodes, i, root, owner)[i].registered,
        claimed_nodes(nodes, i, root, owner)[other].state == nodes[other].state,
        claimed_nodes(nodes, i, root, owner)[other].parent == nodes[other].parent,
        other != root ==> claimed_nodes(nodes, i, root, owner)[other].owner == nodes[other].owner,
        other != i ==> claimed_nodes(nodes, i, root, owner)[other].registered
            == nodes[other].registered,
        claimed_nodes(nodes, i, root, owner).len() == nodes.len(),
{
}

/// A new activity is open and idle, under its parent, and of no registry.
pub proof fn a_new_activity_is_open_and_idle(parent: Option<ActivityId>)
    ensures
        new_activity(parent).spec_admission() == Admission::Open,
        new_activity(parent).spec_count() == 0,
        !new_activity(parent).registered,
        new_activity(parent).owner is None,
        parent matches Some(p) ==> new_activity(parent).parent == Some(p.index),
        parent is None ==> new_activity(parent).parent is None,
{
}

/// A close begins on an open handle with one call, its own. Any other count, or a close
/// that goes on, makes the handle busy; one that was retired is gone.
pub proof fn a_close_begins_with_its_own_call_only(count: usize)
    requires
        count <= usize::MAX / 4,
    ensures
        close_refusal(spec_pack(Admission::Open, 1)) is None,
        count != 1 ==> close_refusal(spec_pack(Admission::Open, count)) == Some(
            RegistryError::Busy,
        ),
        close_refusal(spec_pack(Admission::Closing, count)) == Some(RegistryError::Busy),
        close_refusal(spec_pack(Admission::Retired, count)) == Some(RegistryError::NotFound),
{
}

} // verus!
