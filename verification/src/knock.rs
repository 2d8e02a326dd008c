//! The knock matcher: classification of an observed set of (protocol, port)
//! pairs against the secret target set.

use vstd::prelude::*;

verus! {

/// Transport protocol of a recorded connection attempt.
#[derive(Clone, Copy, Debug, Hash, PartialEq, Eq, Structural)]
pub enum InetProto {
    Tcp,
    Udp,
    Icmp,
}

/// A list of (protocol, port) pairs.  Matching treats it as a set: order and
/// multiplicity never matter.
#[derive(Debug)]
pub struct Conns(pub Vec<(InetProto, u16)>);

/// Result of classifying an observed set against the target set.
#[derive(Clone, Copy, Debug, PartialEq, Eq, Structural)]
pub enum Outcome {
    /// The observed set equals the target set: grant access.
    Matched,
    /// The observed set contains a pair outside the target set: the source
    /// can never match any more and is permanently denied.
    Impossible,
    /// The observed set is a proper subset of the target set: keep waiting.
    Pending,
}

impl View for Conns {
    type V = Seq<(InetProto, u16)>;

    open spec fn view(&self) -> Seq<(InetProto, u16)> {
        self.0@
    }
}

impl Conns {
    /// The set of distinct knocks in this list.
    pub open spec fn knock_set(&self) -> Set<(InetProto, u16)> {
        self@.to_set()
    }
}

/// What `classify` returns: `Impossible` as soon as one observed pair lies
/// outside the target, `Matched` when the two sets are equal, `Pending` on a
/// proper subset (including the empty observed set when the target is not
/// empty).
pub open spec fn spec_classify(
    observed: Set<(InetProto, u16)>,
    target: Set<(InetProto, u16)>,
) -> Outcome {
    if !observed.subset_of(target) {
        Outcome::Impossible
    } else if target.subset_of(observed) {
        Outcome::Matched
    } else {
        Outcome::Pending
    }
}

/// Does the list hold the given pair?
fn list_contains(list: &Vec<(InetProto, u16)>, x: (InetProto, u16)) -> (r: bool)
    ensures
        r == list@.to_set().contains(x),
{
    let mut i: usize = 0;
    while i < list.len()
        invariant
            0 <= i <= list@.len(),
            forall|j: int| 0 <= j < i ==> list@[j] != x,
        decreases list@.len() - i,
    {
        if list[i].0 == x.0 && list[i].1 == x.1 {
            assert(list@.contains(x));
            return true;
        }
        i += 1;
    }
    assert(!list@.contains(x));
    false
}

/// Is every pair of `inner` also a pair of `outer`?
fn set_within(inner: &Conns, outer: &Conns) -> (r: bool)
    ensures
        r == inner.knock_set().subset_of(outer.knock_set()),
{
    let mut i: usize = 0;
    while i < inner.0.len()
        invariant
            0 <= i <= inner@.len(),
            forall|j: int| 0 <= j < i ==> outer.knock_set().contains(#[trigger] inner@[j]),
        decreases inner@.len() - i,
    {
        let x = (inner.0[i].0, inner.0[i].1);
        assert(x == inner@[i as int]);
        if !list_contains(&outer.0, x) {
            assert(inner.knock_set().contains(x)) by {
                assert(inner@.contains(x));
            }
            return false;
        }
        i += 1;
    }
    assert forall|p: (InetProto, u16)| inner.knock_set().contains(p) implies outer.knock_set().contains(
        p,
    ) by {
        let j = choose|j: int| 0 <= j < inner@.len() && inner@[j] == p;
        assert(outer.knock_set().contains(inner@[j]));
    };
    true
}

/// Classify an observed set of knocks against the target set.
///
/// Pure: the result is a function of the two sets of distinct pairs alone,
/// so duplicates and order in either list never matter, and identical inputs
/// always yield identical outputs.
pub fn classify(observed: &Conns, target: &Conns) -> (r: Outcome)
    ensures
        r == spec_classify(observed.knock_set(), target.knock_set()),
{
    if !set_within(observed, target) {
        Outcome::Impossible
    } else if set_within(target, observed) {
        Outcome::Matched
    } else {
        Outcome::Pending
    }
}

/// With a non-empty target, the classification is `Matched` exactly when the
/// observed set equals the target set.
pub proof fn lemma_matched_iff_equal(
    observed: Set<(InetProto, u16)>,
    target: Set<(InetProto, u16)>,
)
    requires
        !target.is_empty(),
    ensures
        spec_classify(observed, target) == Outcome::Matched <==> observed == target,
{
    if spec_classify(observed, target) == Outcome::Matched {
        assert(observed =~= target);
    }
}

/// Every proper subset of the target, the empty set included, is `Pending`.
pub proof fn lemma_proper_subset_pending(
    observed: Set<(InetProto, u16)>,
    target: Set<(InetProto, u16)>,
)
    requires
        observed.subset_of(target),
        observed != target,
    ensures
        spec_classify(observed, target) == Outcome::Pending,
{
    if target.subset_of(observed) {
        assert(observed =~= target);
    }
}

/// One pair outside the target makes the set `Impossible`, whatever else it
/// holds.
pub proof fn lemma_stray_pair_impossible(
    observed: Set<(InetProto, u16)>,
    target: Set<(InetProto, u16)>,
    stray: (InetProto, u16),
)
    requires
        observed.contains(stray),
        !target.contains(stray),
    ensures
        spec_classify(observed, target) == Outcome::Impossible,
{
}

} // verus!
