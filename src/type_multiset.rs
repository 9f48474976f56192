//! Bags of value kinds: how many values of each kind are on offer or wanted.
use vstd::prelude::*;
use vstd::seq_lib::{group_to_multiset_ensures, lemma_multiset_commutative};
use vstd::multiset::{Multiset, lemma_update_same, lemma_update_different};
use crate::atom::AtomKind;

verus! {

broadcast use {lemma_update_same, lemma_update_different, group_to_multiset_ensures};

/// A count per value kind. Counts are small; a kind never entered counts zero.
pub struct TypeMultiset {
    entries: Vec<(AtomKind, u8)>,
}

/// The bag that a list of entries stands for: a later entry for a kind
/// overrides an earlier one, as a map insertion would.
pub open spec fn bag_of(s: Seq<(AtomKind, u8)>) -> Multiset<AtomKind>
    decreases s.len(),
{
    if s.len() == 0 {
        Multiset::empty()
    } else {
        bag_of(s.drop_last()).update(s.last().0, s.last().1 as nat)
    }
}

/// Whether some entry of `s` is for kind `k`.
pub open spec fn has_entry(s: Seq<(AtomKind, u8)>, k: AtomKind) -> bool {
    exists|j: int| 0 <= j < s.len() && s[j].0 == k
}

/// A kind with no entry counts zero.
proof fn lemma_no_entry_zero(s: Seq<(AtomKind, u8)>, k: AtomKind)
    requires
        !has_entry(s, k),
    ensures
        bag_of(s).count(k) == 0,
    decreases s.len(),
{
    broadcast use vstd::multiset::group_multiset_axioms;
    if s.len() > 0 {
        assert(!has_entry(s.drop_last(), k)) by {
            if has_entry(s.drop_last(), k) {
                let j = choose|j: int| 0 <= j < s.drop_last().len() && s.drop_last()[j].0 == k;
                assert(s[j].0 == k);
            }
        }
        lemma_no_entry_zero(s.drop_last(), k);
    }
}

impl View for TypeMultiset {
    type V = Multiset<AtomKind>;

    closed spec fn view(&self) -> Multiset<AtomKind> {
        bag_of(self.entries@)
    }
}

/// Whether every count of the bag is zero.
pub open spec fn is_balanced_bag(m: Multiset<AtomKind>) -> bool {
    forall|k: AtomKind| m.count(k) == 0
}

impl TypeMultiset {
    /// The empty bag.
    pub fn new() -> (r: TypeMultiset)
        ensures
            r@ == Multiset::<AtomKind>::empty(),
    {
        let r = TypeMultiset { entries: Vec::new() };
        proof {
            assert(r.entries@.len() == 0);
        }
        r
    }

    /// The count of kind `k`.
    pub fn get(&self, k: AtomKind) -> (r: u8)
        ensures
            r as nat == self@.count(k),
    {
        let mut i: usize = self.entries.len();
        proof {
            assert(self.entries@.subrange(0, i as int) =~= self.entries@);
        }
        while i > 0
            invariant
                i <= self.entries@.len(),
                bag_of(self.entries@.subrange(0, i as int)).count(k) == self@.count(k),
            decreases i,
        {
            let ghost s = self.entries@.subrange(0, i as int);
            assert(s.drop_last() =~= self.entries@.subrange(0, i - 1));
            if self.entries[i - 1].0 == k {
                return self.entries[i - 1].1;
            }
            i = i - 1;
        }
        proof {
            assert(!has_entry(self.entries@.subrange(0, 0), k));
            lemma_no_entry_zero(self.entries@.subrange(0, 0), k);
        }
        0
    }

    /// Sets the count of kind `k` to `count`.
    pub fn insert(&mut self, k: AtomKind, count: u8)
        ensures
            final(self)@ == old(self)@.update(k, count as nat),
    {
        self.entries.push((k, count));
        proof {
            assert(self.entries@.drop_last() =~= old(self).entries@);
        }
    }

    /// Whether every count is zero.
    pub fn is_balanced(&self) -> (r: bool)
        ensures
            r == is_balanced_bag(self@),
    {
        let mut i: usize = 0;
        while i < self.entries.len()
            invariant
                i <= self.entries@.len(),
                forall|j: int| 0 <= j < i ==> self@.count(#[trigger] self.entries@[j].0) == 0,
            decreases self.entries@.len() - i,
        {
            if self.get(self.entries[i].0) != 0 {
                return false;
            }
            i = i + 1;
        }
        proof {
            assert forall|k: AtomKind| self@.count(k) == 0 by {
                if !has_entry(self.entries@, k) {
                    lemma_no_entry_zero(self.entries@, k);
                }
            }
        }
        true
    }
}

/// Whether `haystack` holds at least as many values of each kind as `needle`.
pub fn contains(haystack: &TypeMultiset, needle: &TypeMultiset) -> (r: bool)
    ensures
        r == needle@.subset_of(haystack@),
{
    let mut i: usize = 0;
    while i < needle.entries.len()
        invariant
            i <= needle.entries@.len(),
            forall|j: int|
                0 <= j < i ==> needle@.count(#[trigger] needle.entries@[j].0) <= haystack@.count(
                    needle.entries@[j].0,
                ),
        decreases needle.entries@.len() - i,
    {
        let k = needle.entries[i].0;
        if needle.get(k) > haystack.get(k) {
            return false;
        }
        i = i + 1;
    }
    proof {
        assert forall|k: AtomKind| needle@.count(k) <= haystack@.count(k) by {
            if !has_entry(needle.entries@, k) {
                lemma_no_entry_zero(needle.entries@, k);
            }
        }
    }
    true
}

/// The bag of the kinds in `types`, each counted as often as it occurs.
pub fn type_set(types: Vec<AtomKind>) -> (r: TypeMultiset)
    requires
        forall|k: AtomKind| types@.to_multiset().count(k) <= u8::MAX,
    ensures
        r@ == types@.to_multiset(),
{
    let mut counts = TypeMultiset::new();
    let mut i: usize = 0;
    proof {
        assert(types@.subrange(0, 0) =~= Seq::<AtomKind>::empty());
        assert(counts@ =~= types@.subrange(0, 0).to_multiset());
    }
    while i < types.len()
        invariant
            i <= types@.len(),
            counts@ == types@.subrange(0, i as int).to_multiset(),
            forall|k: AtomKind| types@.to_multiset().count(k) <= u8::MAX,
        decreases types@.len() - i,
    {
        let k = types[i];
        let ghost before = types@.subrange(0, i as int);
        let ghost after = types@.subrange(0, i + 1);
        proof {
            assert(after =~= before.push(k));
            assert(types@ =~= after + types@.subrange(i + 1, types@.len() as int));
            lemma_multiset_commutative(after, types@.subrange(i + 1, types@.len() as int));
            assert(after.to_multiset().count(k) == before.to_multiset().count(k) + 1);
            assert(after.to_multiset().count(k) <= types@.to_multiset().count(k));
        }
        let c = counts.get(k);
        counts.insert(k, c + 1);
        i = i + 1;
        proof {
            assert(counts@ =~= after.to_multiset());
        }
    }
    proof {
        assert(types@.subrange(0, i as int) =~= types@);
    }
    counts
}

impl TypeMultiset {
    /// Sets, for each kind that `keys` names, the count that `avail` has left
    /// after giving up `needs` and taking in `gives`.
    fn settle_keys(
        &mut self,
        keys: &Vec<(AtomKind, u8)>,
        avail: &TypeMultiset,
        needs: &TypeMultiset,
        gives: &TypeMultiset,
    )
        requires
            needs@.subset_of(avail@),
            forall|k: AtomKind| avail@.count(k) - needs@.count(k) + gives@.count(k) <= u8::MAX,
        ensures
            forall|k: AtomKind|
                #[trigger] final(self)@.count(k) == if has_entry(keys@, k) {
                    avail@.sub(needs@).add(gives@).count(k)
                } else {
                    old(self)@.count(k)
                },
    {
        broadcast use vstd::multiset::group_multiset_axioms;
        let mut i: usize = 0;
        while i < keys.len()
            invariant
                i <= keys@.len(),
                needs@.subset_of(avail@),
                forall|k: AtomKind| avail@.count(k) - needs@.count(k) + gives@.count(k) <= u8::MAX,
                forall|k: AtomKind|
                    #[trigger] self@.count(k) == if has_entry(keys@.subrange(0, i as int), k) {
                        avail@.sub(needs@).add(gives@).count(k)
                    } else {
                        old(self)@.count(k)
                    },
            decreases keys@.len() - i,
        {
            let k = keys[i].0;
            let c = avail.get(k) - needs.get(k) + gives.get(k);
            self.insert(k, c);
            i = i + 1;
            proof {
                let prev = keys@.subrange(0, i - 1);
                let cur = keys@.subrange(0, i as int);
                assert forall|k2: AtomKind|
                    has_entry(cur, k2) <==> (has_entry(prev, k2) || k2 == k) by {
                    if has_entry(cur, k2) && k2 != k {
                        let j = choose|j: int| 0 <= j < cur.len() && #[trigger] cur[j].0 == k2;
                        assert(prev[j].0 == k2);
                    }
                    if k2 == k {
                        assert(cur[i - 1].0 == k2);
                    }
                    if has_entry(prev, k2) {
                        let j = choose|j: int| 0 <= j < prev.len() && #[trigger] prev[j].0 == k2;
                        assert(cur[j].0 == k2);
                    }
                }
            }
        }
        proof {
            assert(keys@.subrange(0, i as int) =~= keys@);
        }
    }

    /// The bag left after giving up `needs` and taking in `gives`.
    pub fn exchange(&self, needs: &TypeMultiset, gives: &TypeMultiset) -> (r: TypeMultiset)
        requires
            needs@.subset_of(self@),
            forall|k: AtomKind| self@.count(k) - needs@.count(k) + gives@.count(k) <= u8::MAX,
        ensures
            r@ == self@.sub(needs@).add(gives@),
    {
        broadcast use vstd::multiset::group_multiset_axioms;
        let mut r = TypeMultiset::new();
        r.settle_keys(&self.entries, self, needs, gives);
        r.settle_keys(&needs.entries, self, needs, gives);
        r.settle_keys(&gives.entries, self, needs, gives);
        proof {
            assert forall|k: AtomKind| r@.count(k) == self@.sub(needs@).add(gives@).count(k) by {
                if !has_entry(self.entries@, k) && !has_entry(needs.entries@, k) && !has_entry(
                    gives.entries@,
                    k,
                ) {
                    lemma_no_entry_zero(self.entries@, k);
                    lemma_no_entry_zero(needs.entries@, k);
                    lemma_no_entry_zero(gives.entries@, k);
                }
            }
            assert(r@ =~= self@.sub(needs@).add(gives@));
        }
        r
    }
}

/// Every bag contains itself.
pub proof fn lemma_contains_itself(s: TypeMultiset)
    ensures
        s@.subset_of(s@),
{
}

/// Every bag contains the empty bag.
pub proof fn lemma_contains_empty(s: TypeMultiset)
    ensures
        Multiset::<AtomKind>::empty().subset_of(s@),
{
    broadcast use vstd::multiset::group_multiset_axioms;
}

/// The empty bag contains no bag that holds a value.
pub proof fn lemma_empty_contains_nothing(needle: TypeMultiset, k: AtomKind)
    requires
        needle@.count(k) > 0,
    ensures
        !needle@.subset_of(Multiset::<AtomKind>::empty()),
{
    broadcast use vstd::multiset::group_multiset_axioms;
}

/// A bag of `a` values of one kind contains a bag of `b` values of that kind
/// exactly when `b <= a`.
pub proof fn lemma_contains_one_kind(k: AtomKind, a: nat, b: nat)
    ensures
        Multiset::<AtomKind>::empty().update(k, b).subset_of(Multiset::empty().update(k, a))
            <==> b <= a,
{
    broadcast use vstd::multiset::group_multiset_axioms;
    let big = Multiset::<AtomKind>::empty().update(k, a);
    let small = Multiset::<AtomKind>::empty().update(k, b);
    assert(small.count(k) == b && big.count(k) == a);
}

} // verus!
