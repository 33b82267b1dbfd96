//! Counters keyed by a label, kept in the order in which labels first came.
use vstd::prelude::*;
use vstd::string::*;

verus! {

/// A key of a histogram: a value that can be compared and copied by its view.
pub trait Label: View + Sized {
    /// Whether two labels have the same value.
    fn same(&self, other: &Self) -> (equal: bool)
        ensures
            equal == (self@ == other@),
    ;

    /// A copy with the same value.
    fn copy(&self) -> (copy: Self)
        ensures
            copy@ == self@,
    ;
}

impl Label for u16 {
    fn same(&self, other: &u16) -> (equal: bool) {
        *self == *other
    }

    fn copy(&self) -> (copy: u16) {
        *self
    }
}

impl Label for String {
    fn same(&self, other: &String) -> (equal: bool) {
        *self == *other
    }

    fn copy(&self) -> (copy: String) {
        self.clone()
    }
}

/// The first position of `entries` that holds `label`, or the length of
/// `entries` where none does.
pub open spec fn position<L>(entries: Seq<(L, nat)>, label: L) -> int
    decreases entries.len(),
{
    if entries.len() == 0 {
        0
    } else if entries[0].0 == label {
        0
    } else {
        1 + position(entries.drop_first(), label)
    }
}

/// The count that `entries` holds for `label`: zero for a label never seen.
pub open spec fn count_of<L>(entries: Seq<(L, nat)>, label: L) -> nat {
    let p = position(entries, label);
    if p < entries.len() {
        entries[p].1
    } else {
        0
    }
}

/// The entries after one more occurrence of `label`: its count is one
/// higher, and a label not seen before is added at the end with count one.
pub open spec fn bumped<L>(entries: Seq<(L, nat)>, label: L) -> Seq<(L, nat)> {
    let p = position(entries, label);
    if p < entries.len() {
        entries.update(p, (label, entries[p].1 + 1))
    } else {
        entries.push((label, 1))
    }
}

/// The sum of all counts.
pub open spec fn total<L>(entries: Seq<(L, nat)>) -> nat
    decreases entries.len(),
{
    if entries.len() == 0 {
        0
    } else {
        total(entries.drop_last()) + entries.last().1
    }
}

/// No label occurs twice, and no count is zero.
pub open spec fn tidy<L>(entries: Seq<(L, nat)>) -> bool {
    &&& forall|i: int, j: int|
        0 <= i < j < entries.len() ==> (#[trigger] entries[i]).0 != (#[trigger] entries[j]).0
    &&& forall|i: int| 0 <= i < entries.len() ==> (#[trigger] entries[i]).1 >= 1
}

/// `position` is the one place before which `label` does not occur and at
/// which it does, if it occurs at all.
pub proof fn lemma_position<L>(entries: Seq<(L, nat)>, label: L, p: int)
    requires
        0 <= p <= entries.len(),
        forall|j: int| 0 <= j < p ==> (#[trigger] entries[j]).0 != label,
        p < entries.len() ==> entries[p].0 == label,
    ensures
        position(entries, label) == p,
    decreases entries.len(),
{
    if entries.len() > 0 && p > 0 {
        let rest = entries.drop_first();
        assert forall|j: int| 0 <= j < p - 1 implies (#[trigger] rest[j]).0 != label by {}
        lemma_position(rest, label, p - 1);
    }
}

/// What `position` returns is in range, holds the label if it is a place of
/// `entries`, and no earlier place holds the label.
pub proof fn lemma_position_found<L>(entries: Seq<(L, nat)>, label: L)
    ensures
        0 <= position(entries, label) <= entries.len(),
        position(entries, label) < entries.len() ==> entries[position(entries, label)].0 == label,
        forall|j: int| 0 <= j < position(entries, label) ==> (#[trigger] entries[j]).0 != label,
    decreases entries.len(),
{
    if entries.len() > 0 && entries[0].0 != label {
        let rest = entries.drop_first();
        lemma_position_found(rest, label);
        assert forall|j: int| 0 <= j < position(entries, label) implies (#[trigger] entries[j]).0
            != label by {
            if j > 0 {
                assert(entries[j] == rest[j - 1]);
            }
        }
    }
}

/// Changing one count changes the sum by as much.
pub proof fn lemma_total_update<L>(entries: Seq<(L, nat)>, p: int, entry: (L, nat))
    requires
        0 <= p < entries.len(),
    ensures
        total(entries.update(p, entry)) == total(entries) - entries[p].1 + entry.1,
    decreases entries.len(),
{
    let changed = entries.update(p, entry);
    if p == entries.len() - 1 {
        assert(changed.drop_last() =~= entries.drop_last());
    } else {
        assert(changed.drop_last() =~= entries.drop_last().update(p, entry));
        lemma_total_update(entries.drop_last(), p, entry);
    }
}

/// No single count exceeds the sum.
pub proof fn lemma_count_within_total<L>(entries: Seq<(L, nat)>, p: int)
    requires
        0 <= p < entries.len(),
    ensures
        entries[p].1 <= total(entries),
    decreases entries.len(),
{
    if p < entries.len() - 1 {
        lemma_count_within_total(entries.drop_last(), p);
    }
}

/// One more occurrence raises the sum of the counts by one, raises the
/// count of its label by one, leaves every other count alone, and keeps the
/// entries tidy.
pub proof fn lemma_bumped<L>(entries: Seq<(L, nat)>, label: L)
    requires
        tidy(entries),
    ensures
        total(bumped(entries, label)) == total(entries) + 1,
        count_of(bumped(entries, label), label) == count_of(entries, label) + 1,
        forall|other: L|
            other != label ==> #[trigger] count_of(bumped(entries, label), other) == count_of(
                entries,
                other,
            ),
        tidy(bumped(entries, label)),
{
    let p = position(entries, label);
    let after = bumped(entries, label);
    lemma_position_found(entries, label);
    if p < entries.len() {
        lemma_total_update(entries, p, (label, entries[p].1 + 1));
    } else {
        assert(after.drop_last() =~= entries);
    }
    lemma_position(after, label, p);
    assert forall|other: L| other != label implies #[trigger] count_of(after, other) == count_of(
        entries,
        other,
    ) by {
        let q = position(entries, other);
        lemma_position_found(entries, other);
        if q < entries.len() {
            lemma_position(after, other, q);
        } else {
            lemma_position(after, other, after.len() as int);
        }
    }
}

/// A histogram whose entries keep the order in which labels first came.
pub struct Histogram<K> {
    keys: Vec<K>,
    counts: Vec<u64>,
}

impl<K: Label> View for Histogram<K> {
    type V = Seq<(K::V, nat)>;

    closed spec fn view(&self) -> Seq<(K::V, nat)> {
        Seq::new(self.keys@.len(), |i: int| (self.keys@[i]@, self.counts@[i] as nat))
    }
}

impl<K: Label> Histogram<K> {
    /// The two columns have one length, and the entries are tidy.
    pub closed spec fn wf(&self) -> bool {
        &&& self.keys@.len() == self.counts@.len()
        &&& tidy(self@)
    }

    /// A histogram without entries.
    pub fn new() -> (histogram: Histogram<K>)
        ensures
            histogram.wf(),
            histogram@ == Seq::<(K::V, nat)>::empty(),
    {
        let histogram = Histogram { keys: Vec::new(), counts: Vec::new() };
        histogram
    }

    /// The number of distinct labels seen.
    pub fn len(&self) -> (n: usize)
        requires
            self.wf(),
        ensures
            n == self@.len(),
    {
        self.keys.len()
    }

    /// The label of the entry at `i`.
    pub fn key(&self, i: usize) -> (key: &K)
        requires
            self.wf(),
            i < self@.len(),
        ensures
            key@ == self@[i as int].0,
    {
        &self.keys[i]
    }

    /// The count of the entry at `i`.
    pub fn count(&self, i: usize) -> (count: u64)
        requires
            self.wf(),
            i < self@.len(),
        ensures
            count == self@[i as int].1,
            count >= 1,
    {
        self.counts[i]
    }

    /// The count held for `label`: zero for a label never seen.
    pub fn get(&self, label: &K) -> (count: u64)
        requires
            self.wf(),
        ensures
            count == count_of(self@, label@),
    {
        let mut i: usize = 0;
        while i < self.keys.len()
            invariant
                self.wf(),
                i <= self@.len(),
                forall|j: int| 0 <= j < i ==> (#[trigger] self@[j]).0 != label@,
            decreases self@.len() - i,
        {
            if self.keys[i].same(label) {
                proof {
                    lemma_position(self@, label@, i as int);
                }
                return self.counts[i];
            }
            i += 1;
        }
        proof {
            lemma_position(self@, label@, i as int);
        }
        0
    }

    /// Counts one more occurrence of `label`.
    pub fn add(&mut self, label: &K)
        requires
            old(self).wf(),
            total(old(self)@) < u64::MAX,
        ensures
            final(self).wf(),
            final(self)@ == bumped(old(self)@, label@),
            total(final(self)@) == total(old(self)@) + 1,
    {
        let mut i: usize = 0;
        while i < self.keys.len()
            invariant
                *self == *old(self),
                self.wf(),
                total(self@) < u64::MAX,
                i <= self@.len(),
                forall|j: int| 0 <= j < i ==> (#[trigger] self@[j]).0 != label@,
            decreases self@.len() - i,
        {
            if self.keys[i].same(label) {
                proof {
                    lemma_position(self@, label@, i as int);
                    lemma_count_within_total(self@, i as int);
                    lemma_bumped(self@, label@);
                }
                let count = self.counts[i];
                self.counts.set(i, count + 1);
                assert(self@ =~= bumped(old(self)@, label@));
                return ;
            }
            i += 1;
        }
        proof {
            lemma_position(self@, label@, i as int);
            lemma_bumped(self@, label@);
        }
        self.keys.push(label.copy());
        self.counts.push(1);
        assert(self@ =~= bumped(old(self)@, label@));
    }
}

impl<K: Label> Clone for Histogram<K> {
    /// An independent copy with the same entries.
    fn clone(&self) -> (copy: Histogram<K>)
        ensures
            self.wf() ==> copy.wf() && copy@ == self@,
    {
        let mut keys: Vec<K> = Vec::new();
        let mut counts: Vec<u64> = Vec::new();
        let mut i: usize = 0;
        while i < self.keys.len() && i < self.counts.len()
            invariant
                i <= self.keys@.len(),
                i <= self.counts@.len(),
                keys@.len() == i,
                counts@.len() == i,
                forall|j: int| 0 <= j < i ==> (#[trigger] keys@[j])@ == self.keys@[j]@,
                forall|j: int| 0 <= j < i ==> #[trigger] counts@[j] == self.counts@[j],
            decreases self.keys@.len() - i,
        {
            keys.push(self.keys[i].copy());
            counts.push(self.counts[i]);
            i += 1;
        }
        let copy = Histogram { keys, counts };
        proof {
            if self.wf() {
                assert(copy@ =~= self@);
            }
        }
        copy
    }
}

} // verus!
