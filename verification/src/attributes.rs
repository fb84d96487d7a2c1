//! A mapping from attribute usage to a value, kept in canonical order.
//!
//! The byte layout of a payload follows the order of the attributes, so the
//! mapping is stored as a list of entries whose usages strictly increase by
//! rank. Walking the list is walking the canonical order, and two mappings
//! that hold the same entries are the same list.

use vstd::prelude::*;
use crate::descriptor::VertexUsage;

verus! {

/// The usages of `s` strictly increase by rank: the list is in canonical
/// order and names no usage twice.
pub open spec fn canonical<V>(s: Seq<(VertexUsage, V)>) -> bool {
    forall|i: int, j: int| 0 <= i < j < s.len() ==> s[i].0.rank() < s[j].0.rank()
}

/// The value that `s` holds for `usage`, if it holds one.
pub open spec fn finds<V>(s: Seq<(VertexUsage, V)>, usage: VertexUsage) -> Option<V> {
    if exists|i: int| 0 <= i < s.len() && (#[trigger] s[i]).0 == usage {
        Some(s[choose|i: int| 0 <= i < s.len() && (#[trigger] s[i]).0 == usage].1)
    } else {
        None
    }
}

/// Whether `after` is `before` with `usage` given the value `value`, the
/// entry standing at place `p` of `after`.
///
/// The entries before `p` are those of `before`, and rank below `usage`.
/// Where `before` has an entry of `usage`, it stands at `p` and is
/// replaced, and the entries after it stay. Where it has none, the entries
/// from `p` on move one place up, and rank above `usage`.
pub open spec fn sets_entry_at<V>(
    before: Seq<(VertexUsage, V)>,
    after: Seq<(VertexUsage, V)>,
    usage: VertexUsage,
    value: V,
    p: int,
) -> bool {
    &&& 0 <= p <= before.len()
    &&& p < after.len()
    &&& after[p] == (usage, value)
    &&& forall|j: int|
        0 <= j < p ==> #[trigger] after[j] == before[j] && before[j].0.rank() < usage.rank()
    &&& if p < before.len() && before[p].0 == usage {
        &&& after.len() == before.len()
        &&& forall|j: int| p < j < after.len() ==> #[trigger] after[j] == before[j]
    } else {
        &&& after.len() == before.len() + 1
        &&& forall|j: int|
            p < j < after.len() ==> #[trigger] after[j] == before[j - 1] && before[j - 1].0.rank()
                > usage.rank()
    }
}

/// Whether `after` is `before` with `usage` given the value `value`.
pub open spec fn sets_entry<V>(
    before: Seq<(VertexUsage, V)>,
    after: Seq<(VertexUsage, V)>,
    usage: VertexUsage,
    value: V,
) -> bool {
    exists|p: int| #[trigger] sets_entry_at(before, after, usage, value, p)
}

/// What `finds` finds is what the list holds: a canonical list names no
/// usage twice, so the entry of a usage is the one that is found.
pub proof fn lemma_finds<V>(s: Seq<(VertexUsage, V)>, usage: VertexUsage)
    requires
        canonical(s),
    ensures
        finds(s, usage) is Some <==> exists|i: int| 0 <= i < s.len() && (#[trigger] s[i]).0 == usage,
        forall|i: int|
            0 <= i < s.len() && (#[trigger] s[i]).0 == usage ==> finds(s, usage) == Some(s[i].1),
{
    if exists|i: int| 0 <= i < s.len() && (#[trigger] s[i]).0 == usage {
        let k = choose|i: int| 0 <= i < s.len() && (#[trigger] s[i]).0 == usage;
        assert forall|i: int| 0 <= i < s.len() && (#[trigger] s[i]).0 == usage implies i == k by {
            if i < k {
                assert(s[i].0.rank() < s[k].0.rank());
            } else if k < i {
                assert(s[k].0.rank() < s[i].0.rank());
            }
        }
    }
}

/// The place in the list before where the entry at place `j` of the list
/// after comes from, when that is not the entry that was set at `p`.
pub open spec fn origin(replaced: bool, p: int, j: int) -> int {
    if replaced || j < p {
        j
    } else {
        j - 1
    }
}

/// Giving a usage a value keeps the list canonical, makes `finds` find the
/// new value, and leaves the other usages as they were. The list grows by
/// one entry where the usage had no value.
pub proof fn lemma_sets_entry<V>(
    before: Seq<(VertexUsage, V)>,
    after: Seq<(VertexUsage, V)>,
    usage: VertexUsage,
    value: V,
)
    requires
        canonical(before),
        sets_entry(before, after, usage, value),
    ensures
        canonical(after),
        finds(after, usage) == Some(value),
        forall|other: VertexUsage| other != usage ==> finds(after, other) == finds(before, other),
        after.len() == if finds(before, usage) is Some {
            before.len()
        } else {
            before.len() + 1
        },
{
    let p = choose|p: int| #[trigger] sets_entry_at(before, after, usage, value, p);
    let replaced = p < before.len() && before[p].0 == usage;
    assert(canonical(after)) by {
        assert forall|i: int, j: int| 0 <= i < j < after.len() implies after[i].0.rank()
            < after[j].0.rank() by {
            let from_i = origin(replaced, p, i);
            let from_j = origin(replaced, p, j);
            if i != p && j != p {
                assert(after[i] == before[from_i]);
                assert(after[j] == before[from_j]);
                assert(before[from_i].0.rank() < before[from_j].0.rank());
            } else if i == p {
                assert(after[j] == before[from_j]);
                if replaced {
                    assert(before[p].0.rank() < before[j].0.rank());
                }
            } else {
                assert(after[i] == before[from_i]);
            }
        }
    }
    lemma_finds(after, usage);
    lemma_finds(before, usage);
    assert(finds(before, usage) is Some <==> replaced) by {
        if finds(before, usage) is Some {
            let i = choose|i: int| 0 <= i < before.len() && (#[trigger] before[i]).0 == usage;
            if i < p {
                assert(after[i] == before[i]);
            } else if !replaced {
                assert(after[i + 1] == before[i]);
            }
        }
    }
    assert forall|other: VertexUsage| other != usage implies finds(after, other) == finds(
        before,
        other,
    ) by {
        lemma_finds(after, other);
        lemma_finds(before, other);
        if finds(before, other) is Some {
            let i = choose|i: int| 0 <= i < before.len() && (#[trigger] before[i]).0 == other;
            let j = if replaced || i < p {
                i
            } else {
                i + 1
            };
            assert(after[j] == before[i]);
        }
        if finds(after, other) is Some {
            let j = choose|j: int| 0 <= j < after.len() && (#[trigger] after[j]).0 == other;
            assert(after[j] == before[origin(replaced, p, j)]);
        }
    }
}

/// Giving a value to a usage that ranks above all of a list puts the entry
/// at its end.
pub proof fn lemma_sets_entry_above<V>(
    before: Seq<(VertexUsage, V)>,
    after: Seq<(VertexUsage, V)>,
    usage: VertexUsage,
    value: V,
)
    requires
        sets_entry(before, after, usage, value),
        forall|j: int| 0 <= j < before.len() ==> (#[trigger] before[j]).0.rank() < usage.rank(),
    ensures
        after == before.push((usage, value)),
{
    let p = choose|p: int| #[trigger] sets_entry_at(before, after, usage, value, p);
    if p < before.len() {
        assert(before[p].0.rank() < usage.rank());
        assert(after[p + 1] == before[p]);
    }
    assert(after =~= before.push((usage, value)));
}

/// Two canonical lists in which `finds` finds the same for every usage
/// are the same list.
pub proof fn lemma_canonical_unique<V>(s: Seq<(VertexUsage, V)>, t: Seq<(VertexUsage, V)>)
    requires
        canonical(s),
        canonical(t),
        forall|usage: VertexUsage| finds(s, usage) == finds(t, usage),
    ensures
        s == t,
    decreases s.len(),
{
    if s.len() == 0 {
        if t.len() > 0 {
            lemma_finds(t, t[0].0);
            lemma_finds(s, t[0].0);
        }
        assert(s =~= t);
    } else {
        let last = s.last();
        lemma_finds(s, last.0);
        lemma_finds(t, last.0);
        let k = choose|k: int| 0 <= k < t.len() && (#[trigger] t[k]).0 == last.0;
        assert(t[k].1 == last.1);
        // nothing of `t` ranks above the last entry of `s`
        if k < t.len() - 1 {
            let above = t[t.len() - 1];
            lemma_finds(t, above.0);
            lemma_finds(s, above.0);
            let m = choose|m: int| 0 <= m < s.len() && (#[trigger] s[m]).0 == above.0;
            assert(s[m].0.rank() <= last.0.rank());
            assert(t[k].0.rank() < above.0.rank());
        }
        assert(k == t.len() - 1);
        let s1 = s.drop_last();
        let t1 = t.drop_last();
        assert(canonical(s1));
        assert(canonical(t1));
        assert forall|usage: VertexUsage| finds(s1, usage) == finds(t1, usage) by {
            lemma_finds(s, usage);
            lemma_finds(t, usage);
            lemma_finds(s1, usage);
            lemma_finds(t1, usage);
            VertexUsage::lemma_rank_injective(usage, last.0);
            if usage == last.0 {
                if finds(s1, usage) is Some {
                    let i = choose|i: int| 0 <= i < s1.len() && (#[trigger] s1[i]).0 == usage;
                    assert(s[i].0.rank() < s[s.len() - 1].0.rank());
                }
                if finds(t1, usage) is Some {
                    let i = choose|i: int| 0 <= i < t1.len() && (#[trigger] t1[i]).0 == usage;
                    assert(t[i].0.rank() < t[t.len() - 1].0.rank());
                }
            } else {
                if finds(s, usage) is Some {
                    let i = choose|i: int| 0 <= i < s.len() && (#[trigger] s[i]).0 == usage;
                    assert(s1[i].0 == usage);
                    let j = choose|j: int| 0 <= j < t.len() && (#[trigger] t[j]).0 == usage;
                    assert(t1[j].0 == usage);
                } else {
                    if finds(s1, usage) is Some {
                        let i = choose|i: int| 0 <= i < s1.len() && (#[trigger] s1[i]).0 == usage;
                        assert(s[i].0 == usage);
                    }
                    if finds(t1, usage) is Some {
                        let i = choose|i: int| 0 <= i < t1.len() && (#[trigger] t1[i]).0 == usage;
                        assert(t[i].0 == usage);
                    }
                }
            }
        }
        lemma_canonical_unique(s1, t1);
        assert(s =~= s1.push(last));
        assert(t =~= t1.push(t[k]));
    }
}

/// Values by attribute usage, walked in canonical order.
#[derive(Debug)]
pub struct AttributeMap<V> {
    entries: Vec<(VertexUsage, V)>,
}

impl<V> View for AttributeMap<V> {
    type V = Seq<(VertexUsage, V)>;

    /// The entries in canonical order.
    closed spec fn view(&self) -> Seq<(VertexUsage, V)> {
        self.entries@
    }
}

impl<V> AttributeMap<V> {
    #[verifier::type_invariant]
    spec fn ordered(self) -> bool {
        canonical(self.entries@)
    }

    /// A mapping without entries.
    pub fn new() -> (r: Self)
        ensures
            r@ == Seq::<(VertexUsage, V)>::empty(),
    {
        AttributeMap { entries: Vec::new() }
    }

    /// The number of usages that have a value.
    pub fn len(&self) -> (r: usize)
        ensures
            r == self@.len(),
            canonical(self@),
    {
        proof {
            use_type_invariant(self);
        }
        self.entries.len()
    }

    pub fn is_empty(&self) -> (r: bool)
        ensures
            r == (self@.len() == 0),
            canonical(self@),
    {
        proof {
            use_type_invariant(self);
        }
        self.entries.len() == 0
    }

    /// The entries in canonical order.
    pub fn as_slice(&self) -> (r: &[(VertexUsage, V)])
        ensures
            r@ == self@,
            canonical(self@),
    {
        proof {
            use_type_invariant(self);
        }
        self.entries.as_slice()
    }

    /// The place before which all entries rank below `usage`, and from
    /// which on none does.
    fn find(&self, usage: VertexUsage) -> (p: usize)
        ensures
            canonical(self@),
            0 <= p <= self@.len(),
            forall|j: int| 0 <= j < p ==> (#[trigger] self@[j]).0.rank() < usage.rank(),
            forall|j: int| p <= j < self@.len() ==> (#[trigger] self@[j]).0.rank() >= usage.rank(),
    {
        proof {
            use_type_invariant(self);
        }
        let key = usage.order_key();
        let mut p: usize = 0;
        while p < self.entries.len() && self.entries[p].0.order_key() < key
            invariant
                0 <= p <= self.entries@.len(),
                key == usage.rank(),
                forall|j: int| 0 <= j < p ==> (#[trigger] self.entries@[j]).0.rank() < usage.rank(),
            decreases self.entries@.len() - p,
        {
            p += 1;
        }
        proof {
            assert forall|j: int| p <= j < self.entries@.len() implies (
            #[trigger] self.entries@[j]).0.rank() >= usage.rank() by {
                if j > p {
                    assert(self.entries@[p as int].0.rank() < self.entries@[j].0.rank());
                }
            }
        }
        p
    }

    /// The value of `usage`, if it has one.
    pub fn get(&self, usage: VertexUsage) -> (r: Option<&V>)
        ensures
            canonical(self@),
            match r {
                Some(v) => finds(self@, usage) == Some(*v),
                None => finds(self@, usage) is None,
            },
    {
        let p = self.find(usage);
        proof {
            lemma_finds(self@, usage);
        }
        if p < self.entries.len() && self.entries[p].0.order_key() == usage.order_key() {
            proof {
                VertexUsage::lemma_rank_injective(self.entries@[p as int].0, usage);
            }
            Some(&self.entries[p].1)
        } else {
            proof {
                assert forall|i: int| 0 <= i < self@.len() implies (#[trigger] self@[i]).0
                    != usage by {
                    if i < p {
                        assert(self@[i].0.rank() < usage.rank());
                    } else if i > p {
                        assert(self@[p as int].0.rank() < self@[i].0.rank());
                    }
                }
            }
            None
        }
    }

    pub fn contains_key(&self, usage: VertexUsage) -> (r: bool)
        ensures
            canonical(self@),
            r == finds(self@, usage) is Some,
    {
        self.get(usage).is_some()
    }

    /// Gives `usage` the value `value`, and returns the value it had.
    pub fn insert(&mut self, usage: VertexUsage, value: V) -> (r: Option<V>)
        ensures
            canonical(old(self)@),
            canonical(final(self)@),
            sets_entry(old(self)@, final(self)@, usage, value),
            r == finds(old(self)@, usage),
            final(self)@.len() == if r is Some {
                old(self)@.len()
            } else {
                old(self)@.len() + 1
            },
            finds(final(self)@, usage) == Some(value),
            forall|other: VertexUsage|
                other != usage ==> #[trigger] finds(final(self)@, other) == finds(
                    old(self)@,
                    other,
                ),
    {
        let p = self.find(usage);
        let replaces = p < self.entries.len() && self.entries[p].0.order_key()
            == usage.order_key();
        let ghost before = self.entries@;
        proof {
            if p < before.len() {
                VertexUsage::lemma_rank_injective(before[p as int].0, usage);
            }
        }
        // The list is edited outside the mapping and put back whole.
        let mut entries: Vec<(VertexUsage, V)> = Vec::new();
        std::mem::swap(&mut self.entries, &mut entries);
        let previous = if replaces {
            let removed = entries.remove(p);
            entries.insert(p, (usage, value));
            assert(entries@ =~= before.update(p as int, (usage, value)));
            Some(removed.1)
        } else {
            entries.insert(p, (usage, value));
            None
        };
        proof {
            let after = entries@;
            assert(sets_entry_at(before, after, usage, value, p as int));
            lemma_sets_entry(before, after, usage, value);
            lemma_finds(before, usage);
            if !replaces {
                assert forall|i: int| 0 <= i < before.len() implies (#[trigger] before[i]).0
                    != usage by {
                    if i < p {
                        assert(before[i].0.rank() < usage.rank());
                    } else if i > p {
                        assert(before[p as int].0.rank() < before[i].0.rank());
                    }
                }
            }
        }
        std::mem::swap(&mut self.entries, &mut entries);
        previous
    }

    /// Gives a value to a usage that ranks above all usages that have one.
    pub(crate) fn append(&mut self, usage: VertexUsage, value: V)
        requires
            forall|j: int|
                0 <= j < old(self)@.len() ==> (#[trigger] old(self)@[j]).0.rank() < usage.rank(),
        ensures
            final(self)@ == old(self)@.push((usage, value)),
            canonical(final(self)@),
    {
        let ghost before = self@;
        self.insert(usage, value);
        proof {
            lemma_sets_entry_above(before, self@, usage, value);
        }
    }
}

impl<V: Copy> Clone for AttributeMap<V> {
    fn clone(&self) -> (r: Self)
        ensures
            r@ == self@,
    {
        proof {
            use_type_invariant(self);
        }
        let mut entries: Vec<(VertexUsage, V)> = Vec::new();
        let mut i: usize = 0;
        while i < self.entries.len()
            invariant
                0 <= i <= self.entries@.len(),
                entries@ == self.entries@.take(i as int),
            decreases self.entries@.len() - i,
        {
            entries.push(self.entries[i]);
            assert(entries@ =~= self.entries@.take(i + 1));
            i += 1;
        }
        assert(entries@ =~= self.entries@);
        AttributeMap { entries }
    }
}

impl<V> Default for AttributeMap<V> {
    fn default() -> (r: Self)
        ensures
            r@ == Seq::<(VertexUsage, V)>::empty(),
    {
        AttributeMap::new()
    }
}

} // verus!
