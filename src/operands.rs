//! Multisets of expression handles, the operand collections of AC operators.

use vstd::prelude::*;

verus! {

/// A handle: an index into an `Arena`.
pub type Id = usize;

/// Entries in strictly ascending handle order, each with a positive count.
pub open spec fn is_canonical(s: Seq<(Id, usize)>) -> bool {
    &&& forall|i: int, j: int| 0 <= i < j < s.len() ==> s[i].0 < s[j].0
    &&& forall|i: int| 0 <= i < s.len() ==> s[i].1 > 0
}

/// How often `id` occurs in the collection described by `s`.
pub open spec fn count_in(s: Seq<(Id, usize)>, id: Id) -> nat {
    if exists|i: int| 0 <= i < s.len() && s[i].0 == id {
        s[choose|i: int| 0 <= i < s.len() && s[i].0 == id].1 as nat
    } else {
        0
    }
}

/// The number of occurrences over all entries.
pub open spec fn total(s: Seq<(Id, usize)>) -> nat
    decreases s.len(),
{
    if s.len() == 0 {
        0
    } else {
        total(s.drop_last()) + s.last().1 as nat
    }
}

/// `s` with one occurrence of the handle of entry `j` taken out: the count
/// drops by one, and the entry goes once it would reach zero.
pub open spec fn take_one(s: Seq<(Id, usize)>, j: int) -> Seq<(Id, usize)> {
    if s[j].1 <= 1 {
        s.remove(j)
    } else {
        s.update(j, (s[j].0, (s[j].1 - 1) as usize))
    }
}

/// An unordered collection of handles with repetition.
///
/// Equal collections have equal representations: entries are kept in
/// ascending handle order, which is also the order in which the matcher
/// tries them.
#[derive(Debug, PartialEq, Eq)]
pub struct IdMultiset {
    entries: Vec<(Id, usize)>,
}

impl View for IdMultiset {
    type V = Seq<(Id, usize)>;

    closed spec fn view(&self) -> Seq<(Id, usize)> {
        self.entries@
    }
}

impl IdMultiset {
    #[verifier::type_invariant]
    spec fn canonical(self) -> bool {
        is_canonical(self.entries@)
    }

    /// The empty collection.
    pub fn new() -> (r: IdMultiset)
        ensures
            r@.len() == 0,
            is_canonical(r@),
    {
        IdMultiset { entries: Vec::new() }
    }

    /// Number of distinct handles.
    pub fn len(&self) -> (r: usize)
        ensures
            r == self@.len(),
    {
        self.entries.len()
    }

    /// The `i`-th distinct handle in ascending order, with its count.
    pub fn entry(&self, i: usize) -> (r: (Id, usize))
        requires
            i < self@.len(),
        ensures
            r == self@[i as int],
    {
        self.entries[i]
    }

    /// How often `id` occurs.
    pub fn count(&self, id: Id) -> (r: usize)
        ensures
            r == count_in(self@, id),
    {
        proof {
            use_type_invariant(self);
        }
        let mut i: usize = 0;
        while i < self.entries.len()
            invariant
                i <= self@.len(),
                is_canonical(self@),
                forall|k: int| 0 <= k < i ==> self@[k].0 != id,
            decreases self@.len() - i,
        {
            if self.entries[i].0 == id {
                proof {
                    lemma_count_at(self@, i as int);
                }
                return self.entries[i].1;
            }
            i = i + 1;
        }
        0
    }

    /// Whether `self` and `other` hold the same handles with the same counts.
    pub fn same_as(&self, other: &IdMultiset) -> (r: bool)
        ensures
            r == (self@ == other@),
    {
        if self.entries.len() != other.entries.len() {
            return false;
        }
        let mut i: usize = 0;
        while i < self.entries.len()
            invariant
                i <= self@.len(),
                self@.len() == other@.len(),
                forall|k: int| 0 <= k < i ==> self@[k] == other@[k],
            decreases self@.len() - i,
        {
            if self.entries[i].0 != other.entries[i].0 || self.entries[i].1 != other.entries[i].1 {
                return false;
            }
            i = i + 1;
        }
        assert(self@ =~= other@);
        true
    }

    /// A copy with the same entries.
    pub fn duplicate(&self) -> (r: IdMultiset)
        ensures
            r@ == self@,
            is_canonical(r@),
    {
        proof {
            use_type_invariant(self);
        }
        let mut v: Vec<(Id, usize)> = Vec::new();
        let mut i: usize = 0;
        while i < self.entries.len()
            invariant
                i <= self@.len(),
                v@ == self@.subrange(0, i as int),
            decreases self@.len() - i,
        {
            v.push(self.entries[i]);
            i = i + 1;
            assert(v@ =~= self@.subrange(0, i as int));
        }
        assert(v@ =~= self@);
        IdMultiset { entries: v }
    }

    /// Takes one occurrence of the handle of entry `j` out.
    pub fn take_at(&mut self, j: usize)
        requires
            j < old(self)@.len(),
        ensures
            final(self)@ == take_one(old(self)@, j as int),
            is_canonical(final(self)@),
    {
        proof {
            use_type_invariant(&*self);
        }
        let mut v: Vec<(Id, usize)> = Vec::new();
        std::mem::swap(&mut v, &mut self.entries);
        let ghost s = v@;
        let (id, c) = v[j];
        if c <= 1 {
            v.remove(j);
        } else {
            v.set(j, (id, c - 1));
        }
        proof {
            assert forall|a: int, b: int| 0 <= a < b < v@.len() implies v@[a].0 < v@[b].0 by {
                if c <= 1 {
                    if b < j {
                    } else if a < j {
                        assert(v@[b] == s[b + 1]);
                    } else {
                        assert(v@[a] == s[a + 1]);
                        assert(v@[b] == s[b + 1]);
                    }
                }
            }
            assert forall|a: int| 0 <= a < v@.len() implies v@[a].1 > 0 by {
                if c <= 1 && a >= j {
                    assert(v@[a] == s[a + 1]);
                }
            }
        }
        self.entries = v;
        proof {
            use_type_invariant(&*self);
        }
    }

    /// Adds one occurrence of `id`.
    pub fn add(&mut self, id: Id)
        requires
            count_in(old(self)@, id) < usize::MAX,
        ensures
            forall|x: Id| #[trigger]
                count_in(final(self)@, x) == count_in(old(self)@, x) + if x == id {
                    1nat
                } else {
                    0nat
                },
            is_canonical(final(self)@),
            total(final(self)@) == total(old(self)@) + 1,
    {
        proof {
            use_type_invariant(&*self);
        }
        let mut v: Vec<(Id, usize)> = Vec::new();
        std::mem::swap(&mut v, &mut self.entries);
        let ghost s = v@;
        let mut p: usize = 0;
        while p < v.len() && v[p].0 < id
            invariant
                v@ == s,
                is_canonical(s),
                p <= s.len(),
                forall|k: int| 0 <= k < p ==> s[k].0 < id,
            decreases s.len() - p,
        {
            p = p + 1;
        }
        if p < v.len() && v[p].0 == id {
            proof {
                lemma_count_at(s, p as int);
            }
            let c = v[p].1;
            v.set(p, (id, c + 1));
            proof {
                lemma_total_update(s, p as int, (id, (c + 1) as usize));
                assert forall|x: Id| #[trigger]
                    count_in(v@, x) == count_in(s, x) + if x == id {
                        1nat
                    } else {
                        0nat
                    } by {
                    if x == id {
                        lemma_count_at(v@, p as int);
                    } else {
                        lemma_count_same_keys(s, v@, x);
                    }
                }
            }
        } else {
            v.insert(p, (id, 1));
            proof {
                lemma_total_insert(s, p as int, (id, 1usize));
                assert(is_canonical(v@)) by {
                    assert forall|a: int, b: int| 0 <= a < b < v@.len() implies v@[a].0
                        < v@[b].0 by {
                        if a > p {
                            assert(v@[a] == s[a - 1]);
                        }
                        if b > p {
                            assert(v@[b] == s[b - 1]);
                        }
                    }
                    assert forall|a: int| 0 <= a < v@.len() implies v@[a].1 > 0 by {
                        if a > p {
                            assert(v@[a] == s[a - 1]);
                        }
                    }
                }
                assert forall|x: Id| #[trigger]
                    count_in(v@, x) == count_in(s, x) + if x == id {
                        1nat
                    } else {
                        0nat
                    } by {
                    if x == id {
                        lemma_count_at(v@, p as int);
                        lemma_count_absent(s, x);
                    } else if exists|k: int| 0 <= k < s.len() && s[k].0 == x {
                        let k = choose|k: int| 0 <= k < s.len() && s[k].0 == x;
                        lemma_count_at(s, k);
                        let k2 = if k < p { k } else { k + 1 };
                        assert(v@[k2] == s[k]);
                        lemma_count_at(v@, k2);
                    } else {
                        lemma_count_absent(s, x);
                        assert forall|k: int| 0 <= k < v@.len() implies v@[k].0 != x by {
                            if k > p {
                                assert(v@[k] == s[k - 1]);
                            } else if k < p {
                                assert(v@[k] == s[k]);
                            }
                        }
                        lemma_count_absent(v@, x);
                    }
                }
            }
        }
        self.entries = v;
        proof {
            use_type_invariant(&*self);
        }
    }
}

proof fn lemma_total_update(s: Seq<(Id, usize)>, p: int, e: (Id, usize))
    requires
        0 <= p < s.len(),
    ensures
        total(s.update(p, e)) == total(s) - s[p].1 + e.1,
    decreases s.len(),
{
    let u = s.update(p, e);
    if p < s.len() - 1 {
        assert(u.drop_last() =~= s.drop_last().update(p, e));
        lemma_total_update(s.drop_last(), p, e);
    } else {
        assert(u.drop_last() =~= s.drop_last());
    }
}

proof fn lemma_total_insert(s: Seq<(Id, usize)>, p: int, e: (Id, usize))
    requires
        0 <= p <= s.len(),
    ensures
        total(s.insert(p, e)) == total(s) + e.1,
    decreases s.len(),
{
    let u = s.insert(p, e);
    if p < s.len() {
        assert(u.drop_last() =~= s.drop_last().insert(p, e));
        lemma_total_insert(s.drop_last(), p, e);
    } else {
        assert(u.drop_last() =~= s);
    }
}

/// In a canonical sequence the count of a handle is that of its entry.
pub proof fn lemma_count_at(s: Seq<(Id, usize)>, i: int)
    requires
        is_canonical(s),
        0 <= i < s.len(),
    ensures
        count_in(s, s[i].0) == s[i].1 as nat,
{
    let k = choose|k: int| 0 <= k < s.len() && s[k].0 == s[i].0;
    if k < i {
        assert(s[k].0 < s[i].0);
    } else if k > i {
        assert(s[i].0 < s[k].0);
    }
}

/// A handle with no entry has count zero.
pub proof fn lemma_count_absent(s: Seq<(Id, usize)>, id: Id)
    requires
        forall|k: int| 0 <= k < s.len() ==> s[k].0 != id,
    ensures
        count_in(s, id) == 0,
{
}

/// Changing the count of one entry leaves the counts of other handles alone.
proof fn lemma_count_same_keys(s: Seq<(Id, usize)>, t: Seq<(Id, usize)>, x: Id)
    requires
        is_canonical(s),
        is_canonical(t),
        s.len() == t.len(),
        forall|k: int| 0 <= k < s.len() ==> s[k].0 == t[k].0,
        forall|k: int| 0 <= k < s.len() && s[k].0 == x ==> s[k].1 == t[k].1,
    ensures
        count_in(s, x) == count_in(t, x),
{
    if exists|k: int| 0 <= k < s.len() && s[k].0 == x {
        let k = choose|k: int| 0 <= k < s.len() && s[k].0 == x;
        lemma_count_at(s, k);
        lemma_count_at(t, k);
    } else {
        assert forall|k: int| 0 <= k < t.len() implies t[k].0 != x by {
            assert(s[k].0 == t[k].0);
        }
    }
}

/// Without its first entry, a canonical sequence loses exactly that handle.
proof fn lemma_count_drop_first(s: Seq<(Id, usize)>, x: Id)
    requires
        is_canonical(s),
        s.len() > 0,
    ensures
        is_canonical(s.drop_first()),
        count_in(s.drop_first(), x) == if x == s[0].0 {
            0
        } else {
            count_in(s, x)
        },
{
    let d = s.drop_first();
    assert forall|i: int, j: int| 0 <= i < j < d.len() implies d[i].0 < d[j].0 by {
        assert(d[i] == s[i + 1] && d[j] == s[j + 1]);
    }
    assert forall|i: int| 0 <= i < d.len() implies d[i].1 > 0 by {
        assert(d[i] == s[i + 1]);
    }
    if x == s[0].0 {
        assert forall|k: int| 0 <= k < d.len() implies d[k].0 != x by {
            assert(d[k] == s[k + 1]);
        }
    } else if exists|k: int| 0 <= k < s.len() && s[k].0 == x {
        let k = choose|k: int| 0 <= k < s.len() && s[k].0 == x;
        lemma_count_at(s, k);
        assert(d[k - 1] == s[k]);
        lemma_count_at(d, k - 1);
    } else {
        assert forall|k: int| 0 <= k < d.len() implies d[k].0 != x by {
            assert(d[k] == s[k + 1]);
        }
    }
}

/// Canonical entries are determined by their counts: two canonical
/// sequences that agree on the count of every handle are equal.
pub proof fn lemma_counts_determine_entries(s: Seq<(Id, usize)>, t: Seq<(Id, usize)>)
    requires
        is_canonical(s),
        is_canonical(t),
        forall|x: Id| #[trigger] count_in(s, x) == count_in(t, x),
    ensures
        s == t,
    decreases s.len(),
{
    if s.len() == 0 {
        if t.len() > 0 {
            lemma_count_at(t, 0);
            assert(count_in(s, t[0].0) == 0);
        }
        assert(s =~= t);
    } else if t.len() == 0 {
        lemma_count_at(s, 0);
        assert(count_in(t, s[0].0) == 0);
    } else {
        lemma_count_at(s, 0);
        lemma_count_at(t, 0);
        if s[0].0 < t[0].0 {
            assert forall|k: int| 0 <= k < t.len() implies t[k].0 != s[0].0 by {
                if k > 0 {
                    assert(t[0].0 < t[k].0);
                }
            }
            lemma_count_absent(t, s[0].0);
        } else if t[0].0 < s[0].0 {
            assert forall|k: int| 0 <= k < s.len() implies s[k].0 != t[0].0 by {
                if k > 0 {
                    assert(s[0].0 < s[k].0);
                }
            }
            lemma_count_absent(s, t[0].0);
        } else {
            assert(count_in(s, s[0].0) == count_in(t, s[0].0));
            assert(s[0] == t[0]);
            assert forall|x: Id| #[trigger] count_in(s.drop_first(), x) == count_in(t.drop_first(), x) by {
                lemma_count_drop_first(s, x);
                lemma_count_drop_first(t, x);
            }
            lemma_count_drop_first(s, 0);
            lemma_count_drop_first(t, 0);
            lemma_counts_determine_entries(s.drop_first(), t.drop_first());
            assert(s =~= t.drop_first().insert(0, t[0]));
            assert(t =~= t.drop_first().insert(0, t[0]));
        }
    }
}

/// In a canonical sequence a handle has an entry exactly when its count is positive.
pub proof fn lemma_entry_iff_counted(s: Seq<(Id, usize)>, x: Id)
    requires
        is_canonical(s),
    ensures
        (exists|i: int| 0 <= i < s.len() && s[i].0 == x) <==> count_in(s, x) > 0,
{
    if exists|i: int| 0 <= i < s.len() && s[i].0 == x {
        let i = choose|i: int| 0 <= i < s.len() && s[i].0 == x;
        lemma_count_at(s, i);
    }
}

/// The collection holding each handle of `vs` as often as it occurs there.
pub fn multiset(vs: Vec<Id>) -> (r: IdMultiset)
    ensures
        is_canonical(r@),
        forall|x: Id| #[trigger] count_in(r@, x) == vs@.to_multiset().count(x),
        forall|x: Id| #[trigger] count_in(r@, x) > 0 <==> vs@.contains(x),
        total(r@) == vs@.len(),
{
    broadcast use vstd::seq_lib::group_to_multiset_ensures;

    let mut res = IdMultiset::new();
    let mut i: usize = 0;
    while i < vs.len()
        invariant
            i <= vs@.len(),
            is_canonical(res@),
            total(res@) == i,
            forall|x: Id| #[trigger]
                count_in(res@, x) == vs@.subrange(0, i as int).to_multiset().count(x),
            forall|x: Id| #[trigger] count_in(res@, x) <= i,
        decreases vs@.len() - i,
    {
        let ghost before = vs@.subrange(0, i as int);
        assert(vs@.subrange(0, i + 1) =~= before.push(vs@[i as int]));
        proof {
            before.to_multiset_ensures();
        }
        res.add(vs[i]);
        i = i + 1;
    }
    assert(vs@.subrange(0, vs@.len() as int) =~= vs@);
    proof {
        vs@.to_multiset_ensures();
    }
    res
}

} // verus!
