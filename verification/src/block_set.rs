//! Sets of block indices that are walked in a fixed order: by the block
//! hash first, and by the coordinates where two hashes agree.

use vstd::prelude::*;
use crate::index::BlockIndex;

verus! {

/// The order in which sets of blocks are walked: `a` comes before `b` when
/// its hash is smaller, or the hashes agree and its coordinates are
/// smaller, x first.
pub open spec fn precedes<const VPS: usize>(a: BlockIndex<VPS>, b: BlockIndex<VPS>) -> bool {
    let ha = a.spec_deco_hash();
    let hb = b.spec_deco_hash();
    ha < hb || (ha == hb && (a.x < b.x || (a.x == b.x && (a.y < b.y || (a.y == b.y && a.z
        < b.z)))))
}

/// Every item of the sequence comes before the items behind it.
pub open spec fn is_sorted<const VPS: usize>(s: Seq<BlockIndex<VPS>>) -> bool {
    forall|i: int, j: int| 0 <= i < j < s.len() ==> precedes(#[trigger] s[i], #[trigger] s[j])
}

/// Whether `a` comes before `b` in walking order.
pub fn comes_before<const VPS: usize>(a: &BlockIndex<VPS>, b: &BlockIndex<VPS>) -> (r: bool)
    ensures
        r == precedes(*a, *b),
{
    let ha = a.deco_hash();
    let hb = b.deco_hash();
    ha < hb || (ha == hb && (a.x < b.x || (a.x == b.x && (a.y < b.y || (a.y == b.y && a.z
        < b.z)))))
}

/// The walking order is a strict total order.
pub proof fn lemma_precedes_total_order<const VPS: usize>()
    ensures
        forall|a: BlockIndex<VPS>| !precedes(a, a),
        forall|a: BlockIndex<VPS>, b: BlockIndex<VPS>|
            a != b ==> #[trigger] precedes(a, b) || precedes(b, a),
        forall|a: BlockIndex<VPS>, b: BlockIndex<VPS>| #[trigger]
            precedes(a, b) ==> !precedes(b, a),
        forall|a: BlockIndex<VPS>, b: BlockIndex<VPS>, c: BlockIndex<VPS>|
            #[trigger] precedes(a, b) && #[trigger] precedes(b, c) ==> precedes(a, c),
{
}

/// Two sorted sequences with the same items are the same sequence.
pub proof fn lemma_sorted_unique<const VPS: usize>(s: Seq<BlockIndex<VPS>>, t: Seq<BlockIndex<VPS>>)
    requires
        is_sorted(s),
        is_sorted(t),
        forall|x: BlockIndex<VPS>| s.contains(x) <==> t.contains(x),
    ensures
        s == t,
    decreases s.len(),
{
    lemma_precedes_total_order::<VPS>();
    if s.len() == 0 {
        if t.len() > 0 {
            assert(t.contains(t[0]));
        }
        assert(s =~= t);
    } else {
        assert(s.contains(s[0]));
        assert(t.contains(s[0]));
        let k = choose|k: int| 0 <= k < t.len() && t[k] == s[0];
        assert(t.contains(t[0]));
        let m = choose|m: int| 0 <= m < s.len() && s[m] == t[0];
        assert(k == 0) by {
            if k > 0 {
                assert(precedes(t[0], t[k]));
                if m > 0 {
                    assert(precedes(s[0], s[m]));
                }
            }
        }
        let s_rest = s.drop_first();
        let t_rest = t.drop_first();
        assert(is_sorted(s_rest)) by {
            assert forall|i: int, j: int| 0 <= i < j < s_rest.len() implies precedes(
                #[trigger] s_rest[i],
                #[trigger] s_rest[j],
            ) by {
                assert(s_rest[i] == s[i + 1] && s_rest[j] == s[j + 1]);
            }
        }
        assert(is_sorted(t_rest)) by {
            assert forall|i: int, j: int| 0 <= i < j < t_rest.len() implies precedes(
                #[trigger] t_rest[i],
                #[trigger] t_rest[j],
            ) by {
                assert(t_rest[i] == t[i + 1] && t_rest[j] == t[j + 1]);
            }
        }
        assert forall|x: BlockIndex<VPS>| s_rest.contains(x) <==> t_rest.contains(x) by {
            if s_rest.contains(x) {
                let i = choose|i: int| 0 <= i < s_rest.len() && s_rest[i] == x;
                assert(s[i + 1] == x);
                assert(precedes(s[0], s[i + 1]));
                assert(s.contains(x));
                let j = choose|j: int| 0 <= j < t.len() && t[j] == x;
                assert(j != 0);
                assert(t_rest[j - 1] == x);
            }
            if t_rest.contains(x) {
                let i = choose|i: int| 0 <= i < t_rest.len() && t_rest[i] == x;
                assert(t[i + 1] == x);
                assert(precedes(t[0], t[i + 1]));
                assert(t.contains(x));
                let j = choose|j: int| 0 <= j < s.len() && s[j] == x;
                assert(j != 0);
                assert(s_rest[j - 1] == x);
            }
        }
        lemma_sorted_unique(s_rest, t_rest);
        assert(s =~= seq![s[0]] + s_rest);
        assert(t =~= seq![t[0]] + t_rest);
    }
}

/// The sorted sequence `s` with the block `b` put at its place, or `s`
/// itself if `b` is in it.
pub open spec fn sorted_insert<const VPS: usize>(s: Seq<BlockIndex<VPS>>, b: BlockIndex<VPS>) -> Seq<
    BlockIndex<VPS>,
>
    decreases s.len(),
{
    if s.len() == 0 {
        seq![b]
    } else if s[0] == b {
        s
    } else if precedes(b, s[0]) {
        seq![b] + s
    } else {
        seq![s[0]] + sorted_insert(s.drop_first(), b)
    }
}

/// Putting a block into a sorted sequence gives a sorted sequence that
/// holds the block and what the sequence held.
pub proof fn lemma_sorted_insert<const VPS: usize>(s: Seq<BlockIndex<VPS>>, b: BlockIndex<VPS>)
    requires
        is_sorted(s),
    ensures
        is_sorted(sorted_insert(s, b)),
        forall|x: BlockIndex<VPS>| sorted_insert(s, b).contains(x) <==> (s.contains(x) || x == b),
        s.contains(b) ==> sorted_insert(s, b) == s,
        !s.contains(b) ==> sorted_insert(s, b).len() == s.len() + 1,
    decreases s.len(),
{
    lemma_precedes_total_order::<VPS>();
    let t = sorted_insert(s, b);
    if s.len() == 0 {
        assert(t[0] == b);
        assert forall|x: BlockIndex<VPS>| t.contains(x) <==> (s.contains(x) || x == b) by {
            if t.contains(x) {
                let i = choose|i: int| 0 <= i < t.len() && t[i] == x;
            }
            if x == b {
                assert(t[0] == x);
            }
        }
    } else if s[0] == b {
        assert(s.contains(b));
    } else if precedes(b, s[0]) {
        assert forall|i: int, j: int| 0 <= i < j < t.len() implies precedes(
            #[trigger] t[i],
            #[trigger] t[j],
        ) by {
            if i == 0 {
                assert(t[j] == s[j - 1]);
                if j - 1 > 0 {
                    assert(precedes(s[0], s[j - 1]));
                }
            } else {
                assert(t[i] == s[i - 1] && t[j] == s[j - 1]);
            }
        }
        assert forall|x: BlockIndex<VPS>| t.contains(x) <==> (s.contains(x) || x == b) by {
            if t.contains(x) {
                let i = choose|i: int| 0 <= i < t.len() && t[i] == x;
                if i > 0 {
                    assert(s[i - 1] == x);
                }
            }
            if s.contains(x) {
                let i = choose|i: int| 0 <= i < s.len() && s[i] == x;
                assert(t[i + 1] == x);
            }
            if x == b {
                assert(t[0] == x);
            }
        }
        assert(!s.contains(b)) by {
            if s.contains(b) {
                let i = choose|i: int| 0 <= i < s.len() && s[i] == b;
                if i > 0 {
                    assert(precedes(s[0], s[i]));
                }
            }
        }
    } else {
        let s_rest = s.drop_first();
        let t_rest = sorted_insert(s_rest, b);
        assert(is_sorted(s_rest)) by {
            assert forall|i: int, j: int| 0 <= i < j < s_rest.len() implies precedes(
                #[trigger] s_rest[i],
                #[trigger] s_rest[j],
            ) by {
                assert(s_rest[i] == s[i + 1] && s_rest[j] == s[j + 1]);
            }
        }
        lemma_sorted_insert(s_rest, b);
        assert(precedes(s[0], b));
        assert forall|x: BlockIndex<VPS>| s.contains(x) <==> (s_rest.contains(x) || x == s[0]) by {
            if s.contains(x) {
                let i = choose|i: int| 0 <= i < s.len() && s[i] == x;
                if i > 0 {
                    assert(s_rest[i - 1] == x);
                }
            }
            if s_rest.contains(x) {
                let i = choose|i: int| 0 <= i < s_rest.len() && s_rest[i] == x;
                assert(s[i + 1] == x);
            }
            if x == s[0] {
                assert(s[0] == x);
            }
        }
        assert forall|i: int, j: int| 0 <= i < j < t.len() implies precedes(
            #[trigger] t[i],
            #[trigger] t[j],
        ) by {
            assert(t[j] == t_rest[j - 1]);
            if i == 0 {
                assert(t_rest.contains(t_rest[j - 1]));
                if t_rest[j - 1] != b {
                    assert(s_rest.contains(t_rest[j - 1]));
                    let k = choose|k: int| 0 <= k < s_rest.len() && s_rest[k] == t_rest[j - 1];
                    assert(s[k + 1] == t_rest[j - 1]);
                    assert(precedes(s[0], s[k + 1]));
                }
            } else {
                assert(t[i] == t_rest[i - 1]);
            }
        }
        assert forall|x: BlockIndex<VPS>| t.contains(x) <==> (s.contains(x) || x == b) by {
            if t.contains(x) {
                let i = choose|i: int| 0 <= i < t.len() && t[i] == x;
                if i > 0 {
                    assert(t_rest[i - 1] == x);
                    assert(t_rest.contains(x));
                }
            }
            if s_rest.contains(x) || x == b {
                assert(t_rest.contains(x));
                let i = choose|i: int| 0 <= i < t_rest.len() && t_rest[i] == x;
                assert(t[i + 1] == x);
            }
            if x == s[0] {
                assert(t[0] == x);
            }
        }
        if s.contains(b) {
            assert(s_rest.contains(b));
            assert(t_rest == s_rest);
            assert(t =~= s);
        } else {
            assert(!s_rest.contains(b));
        }
    }
}

/// A sorted sequence holds no block twice.
pub proof fn lemma_sorted_no_duplicates<const VPS: usize>(s: Seq<BlockIndex<VPS>>)
    requires
        is_sorted(s),
    ensures
        s.no_duplicates(),
{
    lemma_precedes_total_order::<VPS>();
    assert forall|i: int, j: int| 0 <= i < s.len() && 0 <= j < s.len() && i != j implies s[i] != s[j] by {
        if i < j {
            assert(precedes(s[i], s[j]));
        } else {
            assert(precedes(s[j], s[i]));
        }
    }
}

/// A sorted sequence whose blocks all stand in another sequence is no
/// longer than that sequence.
pub proof fn lemma_sorted_subset_len<const VPS: usize>(s: Seq<BlockIndex<VPS>>, all: Seq<BlockIndex<VPS>>)
    requires
        is_sorted(s),
        forall|b: BlockIndex<VPS>| s.contains(b) ==> all.contains(b),
    ensures
        s.len() <= all.len(),
{
    lemma_sorted_no_duplicates(s);
    s.unique_seq_to_set();
    all.lemma_cardinality_of_set();
    vstd::seq_lib::seq_to_set_is_finite(all);
    assert(s.to_set().subset_of(all.to_set()));
    vstd::set_lib::lemma_len_subset(s.to_set(), all.to_set());
}

/// The blocks of a finite set in walking order.
pub open spec fn sorted_seq<const VPS: usize>(members: Set<BlockIndex<VPS>>) -> Seq<BlockIndex<VPS>> {
    choose|s: Seq<BlockIndex<VPS>>|
        is_sorted(s) && forall|b: BlockIndex<VPS>| s.contains(b) <==> members.contains(b)
}

/// A sorted sequence is the sequence of its members in walking order.
pub proof fn lemma_sorted_seq<const VPS: usize>(s: Seq<BlockIndex<VPS>>, members: Set<BlockIndex<VPS>>)
    requires
        is_sorted(s),
        forall|b: BlockIndex<VPS>| s.contains(b) <==> members.contains(b),
    ensures
        sorted_seq(members) == s,
{
    let t = sorted_seq(members);
    assert(is_sorted(t) && forall|b: BlockIndex<VPS>| t.contains(b) <==> members.contains(b));
    lemma_sorted_unique(s, t);
}

/// Every finite set of blocks has a sequence in walking order.
pub proof fn lemma_sorted_seq_exists<const VPS: usize>(members: Set<BlockIndex<VPS>>)
    requires
        members.finite(),
    ensures
        is_sorted(sorted_seq(members)),
        forall|b: BlockIndex<VPS>| sorted_seq(members).contains(b) <==> members.contains(b),
    decreases members.len(),
{
    if members.len() == 0 {
        let s = Seq::<BlockIndex<VPS>>::empty();
        assert forall|b: BlockIndex<VPS>| s.contains(b) <==> members.contains(b) by {
            if members.contains(b) {
                vstd::set_lib::lemma_set_empty_equivalency_len(members);
            }
        }
        assert(is_sorted(s) && forall|b: BlockIndex<VPS>| s.contains(b) <==> members.contains(b));
    } else {
        let x = members.choose();
        let rest = members.remove(x);
        lemma_sorted_seq_exists(rest);
        let s = sorted_seq(rest);
        lemma_sorted_insert(s, x);
        let t = sorted_insert(s, x);
        assert(is_sorted(t) && forall|b: BlockIndex<VPS>| t.contains(b) <==> members.contains(b));
    }
}

/// A set of block indices, walked in the order of `precedes`.
#[derive(Debug)]
pub struct BlockSet<const VPS: usize> {
    items: Vec<BlockIndex<VPS>>,
}

impl<const VPS: usize> View for BlockSet<VPS> {
    type V = Seq<BlockIndex<VPS>>;

    /// The blocks of the set in walking order.
    closed spec fn view(&self) -> Seq<BlockIndex<VPS>> {
        self.items@
    }
}

impl<const VPS: usize> BlockSet<VPS> {
    /// The blocks stand in walking order, so none stands twice.
    pub open spec fn wf(&self) -> bool {
        is_sorted(self@)
    }

    /// Whether the block is in the set.
    pub open spec fn spec_contains(&self, b: BlockIndex<VPS>) -> bool {
        self@.contains(b)
    }

    /// The empty set.
    pub fn new() -> (s: Self)
        ensures
            s.wf(),
            s@.len() == 0,
    {
        BlockSet { items: Vec::new() }
    }

    /// The number of blocks in the set.
    pub fn len(&self) -> (n: usize)
        ensures
            n == self@.len(),
    {
        self.items.len()
    }

    /// Whether the set holds no block.
    pub fn is_empty(&self) -> (r: bool)
        ensures
            r == (self@.len() == 0),
    {
        self.items.len() == 0
    }

    /// The blocks of the set in walking order.
    pub fn as_slice(&self) -> (s: &[BlockIndex<VPS>])
        ensures
            s@ == self@,
    {
        self.items.as_slice()
    }

    /// The place of the first block that does not come before `b`.
    fn lower_bound(&self, b: &BlockIndex<VPS>) -> (pos: usize)
        requires
            self.wf(),
        ensures
            pos <= self@.len(),
            forall|i: int| 0 <= i < pos ==> precedes(#[trigger] self@[i], *b),
            forall|i: int| pos <= i < self@.len() ==> !precedes(#[trigger] self@[i], *b),
    {
        proof {
            lemma_precedes_total_order::<VPS>();
        }
        let mut lo: usize = 0;
        let mut hi: usize = self.items.len();
        while lo < hi
            invariant
                self.wf(),
                lo <= hi <= self@.len(),
                forall|i: int| 0 <= i < lo ==> precedes(#[trigger] self@[i], *b),
                forall|i: int| hi <= i < self@.len() ==> !precedes(#[trigger] self@[i], *b),
                forall|a: BlockIndex<VPS>, b: BlockIndex<VPS>, c: BlockIndex<VPS>|
                    #[trigger] precedes(a, b) && #[trigger] precedes(b, c) ==> precedes(a, c),
            decreases hi - lo,
        {
            let mid = lo + (hi - lo) / 2;
            if comes_before(&self.items[mid], b) {
                assert forall|i: int| 0 <= i < mid + 1 implies precedes(#[trigger] self@[i], *b) by {
                    if i < mid {
                        assert(precedes(self@[i], self@[mid as int]));
                    }
                }
                lo = mid + 1;
            } else {
                assert forall|i: int| mid <= i < self@.len() implies !precedes(
                    #[trigger] self@[i],
                    *b,
                ) by {
                    if i > mid {
                        assert(precedes(self@[mid as int], self@[i]));
                    }
                }
                hi = mid;
            }
        }
        lo
    }

    /// Whether the block is in the set.
    pub fn contains(&self, b: &BlockIndex<VPS>) -> (r: bool)
        requires
            self.wf(),
        ensures
            r == self.spec_contains(*b),
    {
        proof {
            lemma_precedes_total_order::<VPS>();
        }
        let pos = self.lower_bound(b);
        if pos < self.items.len() && self.items[pos] == *b {
            assert(self@[pos as int] == *b);
            true
        } else {
            assert forall|i: int| 0 <= i < self@.len() implies self@[i] != *b by {
                if i > pos {
                    assert(precedes(self@[pos as int], self@[i]));
                }
            }
            false
        }
    }

    /// The place of the block in walking order, if it is in the set.
    pub fn position(&self, b: &BlockIndex<VPS>) -> (r: Option<usize>)
        requires
            self.wf(),
        ensures
            r is Some <==> self.spec_contains(*b),
            r matches Some(i) ==> i < self@.len() && self@[i as int] == *b,
    {
        proof {
            lemma_precedes_total_order::<VPS>();
        }
        let pos = self.lower_bound(b);
        if pos < self.items.len() && self.items[pos] == *b {
            assert(self@[pos as int] == *b);
            Some(pos)
        } else {
            assert forall|i: int| 0 <= i < self@.len() implies self@[i] != *b by {
                if i > pos {
                    assert(precedes(self@[pos as int], self@[i]));
                }
            }
            None
        }
    }

    /// Adds the block; says whether it was new.
    pub fn insert(&mut self, b: BlockIndex<VPS>) -> (added: bool)
        requires
            old(self).wf(),
        ensures
            final(self).wf(),
            added == !old(self).spec_contains(b),
            forall|x: BlockIndex<VPS>|
                final(self)@.contains(x) <==> (old(self)@.contains(x) || x == b),
            !added ==> final(self)@ == old(self)@,
            added ==> final(self)@.len() == old(self)@.len() + 1,
            final(self)@ == sorted_insert(old(self)@, b),
    {
        proof {
            lemma_precedes_total_order::<VPS>();
            lemma_sorted_insert(self@, b);
        }
        let pos = self.lower_bound(&b);
        if pos < self.items.len() && self.items[pos] == b {
            assert(self@[pos as int] == b);
            false
        } else {
            let ghost before = self@;
            assert forall|i: int| pos <= i < before.len() implies precedes(b, #[trigger] before[i]) by {
                if i > pos {
                    assert(precedes(before[pos as int], before[i]));
                }
            }
            self.items.insert(pos, b);
            proof {
                let after = self@;
                assert(after == before.insert(pos as int, b));
                assert forall|i: int, j: int| 0 <= i < j < after.len() implies precedes(
                    #[trigger] after[i],
                    #[trigger] after[j],
                ) by {
                    if j < pos {
                        assert(after[i] == before[i] && after[j] == before[j]);
                    } else if j == pos {
                        assert(after[i] == before[i]);
                    } else if i < pos {
                        assert(after[i] == before[i] && after[j] == before[j - 1]);
                        assert(precedes(before[i], b));
                        assert(precedes(b, before[j - 1]));
                    } else if i == pos {
                        assert(after[j] == before[j - 1]);
                    } else {
                        assert(after[i] == before[i - 1] && after[j] == before[j - 1]);
                    }
                }
                assert forall|x: BlockIndex<VPS>| after.contains(x) <==> (before.contains(x) || x
                    == b) by {
                    if after.contains(x) {
                        let i = choose|i: int| 0 <= i < after.len() && after[i] == x;
                        if i < pos {
                            assert(before[i] == x);
                        } else if i > pos {
                            assert(before[i - 1] == x);
                        }
                    }
                    if before.contains(x) {
                        let i = choose|i: int| 0 <= i < before.len() && before[i] == x;
                        if i < pos {
                            assert(after[i] == x);
                        } else {
                            assert(after[i + 1] == x);
                        }
                    }
                    if x == b {
                        assert(after[pos as int] == x);
                    }
                }
                assert(!before.contains(b)) by {
                    if before.contains(b) {
                        let i = choose|i: int| 0 <= i < before.len() && before[i] == b;
                        if i < pos {
                            assert(precedes(before[i], b));
                        } else {
                            assert(precedes(b, before[i]));
                        }
                    }
                }
                lemma_sorted_unique(after, sorted_insert(before, b));
            }
            true
        }
    }

    /// Takes the first block in walking order out of the set.
    pub fn pop_first(&mut self) -> (r: Option<BlockIndex<VPS>>)
        requires
            old(self).wf(),
        ensures
            final(self).wf(),
            old(self)@.len() == 0 ==> r is None && final(self)@ == old(self)@,
            old(self)@.len() > 0 ==> r == Some(old(self)@[0]) && final(self)@ == old(self)@.drop_first(),
    {
        if self.items.len() == 0 {
            None
        } else {
            let ghost before = self@;
            let first = self.items.remove(0);
            proof {
                let after = self@;
                assert(after =~= before.drop_first());
                assert forall|i: int, j: int| 0 <= i < j < after.len() implies precedes(
                    #[trigger] after[i],
                    #[trigger] after[j],
                ) by {
                    assert(after[i] == before[i + 1] && after[j] == before[j + 1]);
                }
            }
            Some(first)
        }
    }
}

impl<const VPS: usize> Clone for BlockSet<VPS> {
    fn clone(&self) -> (s: Self)
        ensures
            s@ == self@,
    {
        let mut items: Vec<BlockIndex<VPS>> = Vec::with_capacity(self.items.len());
        let mut i: usize = 0;
        while i < self.items.len()
            invariant
                i <= self.items@.len(),
                items@ == self.items@.take(i as int),
            decreases self.items@.len() - i,
        {
            items.push(self.items[i]);
            proof {
                assert(self.items@.take(i + 1) =~= self.items@.take(i as int).push(
                    self.items@[i as int],
                ));
            }
            i += 1;
        }
        proof {
            assert(self.items@.take(i as int) =~= self.items@);
        }
        BlockSet { items }
    }
}

} // verus!
