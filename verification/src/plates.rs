//! Plate inventories and the selections that can be made from them.
//!
//! An inventory maps each owned plate weight (in tenths of a unit) to how
//! many such plates are owned per side.  A *selection* picks, for each kind
//! of plate, how many of them to put on one side of the bar; the selection
//! model below is what the resolution engine's contracts are stated over.

use vstd::prelude::*;

verus! {

use vstd::arithmetic::mul::{lemma_mul_inequality, lemma_mul_nonnegative};
use vstd::pervasive::VecAdditionalExecFns;

/// One kind of owned plate: its weight in tenths of a unit, and how many
/// such plates are owned (per side of the bar).
#[derive(Debug, Clone, Copy, PartialEq, Eq, Structural)]
pub struct PlateEntry {
    /// Plate weight, in tenths of a unit.  Never zero.
    pub weight: u32,
    /// How many plates of this weight are owned, per side.
    pub count: u32,
}

/// A well-formed inventory: weights are positive and strictly descending,
/// hence distinct.
pub open spec fn inv_wf(inv: Seq<PlateEntry>) -> bool {
    &&& forall|i: int| 0 <= i < inv.len() ==> (#[trigger] inv[i]).weight > 0
    &&& forall|i: int, j: int|
        #![trigger inv[i].weight, inv[j].weight]
        0 <= i < j < inv.len() ==> inv[i].weight > inv[j].weight
}

/// How many plates of weight `w` the inventory holds.
pub open spec fn inv_count(inv: Seq<PlateEntry>, w: u32) -> int
    decreases inv.len(),
{
    if inv.len() == 0 {
        0
    } else {
        inv_count(inv.drop_last(), w) + if inv.last().weight == w {
            inv.last().count as int
        } else {
            0
        }
    }
}

/// `sel` is a selection over the first `n` kinds of plate: it picks, for
/// each kind, how many plates to use, within the owned count.
pub open spec fn sel_ok(inv: Seq<PlateEntry>, sel: Seq<int>, n: int) -> bool {
    &&& 0 <= n <= inv.len()
    &&& sel.len() == n
    &&& forall|i: int| 0 <= i < n ==> 0 <= #[trigger] sel[i] <= inv[i].count
}

/// The side weight of a selection over the first `n` kinds: the sum of the
/// picked plates' weights, in tenths.
pub open spec fn sel_weight(inv: Seq<PlateEntry>, sel: Seq<int>, n: int) -> int
    decreases n,
{
    if n <= 0 {
        0
    } else {
        sel_weight(inv, sel, n - 1) + sel[n - 1] * inv[n - 1].weight
    }
}

/// How many plates a selection over the first `n` kinds uses in all.
pub open spec fn sel_count(sel: Seq<int>, n: int) -> int
    decreases n,
{
    if n <= 0 {
        0
    } else {
        sel_count(sel, n - 1) + sel[n - 1]
    }
}

/// The heaviest achievable side weight over the first `n` kinds: every
/// plate of every kind.
pub open spec fn max_side(inv: Seq<PlateEntry>, n: int) -> int
    decreases n,
{
    if n <= 0 {
        0
    } else {
        max_side(inv, n - 1) + (inv[n - 1].count as int) * (inv[n - 1].weight as int)
    }
}

/// Two selections that agree on the first `n` entries have the same weight
/// and plate count there.
pub proof fn lemma_sel_agree(inv: Seq<PlateEntry>, s1: Seq<int>, s2: Seq<int>, n: int)
    requires
        forall|i: int| 0 <= i < n ==> s1[i] == s2[i],
    ensures
        sel_weight(inv, s1, n) == sel_weight(inv, s2, n),
        sel_count(s1, n) == sel_count(s2, n),
    decreases n,
{
    if n > 0 {
        lemma_sel_agree(inv, s1, s2, n - 1);
    }
}

/// A selection's weight is between 0 and the heaviest achievable side
/// weight, and it uses a non-negative number of plates.
pub proof fn lemma_sel_weight_bounds(inv: Seq<PlateEntry>, sel: Seq<int>, n: int)
    requires
        forall|i: int| 0 <= i < n ==> 0 <= #[trigger] sel[i] <= inv[i].count,
        0 <= n <= inv.len(),
    ensures
        0 <= sel_weight(inv, sel, n) <= max_side(inv, n),
        0 <= sel_count(sel, n),
    decreases n,
{
    if n > 0 {
        lemma_sel_weight_bounds(inv, sel, n - 1);
        lemma_mul_nonnegative(sel[n - 1], inv[n - 1].weight as int);
        lemma_mul_inequality(sel[n - 1], inv[n - 1].count as int, inv[n - 1].weight as int);
    }
}

/// A selection that picks nothing weighs nothing and uses no plates.
pub proof fn lemma_sel_zero_prefix(inv: Seq<PlateEntry>, sel: Seq<int>, n: int)
    requires
        forall|k: int| 0 <= k < n ==> sel[k] == 0,
    ensures
        sel_weight(inv, sel, n) == 0,
        sel_count(sel, n) == 0,
    decreases n,
{
    if n > 0 {
        lemma_sel_zero_prefix(inv, sel, n - 1);
        assert(sel[n - 1] * inv[n - 1].weight == 0);
    }
}

/// An inventory holds a non-negative number of plates of any weight.
pub proof fn lemma_inv_count_nonneg(inv: Seq<PlateEntry>, w: u32)
    ensures
        0 <= inv_count(inv, w),
    decreases inv.len(),
{
    if inv.len() > 0 {
        lemma_inv_count_nonneg(inv.drop_last(), w);
    }
}

/// The heaviest achievable side weight only grows as more kinds of plate
/// are considered.
pub proof fn lemma_max_side_monotonic(inv: Seq<PlateEntry>, n: int, m: int)
    requires
        0 <= n <= m,
    ensures
        max_side(inv, n) <= max_side(inv, m),
    decreases m - n,
{
    if n < m {
        lemma_max_side_monotonic(inv, n, m - 1);
        lemma_mul_nonnegative(inv[m - 1].count as int, inv[m - 1].weight as int);
    }
}

/// How many plates of weight `w` a loadout contains.
pub open spec fn occ(s: Seq<u32>, w: u32) -> int
    decreases s.len(),
{
    if s.len() == 0 {
        0
    } else {
        occ(s.drop_last(), w) + if s.last() == w {
            1int
        } else {
            0int
        }
    }
}

/// The sum of a loadout's plate weights, in tenths.
pub open spec fn loadout_sum(s: Seq<u32>) -> int
    decreases s.len(),
{
    if s.len() == 0 {
        0
    } else {
        loadout_sum(s.drop_last()) + s.last()
    }
}

/// The loadout lists its plates heaviest first.
pub open spec fn sorted_desc(s: Seq<u32>) -> bool {
    forall|i: int, j: int|
        #![trigger s[i], s[j]]
        0 <= i < j < s.len() ==> s[i] >= s[j]
}

/// The loadout only uses owned plates: of each weight, no more than the
/// inventory holds.
pub open spec fn loadout_within(inv: Seq<PlateEntry>, s: Seq<u32>) -> bool {
    forall|w: u32| #[trigger] occ(s, w) <= inv_count(inv, w)
}

/// Appending one plate to a loadout raises exactly that weight's count.
pub proof fn lemma_occ_push(s: Seq<u32>, x: u32, w: u32)
    ensures
        occ(s.push(x), w) == occ(s, w) + if x == w {
            1int
        } else {
            0int
        },
{
    assert(s.push(x).drop_last() =~= s);
}

/// Appending one plate to a loadout adds its weight to the sum.
pub proof fn lemma_loadout_sum_push(s: Seq<u32>, x: u32)
    ensures
        loadout_sum(s.push(x)) == loadout_sum(s) + x,
{
    assert(s.push(x).drop_last() =~= s);
}

/// A loadout with no plate of weight `w` counts zero of it.
pub proof fn lemma_occ_absent(s: Seq<u32>, w: u32)
    requires
        forall|j: int| 0 <= j < s.len() ==> s[j] != w,
    ensures
        occ(s, w) == 0,
    decreases s.len(),
{
    if s.len() > 0 {
        lemma_occ_absent(s.drop_last(), w);
    }
}

/// Plate counts split over concatenation of inventories.
pub proof fn lemma_inv_count_concat(a: Seq<PlateEntry>, b: Seq<PlateEntry>, w: u32)
    ensures
        inv_count(a + b, w) == inv_count(a, w) + inv_count(b, w),
    decreases b.len(),
{
    if b.len() == 0 {
        assert(a + b =~= a);
    } else {
        lemma_inv_count_concat(a, b.drop_last(), w);
        assert((a + b).drop_last() =~= a + b.drop_last());
    }
}

/// An inventory none of whose entries weigh `w` holds no plate of weight
/// `w`.
pub proof fn lemma_inv_count_absent(inv: Seq<PlateEntry>, w: u32)
    requires
        forall|i: int| 0 <= i < inv.len() ==> (#[trigger] inv[i]).weight != w,
    ensures
        inv_count(inv, w) == 0,
    decreases inv.len(),
{
    if inv.len() > 0 {
        lemma_inv_count_absent(inv.drop_last(), w);
    }
}

/// In a well-formed inventory, the count of an entry's weight is exactly
/// that entry's count field.
pub proof fn lemma_inv_count_at(inv: Seq<PlateEntry>, i: int)
    requires
        inv_wf(inv),
        0 <= i < inv.len(),
    ensures
        inv_count(inv, inv[i].weight) == inv[i].count,
{
    let w = inv[i].weight;
    let a = inv.subrange(0, i);
    let mid = seq![inv[i]];
    let b = inv.subrange(i + 1, inv.len() as int);
    assert(inv =~= a + mid + b);
    lemma_inv_count_concat(a + mid, b, w);
    lemma_inv_count_concat(a, mid, w);
    assert(inv_count(mid, w) == inv[i].count) by {
        assert(inv_count(Seq::<PlateEntry>::empty(), w) == 0);
        assert(mid.drop_last() =~= Seq::<PlateEntry>::empty());
    }
    lemma_inv_count_absent(a, w);
    lemma_inv_count_absent(b, w);
}

/// A plate inventory: which plates are owned, and how many of each, per
/// side of the bar.  Weights are kept strictly descending.
#[derive(Debug, Clone)]
pub struct Plates {
    entries: Vec<PlateEntry>,
}

impl View for Plates {
    type V = Seq<PlateEntry>;

    closed spec fn view(&self) -> Seq<PlateEntry> {
        self.entries@
    }
}

impl Plates {
    /// The inventory's well-formedness invariant.
    pub open spec fn wf(&self) -> bool {
        inv_wf(self@)
    }

    /// An inventory with no plates at all.
    pub fn empty() -> (r: Plates)
        ensures
            r.wf(),
            r@.len() == 0,
    {
        Plates { entries: Vec::new() }
    }

    /// The inventory's entries, heaviest kind first.
    pub fn entries(&self) -> (r: &Vec<PlateEntry>)
        ensures
            r@ == self@,
    {
        &self.entries
    }

    /// Add `count` plates of weight `weight` to the inventory.  A zero
    /// weight or a zero count is ignored: neither can contribute to a side.
    pub fn add_plates(&mut self, weight: u32, count: u32)
        requires
            old(self).wf(),
            inv_count(old(self)@, weight) + count <= u32::MAX,
        ensures
            final(self).wf(),
            forall|w: u32|
                #[trigger] inv_count(final(self)@, w) == inv_count(old(self)@, w) + if w == weight
                    && w != 0 && count != 0 {
                    count as int
                } else {
                    0int
                },
    {
        if weight == 0 || count == 0 {
            return ;
        }
        let mut i: usize = 0;
        while i < self.entries.len() && self.entries[i].weight > weight
            invariant
                0 <= i <= self.entries.len(),
                forall|k: int| 0 <= k < i ==> (#[trigger] self.entries@[k]).weight > weight,
            decreases self.entries.len() - i,
        {
            i = i + 1;
        }
        if i < self.entries.len() && self.entries[i].weight == weight {
            proof {
                lemma_inv_count_at(self@, i as int);
            }
            let fresh = PlateEntry { weight, count: self.entries[i].count + count };
            let ghost prev = self@;
            self.entries.set(i, fresh);
            proof {
                lemma_update_counts(prev, self@, i as int, weight, count);
            }
        } else {
            let ghost prev = self@;
            self.entries.insert(i, PlateEntry { weight, count });
            proof {
                lemma_insert_counts(prev, self@, i as int, weight, count);
            }
        }
    }
}

/// How many plates of weight `w` the inventory holds.
impl Plates {
    /// The owned count of plates of weight `w`.
    pub fn count_of(&self, w: u32) -> (r: u32)
        requires
            self.wf(),
        ensures
            r == inv_count(self@, w),
    {
        let mut i: usize = 0;
        while i < self.entries.len()
            invariant
                0 <= i <= self.entries@.len(),
                self.wf(),
                forall|k: int| 0 <= k < i ==> (#[trigger] self.entries@[k]).weight != w,
            decreases self.entries@.len() - i,
        {
            if self.entries[i].weight == w {
                proof {
                    lemma_inv_count_at(self@, i as int);
                }
                return self.entries[i].count;
            }
            i = i + 1;
        }
        proof {
            lemma_inv_count_absent(self@, w);
        }
        0
    }
}

/// The built-in default inventory a plan falls back to: six 45s and a
/// pair each of 35, 25, 10, 5 and 2.5 (weights in tenths, per side).
pub fn default_inventory() -> (r: Plates)
    ensures
        r.wf(),
        r@ == seq![
            PlateEntry { weight: 450, count: 6 },
            PlateEntry { weight: 350, count: 2 },
            PlateEntry { weight: 250, count: 2 },
            PlateEntry { weight: 100, count: 2 },
            PlateEntry { weight: 50, count: 2 },
            PlateEntry { weight: 25, count: 2 },
        ],
{
    let mut entries: Vec<PlateEntry> = Vec::new();
    entries.push(PlateEntry { weight: 450, count: 6 });
    entries.push(PlateEntry { weight: 350, count: 2 });
    entries.push(PlateEntry { weight: 250, count: 2 });
    entries.push(PlateEntry { weight: 100, count: 2 });
    entries.push(PlateEntry { weight: 50, count: 2 });
    entries.push(PlateEntry { weight: 25, count: 2 });
    proof {
        assert(entries@ =~= seq![
            PlateEntry { weight: 450, count: 6 },
            PlateEntry { weight: 350, count: 2 },
            PlateEntry { weight: 250, count: 2 },
            PlateEntry { weight: 100, count: 2 },
            PlateEntry { weight: 50, count: 2 },
            PlateEntry { weight: 25, count: 2 },
        ]);
    }
    Plates { entries }
}

/// Raising one entry's count by `count` raises exactly that weight's
/// inventory count, and keeps the inventory well-formed.
proof fn lemma_update_counts(prev: Seq<PlateEntry>, cur: Seq<PlateEntry>, i: int, weight: u32, count: u32)
    requires
        inv_wf(prev),
        0 <= i < prev.len(),
        prev[i].weight == weight,
        cur =~= prev.update(i, PlateEntry { weight, count: (prev[i].count + count) as u32 }),
        prev[i].count + count <= u32::MAX,
    ensures
        inv_wf(cur),
        forall|w: u32|
            #[trigger] inv_count(cur, w) == inv_count(prev, w) + if w == weight {
                count as int
            } else {
                0int
            },
{
    let a = prev.subrange(0, i);
    let b = prev.subrange(i + 1, prev.len() as int);
    let old_mid = seq![prev[i]];
    let new_mid = seq![cur[i]];
    assert(prev =~= a + old_mid + b);
    assert(cur =~= a + new_mid + b);
    assert forall|w: u32|
        #[trigger] inv_count(cur, w) == inv_count(prev, w) + if w == weight {
            count as int
        } else {
            0int
        } by {
        lemma_inv_count_concat(a + old_mid, b, w);
        lemma_inv_count_concat(a, old_mid, w);
        lemma_inv_count_concat(a + new_mid, b, w);
        lemma_inv_count_concat(a, new_mid, w);
        assert(inv_count(Seq::<PlateEntry>::empty(), w) == 0);
        assert(old_mid.drop_last() =~= Seq::<PlateEntry>::empty());
        assert(new_mid.drop_last() =~= Seq::<PlateEntry>::empty());
    }
}

/// Inserting a new entry for an absent weight adds exactly its count, and
/// keeps the inventory well-formed when the position respects the order.
proof fn lemma_insert_counts(prev: Seq<PlateEntry>, cur: Seq<PlateEntry>, i: int, weight: u32, count: u32)
    requires
        inv_wf(prev),
        0 <= i <= prev.len(),
        forall|k: int| 0 <= k < i ==> (#[trigger] prev[k]).weight > weight,
        i < prev.len() ==> prev[i].weight < weight,
        weight > 0,
        cur =~= prev.insert(i, PlateEntry { weight, count }),
    ensures
        inv_wf(cur),
        forall|w: u32|
            #[trigger] inv_count(cur, w) == inv_count(prev, w) + if w == weight {
                count as int
            } else {
                0int
            },
{
    let a = prev.subrange(0, i);
    let b = prev.subrange(i, prev.len() as int);
    let mid = seq![PlateEntry { weight, count }];
    assert(prev =~= a + b);
    assert(cur =~= a + mid + b);
    assert(inv_wf(cur)) by {
        assert forall|p: int, q: int|
            #![trigger cur[p].weight, cur[q].weight]
            0 <= p < q < cur.len() implies cur[p].weight > cur[q].weight by {
            if p < i && q == i {
                assert(cur[p] == prev[p]);
            } else if p == i && q > i {
                assert(cur[q] == prev[q - 1]);
                assert(i < prev.len());
                assert(prev[i].weight >= prev[q - 1].weight);
            } else if p < i && q > i {
                assert(cur[p] == prev[p] && cur[q] == prev[q - 1]);
            } else if p > i && q > i {
                assert(cur[p] == prev[p - 1] && cur[q] == prev[q - 1]);
            }
        }
    }
    assert forall|w: u32|
        #[trigger] inv_count(cur, w) == inv_count(prev, w) + if w == weight {
            count as int
        } else {
            0int
        } by {
        lemma_inv_count_concat(a, b, w);
        lemma_inv_count_concat(a + mid, b, w);
        lemma_inv_count_concat(a, mid, w);
        assert(inv_count(Seq::<PlateEntry>::empty(), w) == 0);
        assert(mid.drop_last() =~= Seq::<PlateEntry>::empty());
        if w == weight {
            assert forall|k: int| 0 <= k < a.len() implies (#[trigger] a[k]).weight != w by {}
            lemma_inv_count_absent(a, w);
            assert forall|k: int| 0 <= k < b.len() implies (#[trigger] b[k]).weight != w by {
                if i < prev.len() {
                    assert(b[k] == prev[i + k]);
                    assert(prev[i].weight >= prev[i + k].weight);
                }
            }
            lemma_inv_count_absent(b, w);
        }
    }
}

} // verus!
