//! The plate-inventory resolution engine.
//!
//! From an inventory of owned plates, the engine derives every achievable
//! side weight together with a loadout using as few plates as possible,
//! then keys the doubled weights (plus the bar) by the quantized ordering
//! key.  One table entry is kept per achievable side weight; whenever an
//! incoming loadout reaches a weight already present, the stored loadout
//! is replaced only if the incoming one uses strictly fewer plates, so
//! ties keep the loadout seen first.

use vstd::prelude::*;

verus! {

use crate::keys::{key_cmp, key_le, lemma_key_order_total, WeightKey};
use vstd::seq_lib::group_to_multiset_ensures;

broadcast use group_to_multiset_ensures;
use crate::plates::{
    inv_count, lemma_inv_count_at, lemma_inv_count_nonneg, lemma_loadout_sum_push,
    lemma_max_side_monotonic, lemma_occ_absent, lemma_occ_push, lemma_sel_agree,
    lemma_sel_weight_bounds, lemma_sel_zero_prefix, loadout_sum, loadout_within, max_side, occ,
    sel_count, sel_ok, sel_weight, sorted_desc, PlateEntry, Plates,
};
use vstd::pervasive::VecAdditionalExecFns;

/// One enumerated side: an achievable side weight in tenths, a loadout
/// reaching it, and (ghost) the selection the loadout was built from.
pub struct SideEntry {
    /// The side weight, in tenths of a unit.
    pub side: u64,
    /// The plates reaching that side weight, heaviest first.
    pub loadout: Vec<u32>,
    /// The witnessing selection over the inventory.
    pub sel: Ghost<Seq<int>>,
}

/// The entry is internally consistent over the first `n` kinds of plate.
pub open spec fn cand_ok(
    inv: Seq<PlateEntry>,
    n: int,
    side: u64,
    loadout: Seq<u32>,
    sel: Seq<int>,
) -> bool {
    &&& sel_ok(inv, sel, n)
    &&& sel_weight(inv, sel, n) == side
    &&& sel_count(sel, n) == loadout.len()
    &&& sorted_desc(loadout)
    &&& loadout_sum(loadout) == side
    &&& forall|k: int| 0 <= k < n ==> #[trigger] occ(loadout, inv[k].weight) == sel[k]
    &&& forall|j: int|
        0 <= j < loadout.len() ==> exists|k: int|
            0 <= k < n && #[trigger] loadout[j] == inv[k].weight
}

/// All of a table's entries are consistent over the first `n` kinds.
pub open spec fn side_entry_ok(inv: Seq<PlateEntry>, n: int, e: SideEntry) -> bool {
    cand_ok(inv, n, e.side, e.loadout@, e.sel@)
}

/// Every entry of the table is consistent over the first `n` kinds.
pub open spec fn entries_ok(inv: Seq<PlateEntry>, n: int, t: Seq<SideEntry>) -> bool {
    forall|b: int| 0 <= b < t.len() ==> side_entry_ok(inv, n, #[trigger] t[b])
}

/// No two entries of the table share a side weight.
pub open spec fn distinct_sides(t: Seq<SideEntry>) -> bool {
    forall|a: int, b: int|
        #![trigger t[a].side, t[b].side]
        0 <= a < b < t.len() ==> t[a].side != t[b].side
}

/// Some entry reaches side weight `s` with at most `c` plates.
pub open spec fn covers(t: Seq<SideEntry>, s: int, c: int) -> bool {
    exists|b: int| 0 <= b < t.len() && (#[trigger] t[b]).side == s && t[b].loadout@.len() <= c
}

/// Every selection over the first `n` kinds is covered: the table reaches
/// its side weight with no more plates than the selection uses.
pub open spec fn all_covered(inv: Seq<PlateEntry>, t: Seq<SideEntry>, n: int) -> bool {
    forall|sel: Seq<int>|
        #[trigger] sel_ok(inv, sel, n) ==> covers(t, sel_weight(inv, sel, n), sel_count(sel, n))
}

/// The table reaches, for table entry `ap` extended by `jx` plates of
/// weight `w`, the extended side weight with no more plates than that.
pub open spec fn step_covered(
    t: Seq<SideEntry>,
    prev: Seq<SideEntry>,
    w: u32,
    ap: int,
    jx: int,
) -> bool {
    covers(t, prev[ap].side + jx * w, prev[ap].loadout@.len() + jx)
}

/// Fold one enumerated pair into the table: insert it if its side weight
/// is new, replace the stored loadout only if the incoming one uses
/// strictly fewer plates.  Ties keep the stored (first-seen) loadout.
fn upsert(t: &mut Vec<SideEntry>, e: SideEntry, Ghost(inv): Ghost<Seq<PlateEntry>>, Ghost(n): Ghost<int>)
    requires
        entries_ok(inv, n, old(t)@),
        distinct_sides(old(t)@),
        side_entry_ok(inv, n, e),
    ensures
        entries_ok(inv, n, final(t)@),
        distinct_sides(final(t)@),
        covers(final(t)@, e.side as int, e.loadout@.len() as int),
        forall|s: int, c: int| #[trigger] covers(old(t)@, s, c) ==> covers(final(t)@, s, c),
{
    let ghost t0 = old(t)@;
    let mut b: usize = 0;
    while b < t.len()
        invariant_except_break
            0 <= b <= t@.len(),
            t@ == t0,
            forall|k: int| 0 <= k < b ==> (#[trigger] t@[k]).side != e.side,
        ensures
            0 <= b <= t@.len(),
            t@ == t0,
            forall|k: int| 0 <= k < b ==> (#[trigger] t@[k]).side != e.side,
            b < t@.len() ==> t@[b as int].side == e.side,
        decreases t@.len() - b,
    {
        if t[b].side == e.side {
            break ;
        }
        b = b + 1;
    }
    if b < t.len() {
        if e.loadout.len() < t[b].loadout.len() {
            let ghost eview = e;
            t.set(b, e);
            proof {
                assert(t@ =~= t0.update(b as int, eview));
                assert(covers(t@, eview.side as int, eview.loadout@.len() as int)) by {
                    assert(t@[b as int].side == eview.side);
                }
                assert(entries_ok(inv, n, t@)) by {
                    assert forall|k: int| 0 <= k < t@.len() implies side_entry_ok(
                        inv,
                        n,
                        #[trigger] t@[k],
                    ) by {
                        if k != b as int {
                            assert(t@[k] == t0[k]);
                        }
                    }
                }
                assert(distinct_sides(t@)) by {
                    assert forall|x: int, y: int|
                        #![trigger t@[x].side, t@[y].side]
                        0 <= x < y < t@.len() implies t@[x].side != t@[y].side by {
                        assert(t@[x].side == t0[x].side && t@[y].side == t0[y].side);
                    }
                }
                assert forall|s: int, c: int| #[trigger] covers(t0, s, c) implies covers(
                    t@,
                    s,
                    c,
                ) by {
                    let b0 = choose|k: int|
                        0 <= k < t0.len() && (#[trigger] t0[k]).side == s && t0[k].loadout@.len()
                            <= c;
                    assert(t@[b0].side == s && t@[b0].loadout@.len() <= c);
                }
            }
        } else {
            proof {
                assert(covers(t@, e.side as int, e.loadout@.len() as int)) by {
                    assert(t@[b as int].side == e.side);
                    assert(t@[b as int].loadout@.len() <= e.loadout@.len());
                }
            }
        }
    } else {
        let ghost eview = e;
        t.push(e);
        proof {
            assert(t@ =~= t0.push(eview));
            assert(covers(t@, eview.side as int, eview.loadout@.len() as int)) by {
                assert(t@[t0.len() as int].side == eview.side);
            }
            assert(entries_ok(inv, n, t@)) by {
                assert forall|k: int| 0 <= k < t@.len() implies side_entry_ok(
                    inv,
                    n,
                    #[trigger] t@[k],
                ) by {
                    if k < t0.len() {
                        assert(t@[k] == t0[k]);
                    } else {
                        assert(t@[k] == eview);
                    }
                }
            }
            assert(distinct_sides(t@)) by {
                assert forall|x: int, y: int|
                    #![trigger t@[x].side, t@[y].side]
                    0 <= x < y < t@.len() implies t@[x].side != t@[y].side by {
                    if y < t0.len() {
                    } else {
                        assert(t@[x].side == t0[x].side);
                        assert(t@[y].side == eview.side);
                    }
                }
            }
            assert forall|s: int, c: int| #[trigger] covers(t0, s, c) implies covers(t@, s, c) by {
                let b0 = choose|k: int|
                    0 <= k < t0.len() && (#[trigger] t0[k]).side == s && t0[k].loadout@.len() <= c;
                assert(t@[b0].side == s && t@[b0].loadout@.len() <= c);
            }
        }
    }
}


/// Copy a loadout.
fn clone_u32_vec(v: &Vec<u32>) -> (r: Vec<u32>)
    ensures
        r@ == v@,
{
    let r = v.clone();
    proof {
        assert forall|i: int| 0 <= i < v@.len() implies r@[i] == v@[i] by {}
        assert(r@ =~= v@);
    }
    r
}

/// Enumerate every achievable side weight of the inventory, each with a
/// loadout that no selection reaching the same side weight can beat on
/// plate count.  The empty selection is included, so side weight 0 is
/// always present with an empty loadout.
pub fn enumerate_sides(inv: &Plates) -> (out: Vec<SideEntry>)
    requires
        inv.wf(),
        max_side(inv@, inv@.len() as int) <= u64::MAX,
    ensures
        entries_ok(inv@, inv@.len() as int, out@),
        distinct_sides(out@),
        all_covered(inv@, out@, inv@.len() as int),
{
    let entries = inv.entries();
    let mut table: Vec<SideEntry> = Vec::new();
    table.push(SideEntry { side: 0, loadout: Vec::new(), sel: Ghost(Seq::empty()) });
    proof {
        assert(side_entry_ok(inv@, 0, table@[0]));
        assert(all_covered(inv@, table@, 0)) by {
            assert forall|sel: Seq<int>| #[trigger] sel_ok(inv@, sel, 0) implies covers(
                table@,
                sel_weight(inv@, sel, 0),
                sel_count(sel, 0),
            ) by {
                assert(table@[0].side == 0 && table@[0].loadout@.len() <= 0);
            }
        }
    }
    let mut i: usize = 0;
    while i < entries.len()
        invariant
            inv.wf(),
            entries@ == inv@,
            max_side(inv@, inv@.len() as int) <= u64::MAX,
            0 <= i <= entries@.len(),
            entries_ok(inv@, i as int, table@),
            distinct_sides(table@),
            all_covered(inv@, table@, i as int),
        decreases entries@.len() - i,
    {
        let w = entries[i].weight;
        let c = entries[i].count;
        let c64 = c as u64;
        let mut next: Vec<SideEntry> = Vec::new();
        let mut a: usize = 0;
        while a < table.len()
            invariant
                inv.wf(),
                entries@ == inv@,
                max_side(inv@, inv@.len() as int) <= u64::MAX,
                0 <= i < entries@.len(),
                w == inv@[i as int].weight,
                c == inv@[i as int].count,
                c64 == c as u64,
                entries_ok(inv@, i as int, table@),
                distinct_sides(table@),
                0 <= a <= table@.len(),
                entries_ok(inv@, i as int + 1, next@),
                distinct_sides(next@),
                forall|ap: int, jx: int|
                    0 <= ap < a && 0 <= jx <= c ==> #[trigger] step_covered(
                        next@,
                        table@,
                        w,
                        ap,
                        jx,
                    ),
            decreases table@.len() - a,
        {
            let entry = &table[a];
            let ghost base_sel = entry.sel@;
            let mut cur_loadout = clone_u32_vec(&entry.loadout);
            let mut cur_side: u64 = entry.side;
            let ghost mut cur_sel = base_sel.push(0);
            proof {
                assert(side_entry_ok(inv@, i as int, table@[a as int]));
                lemma_sel_agree(inv@, cur_sel, base_sel, i as int);
                assert(sel_weight(inv@, cur_sel, i as int + 1) == sel_weight(
                    inv@,
                    base_sel,
                    i as int,
                ) + 0 * (w as int));
                assert(sel_count(cur_sel, i as int + 1) == sel_count(base_sel, i as int));
                assert forall|jj: int| 0 <= jj < cur_loadout@.len() implies cur_loadout@[jj]
                    != w by {
                    assert(cur_loadout@[jj] == table@[a as int].loadout@[jj]);
                    let k = choose|k: int|
                        0 <= k < i as int && #[trigger] table@[a as int].loadout@[jj] == inv@[k].weight;
                    assert(inv@[k].weight > inv@[i as int].weight);
                }
                lemma_occ_absent(cur_loadout@, w);
                assert(cand_ok(inv@, i as int + 1, cur_side, cur_loadout@, cur_sel)) by {
                    assert forall|k: int| 0 <= k < i as int + 1 implies #[trigger] occ(
                        cur_loadout@,
                        inv@[k].weight,
                    ) == cur_sel[k] by {
                        if k < i as int {
                            assert(occ(table@[a as int].loadout@, inv@[k].weight) == base_sel[k]);
                        }
                    }
                    assert forall|jj: int| 0 <= jj < cur_loadout@.len() implies exists|k: int|
                        0 <= k < i as int + 1 && #[trigger] cur_loadout@[jj] == inv@[k].weight by {
                        let k = choose|k: int|
                            0 <= k < i as int && #[trigger] table@[a as int].loadout@[jj]
                                == inv@[k].weight;
                        assert(0 <= k < i as int + 1 && cur_loadout@[jj] == inv@[k].weight);
                    }
                }
            }
            let mut j: u64 = 0;
            while j <= c64
                invariant
                    inv.wf(),
                    entries@ == inv@,
                    max_side(inv@, inv@.len() as int) <= u64::MAX,
                    0 <= i < entries@.len(),
                    w == inv@[i as int].weight,
                    c == inv@[i as int].count,
                    c64 == c as u64,
                    entries_ok(inv@, i as int, table@),
                    distinct_sides(table@),
                    0 <= a < table@.len(),
                    entries_ok(inv@, i as int + 1, next@),
                    distinct_sides(next@),
                    forall|ap: int, jx: int|
                        0 <= ap < a && 0 <= jx <= c ==> #[trigger] step_covered(
                            next@,
                            table@,
                            w,
                            ap,
                            jx,
                        ),
                    0 <= j <= c64 + 1,
                    j <= c64 ==> cur_sel == table@[a as int].sel@.push(j as int),
                    j <= c64 ==> cand_ok(inv@, i as int + 1, cur_side, cur_loadout@, cur_sel),
                    j <= c64 ==> cur_side == table@[a as int].side + j * w,
                    j <= c64 ==> cur_loadout@.len() == table@[a as int].loadout@.len() + j,
                    forall|jx: int|
                        0 <= jx < j ==> #[trigger] step_covered(next@, table@, w, a as int, jx),
                decreases c64 + 1 - j,
            {
                let cand_loadout = clone_u32_vec(&cur_loadout);
                let ghost prev_next = next@;
                let cand = SideEntry { side: cur_side, loadout: cand_loadout, sel: Ghost(cur_sel) };
                proof {
                    assert(side_entry_ok(inv@, i as int + 1, cand));
                }
                upsert(&mut next, cand, Ghost(inv@), Ghost(i as int + 1));
                proof {
                    assert forall|ap: int, jx: int|
                        0 <= ap < a && 0 <= jx <= c implies #[trigger] step_covered(
                        next@,
                        table@,
                        w,
                        ap,
                        jx,
                    ) by {
                        assert(step_covered(prev_next, table@, w, ap, jx));
                        assert(covers(
                            prev_next,
                            table@[ap].side + jx * w,
                            table@[ap].loadout@.len() + jx,
                        ));
                        assert(covers(
                            next@,
                            table@[ap].side + jx * w,
                            table@[ap].loadout@.len() + jx,
                        ));
                    }
                    assert forall|jx: int| 0 <= jx < j + 1 implies #[trigger] step_covered(
                        next@,
                        table@,
                        w,
                        a as int,
                        jx,
                    ) by {
                        if jx < j {
                            assert(step_covered(prev_next, table@, w, a as int, jx));
                            assert(covers(
                                prev_next,
                                table@[a as int].side + jx * w,
                                table@[a as int].loadout@.len() + jx,
                            ));
                            assert(covers(
                                next@,
                                table@[a as int].side + jx * w,
                                table@[a as int].loadout@.len() + jx,
                            ));
                        } else {
                            assert(covers(next@, cand.side as int, cand.loadout@.len() as int));
                            assert(cand.side == table@[a as int].side + jx * w);
                            assert(cand.loadout@.len() == table@[a as int].loadout@.len() + jx);
                        }
                    }
                }
                if j < c64 {
                    let ghost nsel = table@[a as int].sel@.push(j as int + 1);
                    let ghost prev_loadout = cur_loadout@;
                    proof {
                        assert(sel_ok(inv@, nsel, i as int + 1));
                        lemma_sel_weight_bounds(inv@, nsel, i as int + 1);
                        lemma_max_side_monotonic(inv@, i as int + 1, inv@.len() as int);
                        lemma_sel_agree(inv@, nsel, cur_sel, i as int);
                        assert((j as int + 1) * (w as int) == j as int * (w as int) + w) by (nonlinear_arith);
                        assert(sel_weight(inv@, nsel, i as int + 1) == cur_side + w);
                        assert(cur_side + w <= u64::MAX);
                    }
                    cur_loadout.push(w);
                    cur_side = cur_side + (w as u64);
                    proof {
                        cur_sel = nsel;
                        lemma_loadout_sum_push(prev_loadout, w);
                        assert(sel_count(cur_sel, i as int + 1) == sel_count(nsel, i as int) + (
                        j as int + 1));
                        assert(cand_ok(inv@, i as int + 1, cur_side, cur_loadout@, cur_sel)) by {
                            assert forall|k: int| 0 <= k < i as int + 1 implies #[trigger] occ(
                                cur_loadout@,
                                inv@[k].weight,
                            ) == cur_sel[k] by {
                                lemma_occ_push(prev_loadout, w, inv@[k].weight);
                                if k < i as int {
                                    assert(inv@[k].weight > w);
                                    assert(occ(prev_loadout, inv@[k].weight) == nsel[k]);
                                }
                            }
                            assert(sorted_desc(cur_loadout@)) by {
                                assert forall|x: int, y: int|
                                    #![trigger cur_loadout@[x], cur_loadout@[y]]
                                    0 <= x < y < cur_loadout@.len() implies cur_loadout@[x]
                                    >= cur_loadout@[y] by {
                                    if y == cur_loadout@.len() - 1 {
                                        let k = choose|k: int|
                                            0 <= k < i as int + 1 && #[trigger] prev_loadout[x]
                                                == inv@[k].weight;
                                        assert(inv@[k].weight >= inv@[i as int].weight);
                                    } else {
                                        assert(prev_loadout[x] >= prev_loadout[y]);
                                    }
                                }
                            }
                            assert forall|jj: int| 0 <= jj < cur_loadout@.len() implies exists|
                                k: int,
                            |
                                0 <= k < i as int + 1 && #[trigger] cur_loadout@[jj]
                                    == inv@[k].weight by {
                                if jj < prev_loadout.len() {
                                    let k = choose|k: int|
                                        0 <= k < i as int + 1 && #[trigger] prev_loadout[jj]
                                            == inv@[k].weight;
                                    assert(0 <= k < i as int + 1 && cur_loadout@[jj]
                                        == inv@[k].weight);
                                } else {
                                    assert(cur_loadout@[jj] == inv@[i as int].weight);
                                }
                            }
                        }
                    }
                }
                j = j + 1;
            }
            a = a + 1;
        }
        proof {
            assert(all_covered(inv@, next@, i as int + 1)) by {
                assert forall|sel: Seq<int>| #[trigger] sel_ok(inv@, sel, i as int + 1) implies covers(
                    next@,
                    sel_weight(inv@, sel, i as int + 1),
                    sel_count(sel, i as int + 1),
                ) by {
                    let pre = sel.subrange(0, i as int);
                    assert(sel_ok(inv@, pre, i as int));
                    let b0 = choose|b: int|
                        0 <= b < table@.len() && (#[trigger] table@[b]).side == sel_weight(
                            inv@,
                            pre,
                            i as int,
                        ) && table@[b].loadout@.len() <= sel_count(pre, i as int);
                    let jx = sel[i as int];
                    assert(0 <= jx <= c);
                    assert(step_covered(next@, table@, w, b0, jx));
                    lemma_sel_agree(inv@, sel, pre, i as int);
                    let b1 = choose|b: int|
                        0 <= b < next@.len() && (#[trigger] next@[b]).side == table@[b0].side + jx
                            * w && next@[b].loadout@.len() <= table@[b0].loadout@.len() + jx;
                    assert(next@[b1].side == sel_weight(inv@, sel, i as int + 1));
                    assert(next@[b1].loadout@.len() <= sel_count(sel, i as int + 1));
                }
            }
        }
        table = next;
        i = i + 1;
    }
    table
}


/// One entry of the weight map: a total barbell weight, keyed by the
/// quantized ordering key, and the minimal loadout reaching it.
pub struct MapEntry {
    /// The total barbell weight's ordering key (always finite, at the
    /// weight's exact tenths bucket).
    pub key: WeightKey,
    /// The per-side plates reaching that total, heaviest first.
    pub loadout: Vec<u32>,
    /// The witnessing selection over the inventory.
    pub sel: Ghost<Seq<int>>,
}

/// The total barbell weight reached by a side weight: both symmetric sides
/// plus the bar, all in tenths.
pub open spec fn total_of(side: int, bar: int) -> int {
    2 * side + bar
}

/// The map entry is sound for inventory `inv` and bar weight `bar`: its
/// key is the exact total of a selection the inventory allows, and its
/// loadout realizes that selection.
pub open spec fn map_entry_ok(inv: Seq<PlateEntry>, bar: u64, e: MapEntry) -> bool {
    &&& e.key is Finite
    &&& sel_ok(inv, e.sel@, inv.len() as int)
    &&& e.key->0 == total_of(sel_weight(inv, e.sel@, inv.len() as int), bar as int)
    &&& sel_count(e.sel@, inv.len() as int) == e.loadout@.len()
    &&& sorted_desc(e.loadout@)
    &&& e.key->0 == total_of(loadout_sum(e.loadout@), bar as int)
    &&& loadout_within(inv, e.loadout@)
}

/// No two map entries share a key.
pub open spec fn distinct_keys(t: Seq<MapEntry>) -> bool {
    forall|a: int, b: int|
        #![trigger t[a].key, t[b].key]
        0 <= a < b < t.len() ==> t[a].key != t[b].key
}

/// Some map entry is keyed at total weight `total` with at most `c`
/// plates.
pub open spec fn map_covers(t: Seq<MapEntry>, total: int, c: int) -> bool {
    exists|b: int|
        0 <= b < t.len() && (#[trigger] t[b]).key is Finite && t[b].key->0 == total
            && t[b].loadout@.len() <= c
}

/// The engine's output: a mapping from total barbell weight to the
/// minimal-cardinality single-side loadout that produces it.
pub struct WeightMap {
    /// The map's entries, one per achievable total weight.
    pub entries: Vec<MapEntry>,
}

impl View for WeightMap {
    type V = Seq<MapEntry>;

    open spec fn view(&self) -> Seq<MapEntry> {
        self.entries@
    }
}

impl WeightMap {
    /// Look a key up in the map.  Returns the stored loadout exactly when
    /// some entry's key equals the queried key.
    pub fn lookup(&self, key: &WeightKey) -> (r: Option<&Vec<u32>>)
        ensures
            match r {
                Some(l) => exists|b: int|
                    0 <= b < self@.len() && (#[trigger] self@[b]).key == *key && l@
                        == self@[b].loadout@,
                None => forall|b: int| 0 <= b < self@.len() ==> (#[trigger] self@[b]).key != *key,
            },
    {
        let mut b: usize = 0;
        while b < self.entries.len()
            invariant
                0 <= b <= self@.len(),
                forall|k: int| 0 <= k < b ==> (#[trigger] self@[k]).key != *key,
            decreases self@.len() - b,
        {
            if self.entries[b].key == *key {
                return Some(&self.entries[b].loadout);
            }
            b = b + 1;
        }
        None
    }
}

/// Build the weight map for an inventory: one entry per achievable total
/// barbell weight, mapped to a loadout that no selection reaching the same
/// total can beat on plate count.  The bar's own weight is always present,
/// with an empty loadout.
pub fn resolve(inv: &Plates, bar: u64) -> (m: WeightMap)
    requires
        inv.wf(),
        total_of(max_side(inv@, inv@.len() as int), bar as int) <= i64::MAX,
    ensures
        forall|b: int| 0 <= b < m@.len() ==> map_entry_ok(inv@, bar, #[trigger] m@[b]),
        distinct_keys(m@),
        forall|sel: Seq<int>|
            #[trigger] sel_ok(inv@, sel, inv@.len() as int) ==> map_covers(
                m@,
                total_of(sel_weight(inv@, sel, inv@.len() as int), bar as int),
                sel_count(sel, inv@.len() as int),
            ),
        forall|b: int, sel: Seq<int>|
            #![trigger m@[b].key, sel_ok(inv@, sel, inv@.len() as int)]
            0 <= b < m@.len() && sel_ok(inv@, sel, inv@.len() as int) && m@[b].key->0 == total_of(
                sel_weight(inv@, sel, inv@.len() as int),
                bar as int,
            ) ==> m@[b].loadout@.len() <= sel_count(sel, inv@.len() as int),
        exists|b: int|
            0 <= b < m@.len() && (#[trigger] m@[b]).key is Finite && m@[b].key->0 == bar
                && m@[b].loadout@.len() == 0,
{
    let ghost n = inv@.len() as int;
    proof {
        lemma_max_side_monotonic(inv@, 0, n);
    }
    let out = enumerate_sides(inv);
    let mut entries: Vec<MapEntry> = Vec::new();
    let mut idx: usize = 0;
    while idx < out.len()
        invariant
            inv.wf(),
            n == inv@.len() as int,
            total_of(max_side(inv@, n), bar as int) <= i64::MAX,
            0 <= max_side(inv@, n),
            entries_ok(inv@, n, out@),
            distinct_sides(out@),
            0 <= idx <= out@.len(),
            entries@.len() == idx,
            forall|b: int|
                0 <= b < idx ==> {
                    &&& (#[trigger] entries@[b]).key is Finite
                    &&& entries@[b].key->0 == total_of(out@[b].side as int, bar as int)
                    &&& entries@[b].loadout@ == out@[b].loadout@
                    &&& entries@[b].sel@ == out@[b].sel@
                },
            forall|b: int| 0 <= b < idx ==> map_entry_ok(inv@, bar, #[trigger] entries@[b]),
        decreases out@.len() - idx,
    {
        let e = &out[idx];
        proof {
            assert(side_entry_ok(inv@, n, out@[idx as int]));
            lemma_sel_weight_bounds(inv@, e.sel@, n);
            assert(e.side <= max_side(inv@, n));
        }
        let total: u64 = 2 * e.side + bar;
        let key = WeightKey::Finite(total as i64);
        let loadout = clone_u32_vec(&e.loadout);
        let fresh = MapEntry { key, loadout, sel: Ghost(e.sel@) };
        proof {
            assert(map_entry_ok(inv@, bar, fresh)) by {
                assert(loadout_within(inv@, fresh.loadout@)) by {
                    assert forall|wt: u32| #[trigger] occ(fresh.loadout@, wt) <= inv_count(
                        inv@,
                        wt,
                    ) by {
                        if exists|k: int| 0 <= k < n && (#[trigger] inv@[k]).weight == wt {
                            let k = choose|k: int|
                                0 <= k < n && (#[trigger] inv@[k]).weight == wt;
                            lemma_inv_count_at(inv@, k);
                            assert(occ(fresh.loadout@, wt) == e.sel@[k]);
                        } else {
                            assert forall|jj: int|
                                0 <= jj < fresh.loadout@.len() implies fresh.loadout@[jj]
                                != wt by {
                                let k = choose|k: int|
                                    0 <= k < n && #[trigger] e.loadout@[jj] == inv@[k].weight;
                                assert(inv@[k].weight != wt);
                            }
                            lemma_occ_absent(fresh.loadout@, wt);
                            lemma_inv_count_nonneg(inv@, wt);
                        }
                    }
                }
            }
        }
        entries.push(fresh);
        idx = idx + 1;
    }
    let m = WeightMap { entries };
    proof {
        assert(distinct_keys(m@)) by {
            assert forall|x: int, y: int|
                #![trigger m@[x].key, m@[y].key]
                0 <= x < y < m@.len() implies m@[x].key != m@[y].key by {
                assert(out@[x].side != out@[y].side);
            }
        }
        assert forall|sel: Seq<int>| #[trigger] sel_ok(inv@, sel, n) implies map_covers(
            m@,
            total_of(sel_weight(inv@, sel, n), bar as int),
            sel_count(sel, n),
        ) by {
            let b0 = choose|b: int|
                0 <= b < out@.len() && (#[trigger] out@[b]).side == sel_weight(inv@, sel, n)
                    && out@[b].loadout@.len() <= sel_count(sel, n);
            assert(m@[b0].key is Finite && m@[b0].key->0 == total_of(
                sel_weight(inv@, sel, n),
                bar as int,
            ) && m@[b0].loadout@.len() <= sel_count(sel, n));
        }
        assert forall|b: int, sel: Seq<int>|
            #![trigger m@[b].key, sel_ok(inv@, sel, n)]
            0 <= b < m@.len() && sel_ok(inv@, sel, n) && m@[b].key->0 == total_of(
                sel_weight(inv@, sel, n),
                bar as int,
            ) implies m@[b].loadout@.len() <= sel_count(sel, n) by {
            let b1 = choose|k: int|
                0 <= k < m@.len() && (#[trigger] m@[k]).key is Finite && m@[k].key->0 == total_of(
                    sel_weight(inv@, sel, n),
                    bar as int,
                ) && m@[k].loadout@.len() <= sel_count(sel, n);
            if b1 != b {
                assert(m@[b].key == m@[b1].key);
                assert(false);
            }
        }
        let zero_sel = Seq::new(n as nat, |k: int| 0int);
        lemma_sel_zero_prefix(inv@, zero_sel, n);
        assert(sel_ok(inv@, zero_sel, n));
        let bz = choose|k: int|
            0 <= k < m@.len() && (#[trigger] m@[k]).key is Finite && m@[k].key->0 == total_of(
                sel_weight(inv@, zero_sel, n),
                bar as int,
            ) && m@[k].loadout@.len() <= sel_count(zero_sel, n);
        assert(m@[bz].key->0 == bar && m@[bz].loadout@.len() == 0);
    }
    m
}


/// The map's entries are in ascending key order.
pub open spec fn keys_sorted(t: Seq<MapEntry>) -> bool {
    forall|a: int, b: int|
        #![trigger t[a].key, t[b].key]
        0 <= a < b < t.len() ==> key_le(t[a].key, t[b].key)
}

/// The first key sorts strictly below the second.
fn key_lt_exec(a: &WeightKey, b: &WeightKey) -> (r: bool)
    ensures
        r == (key_cmp(*a, *b) == core::cmp::Ordering::Less),
{
    match a.partial_cmp(b) {
        Some(core::cmp::Ordering::Less) => true,
        _ => false,
    }
}

impl WeightMap {
    /// Order the map's entries by ascending weight key, for display and
    /// serialization.
    pub fn sort_entries(&mut self)
        ensures
            final(self)@.to_multiset() == old(self)@.to_multiset(),
            keys_sorted(final(self)@),
    {
        let mut taken: Vec<MapEntry> = Vec::new();
        core::mem::swap(&mut self.entries, &mut taken);
        let sorted = sorted_by_key(taken);
        self.entries = sorted;
    }
}

/// Sort map entries by ascending key, by repeated selection of a least
/// remaining key.
fn sorted_by_key(rest: Vec<MapEntry>) -> (out: Vec<MapEntry>)
    ensures
        out@.to_multiset() == rest@.to_multiset(),
        keys_sorted(out@),
{
    let ghost orig = rest@;
    let mut rest = rest;
    let mut out: Vec<MapEntry> = Vec::new();
    while rest.len() > 0
        invariant
            out@.to_multiset().add(rest@.to_multiset()) =~= orig.to_multiset(),
            keys_sorted(out@),
            forall|a: int, b: int|
                #![trigger out@[a].key, rest@[b].key]
                0 <= a < out@.len() && 0 <= b < rest@.len() ==> key_le(out@[a].key, rest@[b].key),
        decreases rest@.len(),
    {
        let mut mi: usize = 0;
        let mut j: usize = 1;
        while j < rest.len()
            invariant
                mi < rest@.len(),
                forall|b: int| 0 <= b < j ==> key_le(rest@[mi as int].key, (#[trigger] rest@[b]).key),
            decreases rest@.len() - j,
        {
            if key_lt_exec(&rest[j].key, &rest[mi].key) {
                let ghost old_mi = mi as int;
                mi = j;
                proof {
                    assert forall|b: int| 0 <= b < j + 1 implies key_le(
                        rest@[mi as int].key,
                        (#[trigger] rest@[b]).key,
                    ) by {
                        lemma_key_order_total(rest@[mi as int].key, rest@[old_mi].key, rest@[b].key);
                    }
                }
            } else {
                proof {
                    lemma_key_order_total(rest@[mi as int].key, rest@[j as int].key, rest@[j as int].key);
                }
            }
            j = j + 1;
        }
        let ghost rest0 = rest@;
        let x = rest.remove(mi);
        out.push(x);
        proof {
            assert(rest0.contains(x)) by {
                assert(rest0[mi as int] == x);
            }
            assert(rest0.to_multiset().count(x) > 0);
            assert(out@.to_multiset().add(rest@.to_multiset()) =~= orig.to_multiset());
            assert forall|a: int, b: int|
                #![trigger out@[a].key, rest@[b].key]
                0 <= a < out@.len() && 0 <= b < rest@.len() implies key_le(
                out@[a].key,
                rest@[b].key,
            ) by {
                if a < out@.len() - 1 {
                    if b < mi as int {
                        assert(rest@[b] == rest0[b]);
                    } else {
                        assert(rest@[b] == rest0[b + 1]);
                    }
                } else {
                    assert(out@[a] == x);
                    if b < mi as int {
                        assert(rest@[b] == rest0[b]);
                    } else {
                        assert(rest@[b] == rest0[b + 1]);
                    }
                }
            }
        }
    }
    out
}

} // verus!
