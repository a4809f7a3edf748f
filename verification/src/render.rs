//! The rendered plan: plain data ready for a display layer.
//!
//! Every weight cell shows the target weight and, looked up in the
//! resolution engine's weight map, a suggested per-side loadout; a target
//! with no exact quantized match renders as `unknown` rather than
//! failing.

use vstd::prelude::*;

verus! {

use crate::engine::{MapEntry, WeightMap};
use crate::keys::WeightKey;
use crate::schedule::{reps_for_week, supports_like, Config, Support, Supports};
use crate::text::{dec_str, tenths_str, tenths_to_string, u64_to_string};
use vstd::string::StringExecFns;

/// A supporting exercise as displayed: a name and a repetition text,
/// empty when no count is prescribed.
pub struct RenderedSupport {
    /// The exercise's name.
    pub name: String,
    /// The prescribed repetitions, or empty.
    pub reps: String,
}

/// The rendered support shows exactly the exercise.
pub open spec fn rendered_support_ok(r: RenderedSupport, s: Support) -> bool {
    &&& r.name@ == s.name@
    &&& s.reps matches Some(n) ==> r.reps@ == dec_str(n as nat)
    &&& s.reps is None ==> r.reps@.len() == 0
}

/// The rendered support slot is unused.
pub open spec fn rendered_support_empty(r: RenderedSupport) -> bool {
    r.name@.len() == 0 && r.reps@.len() == 0
}

/// The thirteen support slots show the list's exercises in order, the
/// rest left empty.
pub open spec fn rendered_supports_ok(arr: [RenderedSupport; 13], list: Seq<Support>) -> bool {
    &&& list.len() <= 13
    &&& forall|i: int| 0 <= i < list.len() ==> rendered_support_ok(#[trigger] arr[i], list[i])
    &&& forall|i: int| list.len() <= i < 13 ==> rendered_support_empty(#[trigger] arr[i])
}

/// Display one supporting exercise.
pub fn render_support(s: &Support) -> (r: RenderedSupport)
    ensures
        rendered_support_ok(r, *s),
{
    let reps = match s.reps {
        Some(n) => u64_to_string(n as u64),
        None => String::new(),
    };
    RenderedSupport { name: s.name.clone(), reps }
}

/// An unused support slot.
fn empty_support() -> (r: RenderedSupport)
    ensures
        rendered_support_empty(r),
{
    RenderedSupport { name: String::new(), reps: String::new() }
}

/// Lay a list of supporting exercises out over the thirteen display
/// slots, in order, leaving the rest empty.
pub fn render_supports(list: &Vec<Support>) -> (r: [RenderedSupport; 13])
    requires
        list@.len() <= 13,
    ensures
        rendered_supports_ok(r, list@),
{
    let mut r: [RenderedSupport; 13] = [
        empty_support(),
        empty_support(),
        empty_support(),
        empty_support(),
        empty_support(),
        empty_support(),
        empty_support(),
        empty_support(),
        empty_support(),
        empty_support(),
        empty_support(),
        empty_support(),
        empty_support(),
    ];
    let mut i: usize = 0;
    while i < list.len()
        invariant
            0 <= i <= list@.len() <= 13,
            forall|k: int| 0 <= k < i ==> rendered_support_ok(#[trigger] r@[k], list@[k]),
            forall|k: int| i <= k < 13 ==> rendered_support_empty(#[trigger] r@[k]),
        decreases list@.len() - i,
    {
        r[i] = render_support(&list[i]);
        i = i + 1;
    }
    r
}

/// The supporting exercises as displayed, one slot row per lift.
pub struct RenderedSupports {
    /// The weeks (1-based) whose days list the supporting exercises.
    pub included_weeks: Vec<u8>,
    /// Bench-press day's slots.
    pub bench: [RenderedSupport; 13],
    /// Dead-lift day's slots.
    pub dead: [RenderedSupport; 13],
    /// Overhead-press day's slots.
    pub ohp: [RenderedSupport; 13],
    /// Squat day's slots.
    pub squat: [RenderedSupport; 13],
}

impl RenderedSupports {
    /// Display every lift's supporting exercises.
    pub fn from_supports(s: &Supports) -> (r: RenderedSupports)
        requires
            s.bench_press@.len() <= 13,
            s.dead_lift@.len() <= 13,
            s.overhead_press@.len() <= 13,
            s.squat@.len() <= 13,
        ensures
            r.included_weeks@ == s.included_weeks@,
            rendered_supports_ok(r.bench, s.bench_press@),
            rendered_supports_ok(r.dead, s.dead_lift@),
            rendered_supports_ok(r.ohp, s.overhead_press@),
            rendered_supports_ok(r.squat, s.squat@),
    {
        RenderedSupports {
            included_weeks: s.included_weeks.clone(),
            bench: render_supports(&s.bench_press),
            dead: render_supports(&s.dead_lift),
            ohp: render_supports(&s.overhead_press),
            squat: render_supports(&s.squat),
        }
    }
}

/// The four training days, named after their main lift.
#[derive(Debug, Clone, Copy, PartialEq, Eq, Structural)]
pub enum DayName {
    /// Bench-press day.
    Bench,
    /// Overhead-press day.
    OHP,
    /// Squat day.
    Squat,
    /// Dead-lift day.
    Deads,
}

/// The display text of a day name.
pub open spec fn day_label(d: DayName) -> Seq<char> {
    match d {
        DayName::Bench => "Bench"@,
        DayName::OHP => "OHP"@,
        DayName::Squat => "Squat"@,
        DayName::Deads => "Deads"@,
    }
}

impl DayName {
    /// The day's display text.
    pub fn label(&self) -> (r: String)
        ensures
            r@ == day_label(*self),
    {
        match self {
            DayName::Bench => String::from_str("Bench"),
            DayName::OHP => String::from_str("OHP"),
            DayName::Squat => String::from_str("Squat"),
            DayName::Deads => String::from_str("Deads"),
        }
    }
}

/// One weight cell: the target weight's text, right-padded to three
/// characters, and the suggested per-side loadout text.
pub struct Weight {
    /// The target weight, written in tenths resolution.
    pub value: String,
    /// The suggested loadout, or `unknown`.
    pub side: String,
}

/// A weight text padded with spaces on the left to at least three
/// characters.
pub open spec fn pad3(s: Seq<char>) -> Seq<char> {
    if s.len() >= 3 {
        s
    } else if s.len() == 2 {
        seq![' '] + s
    } else {
        seq![' ', ' '] + s
    }
}

/// The loadout's weights written out, space-separated, heaviest first.
pub open spec fn loadout_items(s: Seq<u32>, n: int) -> Seq<char>
    decreases n,
{
    if n <= 0 {
        Seq::empty()
    } else if n == 1 {
        tenths_str(s[0] as int)
    } else {
        loadout_items(s, n - 1) + seq![' '] + tenths_str(s[n - 1] as int)
    }
}

/// A loadout's display text: its weights in parentheses.
pub open spec fn loadout_str(s: Seq<u32>) -> Seq<char> {
    seq!['('] + loadout_items(s, s.len() as int) + seq![')']
}

/// Write a loadout out for display.
pub fn format_loadout(v: &Vec<u32>) -> (r: String)
    ensures
        r@ == loadout_str(v@),
{
    let mut s = String::new();
    proof {
        reveal_strlit("(");
        reveal_strlit(")");
        reveal_strlit(" ");
    }
    s.append("(");
    proof {
        assert(s@ =~= seq!['('] + loadout_items(v@, 0));
    }
    let mut i: usize = 0;
    while i < v.len()
        invariant
            0 <= i <= v@.len(),
            s@ == seq!['('] + loadout_items(v@, i as int),
            "("@ == seq!['('],
            ")"@ == seq![')'],
            " "@ == seq![' '],
        decreases v@.len() - i,
    {
        if i > 0 {
            s.append(" ");
        }
        let t = tenths_to_string(v[i] as u64);
        s.append(t.as_str());
        proof {
            if i == 0 {
                assert(s@ =~= seq!['('] + loadout_items(v@, 1));
            } else {
                assert(s@ =~= seq!['('] + loadout_items(v@, i as int + 1));
            }
        }
        i = i + 1;
    }
    s.append(")");
    proof {
        assert(s@ =~= loadout_str(v@));
    }
    s
}

/// The display text of a target weight's loadout: the stored loadout of
/// the entry keyed exactly at the target, or `unknown` when the map has
/// no exact quantized match.
pub fn describe_loadout(map: &WeightMap, key: &WeightKey) -> (r: String)
    ensures
        (forall|b: int| 0 <= b < map@.len() ==> (#[trigger] map@[b]).key != *key) ==> r@
            == "unknown"@,
        (exists|b: int| 0 <= b < map@.len() && (#[trigger] map@[b]).key == *key) ==> exists|b: int|
            0 <= b < map@.len() && (#[trigger] map@[b]).key == *key && r@ == loadout_str(
                map@[b].loadout@,
            ),
{
    match map.lookup(key) {
        Some(l) => format_loadout(l),
        None => String::from_str("unknown"),
    }
}


/// Pad a weight text with spaces on the left to at least three
/// characters.
fn pad_to_3(s: String) -> (r: String)
    ensures
        r@ == pad3(s@),
{
    let n = s.as_str().unicode_len();
    if n >= 3 {
        s
    } else if n == 2 {
        proof {
            reveal_strlit(" ");
        }
        let mut r = String::from_str(" ");
        r.append(s.as_str());
        proof {
            assert(r@ =~= pad3(s@));
        }
        r
    } else {
        proof {
            reveal_strlit("  ");
        }
        let mut r = String::from_str("  ");
        r.append(s.as_str());
        proof {
            assert(r@ =~= pad3(s@));
        }
        r
    }
}

/// The loadout text shown beside target `t` is right for the map: the
/// keyed entry's loadout, or `unknown` when no entry is keyed there.
pub open spec fn side_ok(side: Seq<char>, t: u64, map: Seq<MapEntry>) -> bool {
    &&& ((forall|b: int|
        0 <= b < map.len() ==> (#[trigger] map[b]).key != WeightKey::Finite(t as i64)) ==> side
        == "unknown"@)
    &&& ((exists|b: int|
        0 <= b < map.len() && (#[trigger] map[b]).key == WeightKey::Finite(t as i64))
        ==> exists|b: int|
        0 <= b < map.len() && (#[trigger] map[b]).key == WeightKey::Finite(t as i64) && side
            == loadout_str(map[b].loadout@))
}

/// The weight cell shows target `t` and its loadout.
pub open spec fn weight_ok(wt: Weight, t: u64, map: Seq<MapEntry>) -> bool {
    wt.value@ == pad3(tenths_str(t as int)) && side_ok(wt.side@, t, map)
}

/// Display one target weight (in tenths), with the loadout the map
/// suggests for it.
pub fn weight_cell(t: u64, map: &WeightMap) -> (r: Weight)
    requires
        t <= i64::MAX,
    ensures
        weight_ok(r, t, map@),
{
    let value = pad_to_3(tenths_to_string(t));
    let key = WeightKey::Finite(t as i64);
    let side = describe_loadout(map, &key);
    Weight { value, side }
}

/// One rendered training day: the day's name, its three weight cells,
/// the repetition scheme, and the supporting exercises.
pub struct RenderedDay {
    /// The day's name.
    pub name: DayName,
    /// The three top sets' weight cells.
    pub exercises: Vec<Weight>,
    /// The repetition counts of the three sets.
    pub reps: [u8; 3],
    /// The day's supporting exercises.
    pub supports: [RenderedSupport; 13],
}

/// One rendered week: its number, display name, and four days.
pub struct RenderedWeek {
    /// The week number, starting at zero.
    pub number: u32,
    /// The week's display name.
    pub name: String,
    /// The week's four days.
    pub days: Vec<RenderedDay>,
}

/// The rendered four-week plan.
pub struct RenderedWeeks {
    /// The four weeks.
    pub weeks: Vec<RenderedWeek>,
}

/// The week's display name.
pub open spec fn week_label(w: int) -> Seq<char> {
    if w == 0 {
        "First Week"@
    } else if w == 1 {
        "Second Week"@
    } else if w == 2 {
        "Max Week"@
    } else {
        "De-load Week"@
    }
}

/// The repetition scheme of week `w`: fives, threes, five-three-one, and
/// a de-load of fives.
pub open spec fn reps_ok(r: [u8; 3], w: int) -> bool {
    if w == 1 {
        r@ == seq![3u8, 3u8, 3u8]
    } else if w == 2 {
        r@ == seq![5u8, 3u8, 1u8]
    } else {
        r@ == seq![5u8, 5u8, 5u8]
    }
}

/// The three weight cells show the three targets of the week's row.
pub open spec fn exercises_ok(ex: Seq<Weight>, sets: [u64; 3], map: Seq<MapEntry>) -> bool {
    ex.len() == 3 && forall|s: int| 0 <= s < 3 ==> weight_ok(#[trigger] ex[s], sets[s], map)
}

/// Week `w` (zero-based) lists the supporting exercises: supports are
/// configured and the week's 1-based number is included.
pub open spec fn sup_included(cfg: Config, w: int) -> bool {
    cfg.supports matches Some(s) && s.included_weeks@.contains((w + 1) as u8)
}

/// The configured dead-lift supports, or nothing.
pub open spec fn sup_dead(cfg: Config) -> Seq<Support> {
    match cfg.supports {
        Some(s) => s.dead_lift@,
        None => Seq::empty(),
    }
}

/// The configured squat supports, or nothing.
pub open spec fn sup_squat(cfg: Config) -> Seq<Support> {
    match cfg.supports {
        Some(s) => s.squat@,
        None => Seq::empty(),
    }
}

/// The configured bench-press supports, or nothing.
pub open spec fn sup_bench(cfg: Config) -> Seq<Support> {
    match cfg.supports {
        Some(s) => s.bench_press@,
        None => Seq::empty(),
    }
}

/// The configured overhead-press supports, or nothing.
pub open spec fn sup_ohp(cfg: Config) -> Seq<Support> {
    match cfg.supports {
        Some(s) => s.overhead_press@,
        None => Seq::empty(),
    }
}

/// The rendered day is right for its lift: name, weight cells from the
/// week's row, the week's repetition scheme, and the supports exactly
/// when the week is included.
pub open spec fn day_ok(
    d: RenderedDay,
    name: DayName,
    sets: [u64; 3],
    list: Seq<Support>,
    included: bool,
    w: int,
    map: Seq<MapEntry>,
) -> bool {
    &&& d.name == name
    &&& exercises_ok(d.exercises@, sets, map)
    &&& reps_ok(d.reps, w)
    &&& (included ==> rendered_supports_ok(d.supports, list))
    &&& (!included ==> rendered_supports_ok(d.supports, Seq::empty()))
}

/// The rendered week is right: its number and name, and its four days in
/// the fixed order dead lift, squat, bench press, overhead press.
pub open spec fn week_ok(wk: RenderedWeek, w: int, cfg: Config, map: Seq<MapEntry>) -> bool {
    &&& wk.number == w
    &&& wk.name@ == week_label(w)
    &&& wk.days@.len() == 4
    &&& day_ok(wk.days@[0], DayName::Deads, cfg.dead_lift[w], sup_dead(cfg), sup_included(cfg, w), w, map)
    &&& day_ok(wk.days@[1], DayName::Squat, cfg.squat[w], sup_squat(cfg), sup_included(cfg, w), w, map)
    &&& day_ok(wk.days@[2], DayName::Bench, cfg.bench_press[w], sup_bench(cfg), sup_included(cfg, w), w, map)
    &&& day_ok(wk.days@[3], DayName::OHP, cfg.overhead_press[w], sup_ohp(cfg), sup_included(cfg, w), w, map)
}

/// Every target of the table fits the ordering key's finite range.
pub open spec fn sets_in_range(arr: [[u64; 3]; 4]) -> bool {
    forall|w: int, s: int|
        #![trigger arr[w][s]]
        0 <= w < 4 && 0 <= s < 3 ==> arr[w][s] <= i64::MAX
}

/// An array keeps showing a list it is elementwise like.
proof fn lemma_rendered_like(arr: [RenderedSupport; 13], a: Seq<Support>, b: Seq<Support>)
    requires
        rendered_supports_ok(arr, a),
        supports_like(a, b),
    ensures
        rendered_supports_ok(arr, b),
{
}

/// Build one rendered day.
fn build_day(
    name: DayName,
    sets: [u64; 3],
    sups: Vec<Support>,
    week_idx: usize,
    map: &WeightMap,
) -> (d: RenderedDay)
    requires
        week_idx < 4,
        forall|s: int| 0 <= s < 3 ==> #[trigger] sets[s] <= i64::MAX,
        sups@.len() <= 13,
    ensures
        d.name == name,
        exercises_ok(d.exercises@, sets, map@),
        reps_ok(d.reps, week_idx as int),
        rendered_supports_ok(d.supports, sups@),
{
    let mut exercises: Vec<Weight> = Vec::new();
    exercises.push(weight_cell(sets[0], map));
    exercises.push(weight_cell(sets[1], map));
    exercises.push(weight_cell(sets[2], map));
    RenderedDay {
        name,
        exercises,
        reps: reps_for_week(week_idx),
        supports: render_supports(&sups),
    }
}

/// The week's display name.
fn week_name(w: usize) -> (r: String)
    ensures
        r@ == week_label(w as int),
{
    if w == 0 {
        String::from_str("First Week")
    } else if w == 1 {
        String::from_str("Second Week")
    } else if w == 2 {
        String::from_str("Max Week")
    } else {
        String::from_str("De-load Week")
    }
}

/// Render the whole four-week plan from a configuration, using the weight
/// map to suggest a loadout for each target.
pub fn plan_from_config(cfg: &Config, map: &WeightMap) -> (r: RenderedWeeks)
    requires
        sets_in_range(cfg.squat),
        sets_in_range(cfg.dead_lift),
        sets_in_range(cfg.bench_press),
        sets_in_range(cfg.overhead_press),
        cfg.supports matches Some(s) ==> s.bench_press@.len() <= 13 && s.dead_lift@.len() <= 13
            && s.overhead_press@.len() <= 13 && s.squat@.len() <= 13,
    ensures
        r.weeks@.len() == 4,
        forall|w: int| 0 <= w < 4 ==> week_ok(#[trigger] r.weeks@[w], w, *cfg, map@),
{
    let mut weeks: Vec<RenderedWeek> = Vec::new();
    let mut w: usize = 0;
    while w < 4
        invariant
            0 <= w <= 4,
            weeks@.len() == w,
            sets_in_range(cfg.squat),
            sets_in_range(cfg.dead_lift),
            sets_in_range(cfg.bench_press),
            sets_in_range(cfg.overhead_press),
            cfg.supports matches Some(s) ==> s.bench_press@.len() <= 13 && s.dead_lift@.len()
                <= 13 && s.overhead_press@.len() <= 13 && s.squat@.len() <= 13,
            forall|k: int| 0 <= k < w ==> week_ok(#[trigger] weeks@[k], k, *cfg, map@),
        decreases 4 - w,
    {
        let week8 = (w + 1) as u8;
        let dead_sups = match &cfg.supports {
            Some(s) => s.dead_lift_for(week8),
            None => Vec::new(),
        };
        let squat_sups = match &cfg.supports {
            Some(s) => s.squat_for(week8),
            None => Vec::new(),
        };
        let bench_sups = match &cfg.supports {
            Some(s) => s.bench_press_for(week8),
            None => Vec::new(),
        };
        let ohp_sups = match &cfg.supports {
            Some(s) => s.overhead_press_for(week8),
            None => Vec::new(),
        };
        let ghost dead_view = dead_sups@;
        let ghost squat_view = squat_sups@;
        let ghost bench_view = bench_sups@;
        let ghost ohp_view = ohp_sups@;
        let mut days: Vec<RenderedDay> = Vec::new();
        let d0 = build_day(DayName::Deads, cfg.dead_lift[w], dead_sups, w, map);
        let d1 = build_day(DayName::Squat, cfg.squat[w], squat_sups, w, map);
        let d2 = build_day(DayName::Bench, cfg.bench_press[w], bench_sups, w, map);
        let d3 = build_day(DayName::OHP, cfg.overhead_press[w], ohp_sups, w, map);
        proof {
            if sup_included(*cfg, w as int) {
                lemma_rendered_like(d0.supports, dead_view, sup_dead(*cfg));
                lemma_rendered_like(d1.supports, squat_view, sup_squat(*cfg));
                lemma_rendered_like(d2.supports, bench_view, sup_bench(*cfg));
                lemma_rendered_like(d3.supports, ohp_view, sup_ohp(*cfg));
            } else {
                assert(dead_view =~= Seq::<Support>::empty());
                assert(squat_view =~= Seq::<Support>::empty());
                assert(bench_view =~= Seq::<Support>::empty());
                assert(ohp_view =~= Seq::<Support>::empty());
            }
        }
        days.push(d0);
        days.push(d1);
        days.push(d2);
        days.push(d3);
        let wk = RenderedWeek { number: w as u32, name: week_name(w), days };
        proof {
            assert(wk.days@[0] == d0 && wk.days@[1] == d1 && wk.days@[2] == d2 && wk.days@[3]
                == d3);
            assert(week_ok(wk, w as int, *cfg, map@));
        }
        weeks.push(wk);
        w = w + 1;
    }
    RenderedWeeks { weeks }
}

} // verus!
