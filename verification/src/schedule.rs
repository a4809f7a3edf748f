//! Weekly training schedules derived from one-rep maximums.
//!
//! A configuration holds, for each of the four lifts, four weeks of three
//! target weights, all in tenths of a unit.  Targets come from fixed
//! percentage tables applied to a base weight (the max, or 90% of it
//! unless the caller states the max is already scaled), rounded to a whole
//! unit and then up to the next multiple of 5.

use vstd::prelude::*;

verus! {

use crate::rounding::{next_multiple_of_5, round_to_5};
use vstd::string::StringExecFns;

/// The permille of the base weight lifted in week `w`, set `s`.
pub open spec fn week_permille(w: int, s: int) -> int {
    if w == 0 {
        if s == 0 {
            650
        } else if s == 1 {
            750
        } else {
            850
        }
    } else if w == 1 {
        if s == 0 {
            700
        } else if s == 1 {
            800
        } else {
            900
        }
    } else if w == 2 {
        if s == 0 {
            750
        } else if s == 1 {
            850
        } else {
            950
        }
    } else {
        500
    }
}

/// The whole-unit target before snapping to a multiple of 5: the max (in
/// tenths) scaled by the base factor and the week's permille, rounded
/// half-up to a unit.
pub open spec fn raw_target(max: int, ninety: bool, w: int, s: int) -> int {
    (max * (if ninety {
        1000int
    } else {
        900int
    }) * week_permille(w, s) + 5_000_000) / 10_000_000
}

/// The target weight in whole units for week `w`, set `s`.
pub open spec fn set_target(max: int, ninety: bool, w: int, s: int) -> int {
    next_multiple_of_5(raw_target(max, ninety, w, s))
}

/// The four-week table of a lift holds exactly the targets for `max`.
pub open spec fn lift_sets_ok(arr: [[u64; 3]; 4], max: int, ninety: bool) -> bool {
    forall|w: int, s: int|
        #![trigger arr[w][s]]
        0 <= w < 4 && 0 <= s < 3 ==> arr[w][s] == set_target(max, ninety, w, s)
}

/// A max a schedule can be built from without overflowing: one hundred
/// thousand units, far beyond any barbell.
pub open spec fn max_in_range(max: int) -> bool {
    0 <= max <= 1_000_000
}

/// One target weight: the base from the max, scaled, rounded half-up to a
/// unit, then up to the next multiple of 5.
fn target_for(max: u64, ninety: bool, w: usize, s: usize) -> (r: u64)
    requires
        max_in_range(max as int),
        w < 4,
        s < 3,
    ensures
        r == set_target(max as int, ninety, w as int, s as int),
{
    let factor: u64 = if ninety {
        1000
    } else {
        900
    };
    let permille: u64 = if w == 0 {
        if s == 0 {
            650
        } else if s == 1 {
            750
        } else {
            850
        }
    } else if w == 1 {
        if s == 0 {
            700
        } else if s == 1 {
            800
        } else {
            900
        }
    } else if w == 2 {
        if s == 0 {
            750
        } else if s == 1 {
            850
        } else {
            950
        }
    } else {
        500
    };
    let raw: u64 = (max * factor * permille + 5_000_000) / 10_000_000;
    round_to_5(raw)
}

/// The week-by-week targets of one lift, from its one-rep max (in
/// tenths).  When `ninety` is set the max is taken as already scaled.
pub fn max_to_sets(max: u64, ninety: bool) -> (r: [[u64; 3]; 4])
    requires
        max_in_range(max as int),
    ensures
        lift_sets_ok(r, max as int, ninety),
{
    let r: [[u64; 3]; 4] = [
        [
            target_for(max, ninety, 0, 0),
            target_for(max, ninety, 0, 1),
            target_for(max, ninety, 0, 2),
        ],
        [
            target_for(max, ninety, 1, 0),
            target_for(max, ninety, 1, 1),
            target_for(max, ninety, 1, 2),
        ],
        [
            target_for(max, ninety, 2, 0),
            target_for(max, ninety, 2, 1),
            target_for(max, ninety, 2, 2),
        ],
        [
            target_for(max, ninety, 3, 0),
            target_for(max, ninety, 3, 1),
            target_for(max, ninety, 3, 2),
        ],
    ];
    r
}

/// The top-set repetition counts of a week: fives, threes, five-three-one,
/// and a de-load of fives.
pub fn reps_for_week(week: usize) -> (r: [u8; 3])
    requires
        week < 4,
    ensures
        week == 0 || week == 3 ==> r@ == seq![5u8, 5u8, 5u8],
        week == 1 ==> r@ == seq![3u8, 3u8, 3u8],
        week == 2 ==> r@ == seq![5u8, 3u8, 1u8],
{
    match week {
        0 | 3 => [5, 5, 5],
        1 => [3, 3, 3],
        _ => [5, 3, 1],
    }
}

/// One supporting exercise: a name, and a repetition count where one is
/// prescribed.
pub struct Support {
    /// The exercise's name.
    pub name: String,
    /// Prescribed repetitions, if any.
    pub reps: Option<u8>,
}

/// The two supports stand for the same exercise: same name, same
/// repetitions.
pub open spec fn support_like(a: Support, b: Support) -> bool {
    a.name@ == b.name@ && a.reps == b.reps
}

/// The two lists hold the same exercises in the same order.
pub open spec fn supports_like(a: Seq<Support>, b: Seq<Support>) -> bool {
    a.len() == b.len() && forall|i: int|
        0 <= i < a.len() ==> support_like(#[trigger] a[i], #[trigger] b[i])
}

impl Support {
    /// The stand-in exercise written into a cleared configuration.
    pub fn placeholder() -> (r: Support)
        ensures
            r.name@ == "Placeholder"@,
            r.reps is None,
    {
        Support { name: String::from_str("Placeholder"), reps: None }
    }
}

/// Copy a list of supporting exercises.
fn clone_supports(v: &Vec<Support>) -> (r: Vec<Support>)
    ensures
        supports_like(r@, v@),
{
    let mut r: Vec<Support> = Vec::new();
    let mut i: usize = 0;
    while i < v.len()
        invariant
            0 <= i <= v@.len(),
            r@.len() == i,
            forall|k: int| 0 <= k < i ==> support_like(#[trigger] r@[k], v@[k]),
        decreases v@.len() - i,
    {
        let name = v[i].name.clone();
        let reps = v[i].reps;
        r.push(Support { name, reps });
        i = i + 1;
    }
    r
}

/// The supporting exercises of a configuration: per lift, the list of
/// extra exercises, and the week numbers they are included in.
pub struct Supports {
    /// The weeks (1-based) whose days list the supporting exercises.
    pub included_weeks: Vec<u8>,
    /// Supports done on bench-press day.
    pub bench_press: Vec<Support>,
    /// Supports done on dead-lift day.
    pub dead_lift: Vec<Support>,
    /// Supports done on overhead-press day.
    pub overhead_press: Vec<Support>,
    /// Supports done on squat day.
    pub squat: Vec<Support>,
}

impl Default for Supports {
    /// A fresh configuration's supports: all four weeks included, no
    /// exercises yet.
    fn default() -> (r: Supports)
        ensures
            r.included_weeks@ == seq![1u8, 2u8, 3u8, 4u8],
            r.bench_press@.len() == 0,
            r.dead_lift@.len() == 0,
            r.overhead_press@.len() == 0,
            r.squat@.len() == 0,
    {
        let mut included_weeks: Vec<u8> = Vec::new();
        included_weeks.push(1);
        included_weeks.push(2);
        included_weeks.push(3);
        included_weeks.push(4);
        proof {
            assert(included_weeks@ =~= seq![1u8, 2u8, 3u8, 4u8]);
        }
        Supports {
            included_weeks,
            bench_press: Vec::new(),
            dead_lift: Vec::new(),
            overhead_press: Vec::new(),
            squat: Vec::new(),
        }
    }
}

/// The list of week numbers contains `week`.
fn week_included(weeks: &Vec<u8>, week: u8) -> (r: bool)
    ensures
        r == weeks@.contains(week),
{
    let mut i: usize = 0;
    while i < weeks.len()
        invariant
            0 <= i <= weeks@.len(),
            forall|k: int| 0 <= k < i ==> weeks@[k] != week,
        decreases weeks@.len() - i,
    {
        if weeks[i] == week {
            proof {
                assert(weeks@.contains(week)) by {
                    assert(weeks@[i as int] == week);
                }
            }
            return true;
        }
        i = i + 1;
    }
    false
}

impl Supports {
    /// The dead-lift supports done in `week`: the full list when the week
    /// is included, nothing otherwise.
    pub fn dead_lift_for(&self, week: u8) -> (r: Vec<Support>)
        ensures
            self.included_weeks@.contains(week) ==> supports_like(r@, self.dead_lift@),
            !self.included_weeks@.contains(week) ==> r@.len() == 0,
    {
        if !week_included(&self.included_weeks, week) {
            return Vec::new();
        }
        clone_supports(&self.dead_lift)
    }

    /// The squat supports done in `week`.
    pub fn squat_for(&self, week: u8) -> (r: Vec<Support>)
        ensures
            self.included_weeks@.contains(week) ==> supports_like(r@, self.squat@),
            !self.included_weeks@.contains(week) ==> r@.len() == 0,
    {
        if !week_included(&self.included_weeks, week) {
            return Vec::new();
        }
        clone_supports(&self.squat)
    }

    /// The overhead-press supports done in `week`.
    pub fn overhead_press_for(&self, week: u8) -> (r: Vec<Support>)
        ensures
            self.included_weeks@.contains(week) ==> supports_like(r@, self.overhead_press@),
            !self.included_weeks@.contains(week) ==> r@.len() == 0,
    {
        if !week_included(&self.included_weeks, week) {
            return Vec::new();
        }
        clone_supports(&self.overhead_press)
    }

    /// The bench-press supports done in `week`.
    pub fn bench_press_for(&self, week: u8) -> (r: Vec<Support>)
        ensures
            self.included_weeks@.contains(week) ==> supports_like(r@, self.bench_press@),
            !self.included_weeks@.contains(week) ==> r@.len() == 0,
    {
        if !week_included(&self.included_weeks, week) {
            return Vec::new();
        }
        clone_supports(&self.bench_press)
    }
}

/// A training configuration: per lift, four weeks of three target weights
/// in tenths of a unit, plus the supporting exercises.
pub struct Config {
    /// Squat targets.
    pub squat: [[u64; 3]; 4],
    /// Dead-lift targets.
    pub dead_lift: [[u64; 3]; 4],
    /// Bench-press targets.
    pub bench_press: [[u64; 3]; 4],
    /// Overhead-press targets.
    pub overhead_press: [[u64; 3]; 4],
    /// The supporting exercises, if configured.
    pub supports: Option<Supports>,
}

/// Every target of the table is raised by `d` tenths.
pub open spec fn sets_bumped(after: [[u64; 3]; 4], before: [[u64; 3]; 4], d: int) -> bool {
    forall|w: int, s: int|
        #![trigger after[w][s]]
        0 <= w < 4 && 0 <= s < 3 ==> after[w][s] == before[w][s] + d
}

/// All targets of the table stay clear of the top of the range.
pub open spec fn sets_headroom(arr: [[u64; 3]; 4], d: int) -> bool {
    forall|w: int, s: int|
        #![trigger arr[w][s]]
        0 <= w < 4 && 0 <= s < 3 ==> arr[w][s] + d <= u64::MAX
}

/// Raise every target of one lift's table by `d` tenths.
fn bump_sets(arr: &[[u64; 3]; 4], d: u64) -> (r: [[u64; 3]; 4])
    requires
        sets_headroom(*arr, d as int),
    ensures
        sets_bumped(r, *arr, d as int),
{
    [
        [arr[0][0] + d, arr[0][1] + d, arr[0][2] + d],
        [arr[1][0] + d, arr[1][1] + d, arr[1][2] + d],
        [arr[2][0] + d, arr[2][1] + d, arr[2][2] + d],
        [arr[3][0] + d, arr[3][1] + d, arr[3][2] + d],
    ]
}

/// Every target of a lift's table, in tenths, matches the whole-unit
/// target scaled by ten.
pub open spec fn lift_sets_tenths_ok(arr: [[u64; 3]; 4], max: int, ninety: bool) -> bool {
    forall|w: int, s: int|
        #![trigger arr[w][s]]
        0 <= w < 4 && 0 <= s < 3 ==> arr[w][s] == 10 * set_target(max, ninety, w, s)
}

/// A target derived from an in-range max stays small.
proof fn lemma_set_target_bound(max: int, ninety: bool, w: int, s: int)
    requires
        max_in_range(max),
    ensures
        0 <= set_target(max, ninety, w, s) <= 100_000,
{
    let f: int = if ninety {
        1000
    } else {
        900
    };
    let p = week_permille(w, s);
    assert(0 <= max * f * p <= 950_000_000_000) by (nonlinear_arith)
        requires
            0 <= max <= 1_000_000,
            0 < f <= 1000,
            0 < p <= 950,
    ;
    let n = max * f * p + 5_000_000;
    assert(0 <= n / 10_000_000 <= 95_000) by (nonlinear_arith)
        requires
            0 <= n <= 950_005_000_000,
    ;
    crate::rounding::lemma_next_multiple_of_5(raw_target(max, ninety, w, s));
}

/// Scale a whole-unit table to tenths.
fn sets_to_tenths(arr: [[u64; 3]; 4]) -> (r: [[u64; 3]; 4])
    requires
        forall|w: int, s: int|
            #![trigger arr[w][s]]
            0 <= w < 4 && 0 <= s < 3 ==> arr[w][s] <= 1_000_000_000,
    ensures
        forall|w: int, s: int|
            #![trigger r[w][s]]
            0 <= w < 4 && 0 <= s < 3 ==> r[w][s] == 10 * arr[w][s],
{
    [
        [arr[0][0] * 10, arr[0][1] * 10, arr[0][2] * 10],
        [arr[1][0] * 10, arr[1][1] * 10, arr[1][2] * 10],
        [arr[2][0] * 10, arr[2][1] * 10, arr[2][2] * 10],
        [arr[3][0] * 10, arr[3][1] * 10, arr[3][2] * 10],
    ]
}

/// One lift's table in tenths, from its one-rep max (in tenths).
fn lift_tenths(max: u64, ninety: bool) -> (r: [[u64; 3]; 4])
    requires
        max_in_range(max as int),
    ensures
        lift_sets_tenths_ok(r, max as int, ninety),
{
    let units = max_to_sets(max, ninety);
    proof {
        assert forall|w: int, s: int|
            #![trigger units[w][s]]
            0 <= w < 4 && 0 <= s < 3 implies units[w][s] <= 1_000_000_000 by {
            lemma_set_target_bound(max as int, ninety, w, s);
        }
    }
    sets_to_tenths(units)
}

/// A fresh configuration from the four one-rep maximums (in tenths).
pub fn init_config(squat: u64, dead_lift: u64, bench_press: u64, overhead_press: u64, ninety: bool) -> (r: Config)
    requires
        max_in_range(squat as int),
        max_in_range(dead_lift as int),
        max_in_range(bench_press as int),
        max_in_range(overhead_press as int),
    ensures
        lift_sets_tenths_ok(r.squat, squat as int, ninety),
        lift_sets_tenths_ok(r.dead_lift, dead_lift as int, ninety),
        lift_sets_tenths_ok(r.bench_press, bench_press as int, ninety),
        lift_sets_tenths_ok(r.overhead_press, overhead_press as int, ninety),
        r.supports matches Some(s) ==> s.included_weeks@ == seq![1u8, 2u8, 3u8, 4u8]
            && s.bench_press@.len() == 0 && s.dead_lift@.len() == 0 && s.overhead_press@.len() == 0
            && s.squat@.len() == 0,
        r.supports is Some,
{
    Config {
        squat: lift_tenths(squat, ninety),
        dead_lift: lift_tenths(dead_lift, ninety),
        bench_press: lift_tenths(bench_press, ninety),
        overhead_press: lift_tenths(overhead_press, ninety),
        supports: Some(Supports::default()),
    }
}

/// Advance a configuration to the next month: upper-body targets rise by
/// 5 units, lower-body targets by 10.  When `clear_supports` is set, each
/// lift's support list is replaced by a single placeholder; the included
/// weeks are kept.
pub fn advance_config(cfg: Config, clear_supports: bool) -> (r: Config)
    requires
        sets_headroom(cfg.bench_press, 50),
        sets_headroom(cfg.overhead_press, 50),
        sets_headroom(cfg.squat, 100),
        sets_headroom(cfg.dead_lift, 100),
    ensures
        sets_bumped(r.bench_press, cfg.bench_press, 50),
        sets_bumped(r.overhead_press, cfg.overhead_press, 50),
        sets_bumped(r.squat, cfg.squat, 100),
        sets_bumped(r.dead_lift, cfg.dead_lift, 100),
        cfg.supports is None ==> r.supports is None,
        cfg.supports is Some && !clear_supports ==> r.supports == cfg.supports,
        (clear_supports && cfg.supports is Some) ==> {
            &&& r.supports is Some
            &&& r.supports->0.included_weeks@ == cfg.supports->0.included_weeks@
            &&& is_placeholder_list(r.supports->0.bench_press@)
            &&& is_placeholder_list(r.supports->0.dead_lift@)
            &&& is_placeholder_list(r.supports->0.overhead_press@)
            &&& is_placeholder_list(r.supports->0.squat@)
        },
{
    let bench_press = bump_sets(&cfg.bench_press, 50);
    let overhead_press = bump_sets(&cfg.overhead_press, 50);
    let squat = bump_sets(&cfg.squat, 100);
    let dead_lift = bump_sets(&cfg.dead_lift, 100);
    let supports = match cfg.supports {
        None => None,
        Some(s) => {
            if clear_supports {
                let cleared = Supports {
                    included_weeks: s.included_weeks,
                    bench_press: placeholder_list(),
                    dead_lift: placeholder_list(),
                    overhead_press: placeholder_list(),
                    squat: placeholder_list(),
                };
                Some(cleared)
            } else {
                Some(s)
            }
        },
    };
    Config { squat, dead_lift, bench_press, overhead_press, supports }
}

/// The list holds exactly one placeholder exercise.
pub open spec fn is_placeholder_list(s: Seq<Support>) -> bool {
    s.len() == 1 && s[0].name@ == "Placeholder"@ && s[0].reps is None
}

/// A support list holding one placeholder exercise.
fn placeholder_list() -> (r: Vec<Support>)
    ensures
        is_placeholder_list(r@),
{
    let mut r: Vec<Support> = Vec::new();
    r.push(Support::placeholder());
    r
}

} // verus!
