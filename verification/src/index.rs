//! The archive index: plan pages grouped by year and month.
//!
//! A page's file stem names its year and month (`2024-5`); pages are
//! grouped into years, months ascending within a year and years
//! descending, newest first.

use vstd::prelude::*;

verus! {

use crate::text::{all_digits, parse_u64, str_val};
use vstd::string::{StrSliceExecFns, StringExecFns};
use std::borrow::ToOwned;
use vstd::seq_lib::group_to_multiset_ensures;

broadcast use group_to_multiset_ensures;

/// Arguments of the index generator: the directory whose entries are
/// scanned for plan pages.
pub struct IndexArgs {
    /// The directory to index.
    pub path: String,
}

/// One plan page: its display month name, its year and month numbers, and
/// the link target.
pub struct Month {
    /// The month's display name.
    pub name: String,
    /// The year number from the file stem.
    pub year: u64,
    /// The month number from the file stem.
    pub month: u8,
    /// The link target: the page's file name.
    pub href: String,
}

/// One year's worth of plan pages.
pub struct Year {
    /// The year number.
    pub year: u64,
    /// The pages of that year.
    pub months: Vec<Month>,
}

/// The index: every year that has plan pages.
pub struct Index {
    /// The indexed years.
    pub years: Vec<Year>,
}

/// No two years of the index share a year number.
pub open spec fn years_distinct(ys: Seq<Year>) -> bool {
    forall|a: int, b: int|
        #![trigger ys[a].year, ys[b].year]
        0 <= a < b < ys.len() ==> ys[a].year != ys[b].year
}

/// Months are in ascending month order.
pub open spec fn months_sorted(ms: Seq<Month>) -> bool {
    forall|a: int, b: int|
        #![trigger ms[a].month, ms[b].month]
        0 <= a < b < ms.len() ==> ms[a].month <= ms[b].month
}

/// Years are in descending year order, newest first.
pub open spec fn years_sorted_desc(ys: Seq<Year>) -> bool {
    forall|a: int, b: int|
        #![trigger ys[a].year, ys[b].year]
        0 <= a < b < ys.len() ==> ys[a].year >= ys[b].year
}

impl Index {
    /// An index with no years.
    pub fn new() -> (r: Index)
        ensures
            r.years@.len() == 0,
    {
        Index { years: Vec::new() }
    }

    /// File a page under its year: append it to the first year with the
    /// same year number, or open a new year at the end.
    pub fn add_month(&mut self, m: Month)
        ensures
            (exists|k: int|
                {
                    &&& 0 <= k < old(self).years@.len()
                    &&& (#[trigger] old(self).years@[k]).year == m.year
                    &&& (forall|j: int| 0 <= j < k ==> (#[trigger] old(self).years@[j]).year != m.year)
                    &&& final(self).years@.len() == old(self).years@.len()
                    &&& (forall|j: int|
                        0 <= j < final(self).years@.len() && j != k
                            ==> #[trigger] final(self).years@[j] == old(self).years@[j])
                    &&& final(self).years@[k].year == m.year
                    &&& final(self).years@[k].months@ == old(self).years@[k].months@.push(m)
                }) || {
                &&& (forall|j: int|
                    0 <= j < old(self).years@.len() ==> (#[trigger] old(self).years@[j]).year
                        != m.year)
                &&& final(self).years@.len() == old(self).years@.len() + 1
                &&& (forall|j: int|
                    0 <= j < old(self).years@.len()
                        ==> #[trigger] final(self).years@[j] == old(self).years@[j])
                &&& final(self).years@.last().year == m.year
                &&& final(self).years@.last().months@ == seq![m]
            },
    {
        let mut k: usize = 0;
        while k < self.years.len()
            invariant
                0 <= k <= self.years@.len(),
                self.years@ == old(self).years@,
                forall|j: int| 0 <= j < k ==> (#[trigger] self.years@[j]).year != m.year,
            decreases self.years@.len() - k,
        {
            if self.years[k].year == m.year {
                let ghost prev = self.years@;
                let mut y = self.years.remove(k);
                y.months.push(m);
                self.years.insert(k, y);
                proof {
                    assert(y.year == prev[k as int].year);
                    assert(y.months@ == prev[k as int].months@.push(m));
                    assert forall|j: int|
                        0 <= j < self.years@.len() && j != k as int implies #[trigger] self.years@[j]
                        == prev[j] by {
                        if j < k as int {
                            assert(self.years@[j] == prev.remove(k as int)[j]);
                        } else {
                            assert(self.years@[j] == prev.remove(k as int)[j - 1]);
                        }
                    }
                    assert(self.years@[k as int] == y);
                }
                return ;
            }
            k = k + 1;
        }
        let year_number = m.year;
        let ghost mview = m;
        let mut months: Vec<Month> = Vec::new();
        months.push(m);
        proof {
            assert(months@ =~= seq![mview]);
        }
        self.years.push(Year { year: year_number, months });
    }

    /// Order the index for display: each year's pages by ascending month,
    /// then the years themselves newest first.
    pub fn sort(&mut self)
        ensures
            final(self).years@.len() == old(self).years@.len(),
            years_sorted_desc(final(self).years@),
            forall|b: int|
                0 <= b < final(self).years@.len() ==> months_sorted(
                    (#[trigger] final(self).years@[b]).months@,
                ),
            exists|mid: Seq<Year>|
                {
                    &&& #[trigger] mid.to_multiset() == final(self).years@.to_multiset()
                    &&& mid.len() == old(self).years@.len()
                    &&& (forall|k: int|
                        0 <= k < mid.len() ==> {
                            &&& (#[trigger] mid[k]).year == old(self).years@[k].year
                            &&& mid[k].months@.to_multiset() == old(
                                self,
                            ).years@[k].months@.to_multiset()
                        })
                },
    {
        let mut k: usize = 0;
        while k < self.years.len()
            invariant
                0 <= k <= self.years@.len(),
                self.years@.len() == old(self).years@.len(),
                forall|j: int|
                    k <= j < self.years@.len() ==> #[trigger] self.years@[j] == old(
                        self,
                    ).years@[j],
                forall|j: int|
                    0 <= j < k ==> {
                        &&& (#[trigger] self.years@[j]).year == old(self).years@[j].year
                        &&& self.years@[j].months@.to_multiset() == old(
                            self,
                        ).years@[j].months@.to_multiset()
                        &&& months_sorted(self.years@[j].months@)
                    },
            decreases self.years@.len() - k,
        {
            let ghost snap = self.years@;
            let mut y = self.years.remove(k);
            y.sort();
            self.years.insert(k, y);
            proof {
                assert forall|j: int|
                    0 <= j < self.years@.len() && j != k as int implies #[trigger] self.years@[j]
                    == snap[j] by {
                    if j < k as int {
                        assert(self.years@[j] == snap.remove(k as int)[j]);
                    } else {
                        assert(self.years@[j] == snap.remove(k as int)[j - 1]);
                    }
                }
                assert(self.years@[k as int] == y);
                assert(y.year == snap[k as int].year);
            }
            k = k + 1;
        }
        let ghost mid = self.years@;
        let mut taken: Vec<Year> = Vec::new();
        core::mem::swap(&mut self.years, &mut taken);
        let sorted = sorted_years_desc(taken);
        self.years = sorted;
        proof {
            assert(self.years@.to_multiset() == mid.to_multiset());
            assert(self.years@.len() == mid.len()) by {
                assert(self.years@.to_multiset().len() == mid.to_multiset().len());
            }
            assert forall|b: int| 0 <= b < self.years@.len() implies months_sorted(
                (#[trigger] self.years@[b]).months@,
            ) by {
                assert(self.years@.contains(self.years@[b]));
                assert(self.years@.to_multiset().count(self.years@[b]) > 0);
                assert(mid.to_multiset().count(self.years@[b]) > 0);
                assert(mid.contains(self.years@[b]));
                let kk = choose|kk: int| 0 <= kk < mid.len() && mid[kk] == self.years@[b];
                assert(months_sorted(mid[kk].months@));
            }
        }
    }
}

impl Year {
    /// Order this year's pages by ascending month number.
    pub fn sort(&mut self)
        ensures
            final(self).year == old(self).year,
            final(self).months@.to_multiset() == old(self).months@.to_multiset(),
            months_sorted(final(self).months@),
    {
        let mut taken: Vec<Month> = Vec::new();
        core::mem::swap(&mut self.months, &mut taken);
        let sorted = sorted_months_asc(taken);
        self.months = sorted;
    }
}

/// Sort pages by ascending month number, by repeated selection of a
/// least remaining month.
fn sorted_months_asc(rest: Vec<Month>) -> (out: Vec<Month>)
    ensures
        out@.to_multiset() == rest@.to_multiset(),
        months_sorted(out@),
{
    let ghost orig = rest@;
    let mut rest = rest;
    let mut out: Vec<Month> = Vec::new();
    while rest.len() > 0
        invariant
            out@.to_multiset().add(rest@.to_multiset()) =~= orig.to_multiset(),
            months_sorted(out@),
            forall|a: int, b: int|
                #![trigger out@[a].month, rest@[b].month]
                0 <= a < out@.len() && 0 <= b < rest@.len() ==> out@[a].month <= rest@[b].month,
        decreases rest@.len(),
    {
        let mut mi: usize = 0;
        let mut j: usize = 1;
        while j < rest.len()
            invariant
                0 <= mi < j <= rest@.len() || (mi == 0 && j <= 1 && rest@.len() > 0),
                mi < rest@.len(),
                forall|b: int| 0 <= b < j ==> (#[trigger] rest@[b]).month >= rest@[mi as int].month,
            decreases rest@.len() - j,
        {
            if rest[j].month < rest[mi].month {
                mi = j;
            }
            j = j + 1;
        }
        let ghost rest0 = rest@;
        let x = rest.remove(mi);
        out.push(x);
        proof {
            assert(rest0.contains(x)) by {
                assert(rest0[mi as int] == x);
            }
            assert(rest0.to_multiset().count(x) > 0);
            assert(out@.to_multiset().add(rest@.to_multiset()) =~= orig.to_multiset());
        }
    }
    out
}

/// Sort years by descending year number, by repeated selection of a
/// greatest remaining year.
fn sorted_years_desc(rest: Vec<Year>) -> (out: Vec<Year>)
    ensures
        out@.to_multiset() == rest@.to_multiset(),
        years_sorted_desc(out@),
{
    let ghost orig = rest@;
    let mut rest = rest;
    let mut out: Vec<Year> = Vec::new();
    while rest.len() > 0
        invariant
            out@.to_multiset().add(rest@.to_multiset()) =~= orig.to_multiset(),
            years_sorted_desc(out@),
            forall|a: int, b: int|
                #![trigger out@[a].year, rest@[b].year]
                0 <= a < out@.len() && 0 <= b < rest@.len() ==> out@[a].year >= rest@[b].year,
        decreases rest@.len(),
    {
        let mut mi: usize = 0;
        let mut j: usize = 1;
        while j < rest.len()
            invariant
                mi < rest@.len(),
                forall|b: int| 0 <= b < j ==> (#[trigger] rest@[b]).year <= rest@[mi as int].year,
        decreases rest@.len() - j,
        {
            if rest[j].year > rest[mi].year {
                mi = j;
            }
            j = j + 1;
        }
        let ghost rest0 = rest@;
        let x = rest.remove(mi);
        out.push(x);
        proof {
            assert(rest0.contains(x)) by {
                assert(rest0[mi as int] == x);
            }
            assert(rest0.to_multiset().count(x) > 0);
            assert(out@.to_multiset().add(rest@.to_multiset()) =~= orig.to_multiset());
        }
    }
    out
}


/// The position of the first dash at or after `i`, or the length if none.
pub open spec fn first_dash_from(s: Seq<char>, i: int) -> int
    decreases s.len() - i,
{
    if i >= s.len() {
        s.len() as int
    } else if s[i] == '-' {
        i
    } else {
        first_dash_from(s, i + 1)
    }
}

/// The first dash of `s` at or after `i` is at `p`, given that everything
/// before `p` is dash-free and `p` is a dash or the end.
pub proof fn lemma_first_dash_from(s: Seq<char>, i: int, p: int)
    requires
        0 <= i <= p <= s.len(),
        forall|k: int| i <= k < p ==> s[k] != '-',
        p < s.len() ==> s[p] == '-',
    ensures
        first_dash_from(s, i) == p,
    decreases p - i,
{
    if i < p {
        lemma_first_dash_from(s, i + 1, p);
    }
}

/// The year digits of a file stem: everything before the first dash.
pub open spec fn stem_year_part(s: Seq<char>) -> Seq<char> {
    s.take(first_dash_from(s, 0))
}

/// The month digits of a file stem: everything between the first dash and
/// the next dash or the end.
pub open spec fn stem_month_part(s: Seq<char>) -> Seq<char> {
    s.subrange(first_dash_from(s, 0) + 1, first_dash_from(s, first_dash_from(s, 0) + 1))
}

/// A file stem names a plan page: digits, a dash, then a month number of
/// at most 12 (0 is tolerated and displayed as January).
pub open spec fn stem_ok(s: Seq<char>) -> bool {
    &&& first_dash_from(s, 0) < s.len()
    &&& stem_year_part(s).len() > 0
    &&& all_digits(stem_year_part(s))
    &&& str_val(stem_year_part(s)) <= u64::MAX
    &&& stem_month_part(s).len() > 0
    &&& all_digits(stem_month_part(s))
    &&& str_val(stem_month_part(s)) <= 12
}

/// The display name of month number `m`; numbers at most 1 fall back to
/// January.
pub open spec fn month_label(m: int) -> Seq<char> {
    if m <= 1 {
        "January"@
    } else if m == 2 {
        "February"@
    } else if m == 3 {
        "March"@
    } else if m == 4 {
        "April"@
    } else if m == 5 {
        "May"@
    } else if m == 6 {
        "June"@
    } else if m == 7 {
        "July"@
    } else if m == 8 {
        "August"@
    } else if m == 9 {
        "September"@
    } else if m == 10 {
        "October"@
    } else if m == 11 {
        "November"@
    } else {
        "December"@
    }
}

/// The display name of a month number.
pub fn month_name(m: u8) -> (r: String)
    requires
        m <= 12,
    ensures
        r@ == month_label(m as int),
{
    if m <= 1 {
        String::from_str("January")
    } else if m == 2 {
        String::from_str("February")
    } else if m == 3 {
        String::from_str("March")
    } else if m == 4 {
        String::from_str("April")
    } else if m == 5 {
        String::from_str("May")
    } else if m == 6 {
        String::from_str("June")
    } else if m == 7 {
        String::from_str("July")
    } else if m == 8 {
        String::from_str("August")
    } else if m == 9 {
        String::from_str("September")
    } else if m == 10 {
        String::from_str("October")
    } else if m == 11 {
        String::from_str("November")
    } else {
        String::from_str("December")
    }
}

/// Read a plan page out of its file names: the stem gives year and month
/// (`2024-5`), the full file name becomes the link target.  Returns
/// nothing exactly when the stem does not name a page.
pub fn path_to_month(stem: &str, href: &str) -> (r: Option<Month>)
    ensures
        r is Some <==> stem_ok(stem@),
        r matches Some(m) ==> {
            &&& m.year == str_val(stem_year_part(stem@))
            &&& m.month == str_val(stem_month_part(stem@))
            &&& m.href@ == href@
            &&& m.name@ == month_label(str_val(stem_month_part(stem@)) as int)
        },
{
    let len = stem.unicode_len();
    let mut p: usize = 0;
    while p < len && stem.get_char(p) != '-'
        invariant
            0 <= p <= len,
            len == stem@.len(),
            forall|k: int| 0 <= k < p ==> stem@[k] != '-',
        decreases len - p,
    {
        p = p + 1;
    }
    proof {
        lemma_first_dash_from(stem@, 0, p as int);
    }
    if p == len {
        return None;
    }
    let year_str = stem.substring_char(0, p);
    proof {
        assert(year_str@ =~= stem_year_part(stem@));
    }
    let year = match parse_u64(year_str) {
        Some(v) => v,
        None => {
            return None;
        },
    };
    let mut q: usize = p + 1;
    while q < len && stem.get_char(q) != '-'
        invariant
            p < q <= len || q == p + 1,
            p + 1 <= q <= len,
            len == stem@.len(),
            forall|k: int| p + 1 <= k < q ==> stem@[k] != '-',
        decreases len - q,
    {
        q = q + 1;
    }
    proof {
        lemma_first_dash_from(stem@, p as int + 1, q as int);
    }
    let month_str = stem.substring_char(p + 1, q);
    proof {
        assert(month_str@ =~= stem_month_part(stem@));
    }
    let month_v = match parse_u64(month_str) {
        Some(v) => v,
        None => {
            return None;
        },
    };
    if month_v > 12 {
        return None;
    }
    let name = month_name(month_v as u8);
    Some(Month { name, year, month: month_v as u8, href: href.to_owned() })
}

} // verus!
