use vstd::prelude::*;

use chrono::{Datelike, NaiveDate};

use crate::dto::ChartQuery;
use crate::model::Timestamp;
use vstd::string::StringExecFns;

verus! {

/// The day that `NaiveDate::parse_from_str(s, "%Y-%m-%d")` reads from a
/// text, numbered as `Datelike::num_days_from_ce` numbers it (1 January of
/// year 1 is day 1); `None` where it reads none.
pub uninterp spec fn parsed_day(s: Seq<char>) -> Option<int>;

/// What the `Display` of `NaiveDate` writes for a day number: "YYYY-MM-DD"
/// for the years 0 to 9999.
pub uninterp spec fn day_text(d: int) -> Seq<char>;

/// The day numbers of `NaiveDate::MIN` (1 January 262144 BCE) and
/// `NaiveDate::MAX` (31 December 262142 CE): the days chrono represents.
pub const FIRST_DAY: i32 = -95746129;
pub const LAST_DAY: i32 = 95745399;

pub open spec fn day_in_range(d: int) -> bool {
    FIRST_DAY <= d <= LAST_DAY
}

/// Relies on `NaiveDate::parse_from_str` with the format "%Y-%m-%d" and on
/// `Datelike::num_days_from_ce`: what is read depends on the text alone, and
/// is a date chrono represents.
#[verifier::external_body]
fn parse_day(s: &str) -> (r: Option<i32>)
    ensures
        match r {
            Some(d) => parsed_day(s@) == Some(d as int),
            None => parsed_day(s@) is None,
        },
        r matches Some(d) ==> day_in_range(d as int),
{
    match NaiveDate::parse_from_str(s, "%Y-%m-%d") {
        Ok(date) => Some(date.num_days_from_ce()),
        Err(_) => None,
    }
}

/// Relies on `NaiveDate::from_num_days_from_ce_opt`, `None` exactly outside
/// the range of dates chrono represents, and on the `Display` of `NaiveDate`.
#[verifier::external_body]
fn format_day(d: i32) -> (r: Option<String>)
    ensures
        r is Some <==> day_in_range(d as int),
        r matches Some(t) ==> t@ == day_text(d as int),
{
    match NaiveDate::from_num_days_from_ce_opt(d) {
        Some(date) => Some(date.to_string()),
        None => None,
    }
}

/// The days from `first` to `last`, both included; none if `last` comes
/// before `first`.
pub open spec fn days_between(first: int, last: int) -> Seq<i32> {
    Seq::new(if last < first { 0 } else { (last - first + 1) as nat }, |k: int| (first + k) as i32)
}

/// Every day from `first` to `last`, in order.
pub fn day_range(first: i32, last: i32) -> (r: Vec<i32>)
    ensures
        r@ == days_between(first as int, last as int),
{
    let mut out: Vec<i32> = Vec::new();
    if last < first {
        assert(out@ =~= days_between(first as int, last as int));
        return out;
    }
    let mut d: i32 = first;
    loop
        invariant
            first <= d <= last,
            out@ == days_between(first as int, d as int - 1),
        decreases last - d,
    {
        out.push(d);
        assert(out@ =~= days_between(first as int, d as int));
        if d == last {
            return out;
        }
        d = d + 1;
    }
}

/// The dates from `start` to `end` ("YYYY-MM-DD", both included), as text.
/// `None` if either does not parse.
pub fn generate_date_range(start: &str, end: &str) -> (r: Option<Vec<String>>)
    ensures
        parsed_day(start@) is None || parsed_day(end@) is None ==> r is None,
        parsed_day(start@) is Some && parsed_day(end@) is Some ==> r is Some,
        r matches Some(v) ==> {
            let days = days_between(parsed_day(start@)->Some_0, parsed_day(end@)->Some_0);
            &&& parsed_day(start@) is Some
            &&& parsed_day(end@) is Some
            &&& v@.len() == days.len()
            &&& forall|k: int| 0 <= k < v@.len() ==> (#[trigger] v@[k])@ == day_text(days[k] as int)
        },
{
    let first = match parse_day(start) {
        Some(d) => d,
        None => return None,
    };
    let last = match parse_day(end) {
        Some(d) => d,
        None => return None,
    };
    let days = day_range(first, last);
    day_labels(&days)
}

/// The text of each day, or `None` if one cannot be written.
fn day_labels(days: &Vec<i32>) -> (r: Option<Vec<String>>)
    requires
        forall|k: int| 0 <= k < days@.len() ==> day_in_range(#[trigger] days@[k] as int),
    ensures
        r is Some,
        r matches Some(v) ==> v@.len() == days@.len() && forall|k: int|
            0 <= k < v@.len() ==> (#[trigger] v@[k])@ == day_text(days@[k] as int),
{
    let mut out: Vec<String> = Vec::new();
    let mut k: usize = 0;
    while k < days.len()
        invariant
            forall|k: int| 0 <= k < days@.len() ==> day_in_range(#[trigger] days@[k] as int),
            0 <= k <= days@.len(),
            out@.len() == k,
            forall|j: int| 0 <= j < k ==> (#[trigger] out@[j])@ == day_text(days@[j] as int),
        decreases days@.len() - k,
    {
        match format_day(days[k]) {
            Some(t) => out.push(t),
            None => return None,
        }
        k = k + 1;
    }
    Some(out)
}

/// A chart: the dates along its axis and one series per operator.
pub struct Chart {
    pub categories: Vec<String>,
    pub series: Vec<ChartSeries>,
}

/// The chart of a campaign's daily visits from `start` to `end`
/// ("YYYY-MM-DD", both included). `None` if either date does not parse.
pub fn campaign_chart(reports: &Vec<ReportChart>, start: &str, end: &str) -> (r: Option<Chart>)
    ensures
        parsed_day(start@) is None || parsed_day(end@) is None ==> r is None,
        parsed_day(start@) is Some && parsed_day(end@) is Some ==> r is Some,
        r matches Some(c) ==> {
            let days = days_between(parsed_day(start@)->Some_0, parsed_day(end@)->Some_0);
            &&& parsed_day(start@) is Some
            &&& parsed_day(end@) is Some
            &&& c.categories@.len() == days.len()
            &&& forall|k: int|
                0 <= k < days.len() ==> (#[trigger] c.categories@[k])@ == day_text(days[k] as int)
            &&& c.series@.len() == operator_names(reports@).len()
            &&& forall|i: int|
                0 <= i < c.series@.len() ==> {
                    let s = #[trigger] c.series@[i];
                    &&& s.name@ == operator_names(reports@)[i]
                    &&& s.data@.len() == days.len()
                    &&& forall|k: int|
                        0 <= k < days.len() ==> s.data@[k] as int == total_on(
                            reports@,
                            s.name@,
                            days[k] as int,
                        )
                }
        },
{
    let first = match parse_day(start) {
        Some(d) => d,
        None => return None,
    };
    let last = match parse_day(end) {
        Some(d) => d,
        None => return None,
    };
    let days = day_range(first, last);
    match day_labels(&days) {
        None => None,
        Some(categories) => {
            let series = chart_series(reports, &days);
            Some(Chart { categories, series })
        },
    }
}

impl ChartQuery {
    /// The first and last moments of the queried range, as the store
    /// compares them: the start date at 00:00:00 and the end date at 23:59:59.
    pub fn bounds(&self) -> (r: (String, String))
        ensures
            r.0@ == self.start_date@ + " 00:00:00"@,
            r.1@ == self.end_date@ + " 23:59:59"@,
    {
        let mut from = self.start_date.clone();
        from.append(" 00:00:00");
        let mut to = self.end_date.clone();
        to.append(" 23:59:59");
        (from, to)
    }
}

/// One recorded visit, as listed for a campaign.
pub struct ReportVisitor {
    pub uuid: String,
    pub operator_name: String,
    pub device: String,
    pub maps: String,
    pub ip_address: String,
    pub location: String,
    pub created_at: Timestamp,
}

/// Visits of one operator on one day.
pub struct ReportChart {
    pub operator_name: String,
    pub total: i32,
    /// The day, numbered from 1 January of year 1 as day 1.
    pub report_date: i32,
}

/// One line of a chart: an operator and its visits per day.
pub struct ChartSeries {
    pub name: String,
    pub data: Vec<i32>,
}

/// The operator names of `reports`, each once, in order of first appearance.
pub open spec fn operator_names(reports: Seq<ReportChart>) -> Seq<Seq<char>>
    decreases reports.len(),
{
    if reports.len() == 0 {
        Seq::empty()
    } else {
        let names = operator_names(reports.drop_last());
        if names.contains(reports.last().operator_name@) {
            names
        } else {
            names.push(reports.last().operator_name@)
        }
    }
}

/// The visits of operator `name` on `day`: the last report of that pair
/// counts, and zero where there is none.
pub open spec fn total_on(reports: Seq<ReportChart>, name: Seq<char>, day: int) -> int
    decreases reports.len(),
{
    if reports.len() == 0 {
        0
    } else if reports.last().operator_name@ == name && reports.last().report_date == day {
        reports.last().total as int
    } else {
        total_on(reports.drop_last(), name, day)
    }
}

/// At most one report for each operator and day.
pub open spec fn pairs_unique(reports: Seq<ReportChart>) -> bool {
    forall|i: int, j: int|
        0 <= i < reports.len() && 0 <= j < reports.len() && i != j ==> !((#[trigger] reports[i]).operator_name@
            == (#[trigger] reports[j]).operator_name@ && reports[i].report_date == reports[j].report_date)
}

/// The series of operator `name` over `days`, summed.
pub open spec fn series_total(reports: Seq<ReportChart>, name: Seq<char>, days: Seq<i32>) -> int
    decreases days.len(),
{
    if days.len() == 0 {
        0
    } else {
        series_total(reports, name, days.drop_last()) + total_on(reports, name, days.last() as int)
    }
}

/// The totals of the reports of operator `name` dated from `first` to `last`.
pub open spec fn reported_total(reports: Seq<ReportChart>, name: Seq<char>, first: int, last: int) -> int
    decreases reports.len(),
{
    if reports.len() == 0 {
        0
    } else {
        let x = reports.last();
        reported_total(reports.drop_last(), name, first, last) + if x.operator_name@ == name && first
            <= x.report_date <= last {
            x.total as int
        } else {
            0
        }
    }
}

/// How many of `days` are `d`.
pub open spec fn hits(days: Seq<i32>, d: int) -> int
    decreases days.len(),
{
    if days.len() == 0 {
        0
    } else {
        hits(days.drop_last(), d) + if days.last() as int == d {
            1int
        } else {
            0int
        }
    }
}

proof fn lemma_hits_range(first: i32, last: i32, d: int)
    ensures
        hits(days_between(first as int, last as int), d) == if first <= d <= last {
            1int
        } else {
            0int
        },
    decreases last - first,
{
    let days = days_between(first as int, last as int);
    if first <= last {
        assert(days.drop_last() =~= days_between(first as int, last as int - 1));
        assert(days.last() == last);
        if first < last {
            lemma_hits_range(first, (last - 1) as i32, d);
        } else {
            assert(days.drop_last().len() == 0);
            assert(hits(days.drop_last(), d) == 0);
        }
    } else {
        assert(days.len() == 0);
    }
}

proof fn lemma_no_report_no_total(reports: Seq<ReportChart>, name: Seq<char>, d: int)
    requires
        forall|i: int|
            0 <= i < reports.len() ==> !((#[trigger] reports[i]).operator_name@ == name
                && reports[i].report_date == d),
    ensures
        total_on(reports, name, d) == 0,
    decreases reports.len(),
{
    if reports.len() > 0 {
        let init = reports.drop_last();
        assert forall|i: int| 0 <= i < init.len() implies !((#[trigger] init[i]).operator_name@ == name
            && init[i].report_date == d) by {
            assert(init[i] == reports[i]);
        }
        lemma_no_report_no_total(init, name, d);
    }
}

proof fn lemma_series_split(reports: Seq<ReportChart>, name: Seq<char>, days: Seq<i32>)
    requires
        reports.len() > 0,
        pairs_unique(reports),
    ensures
        series_total(reports, name, days) == series_total(reports.drop_last(), name, days) + if reports.last().operator_name@
            == name {
            reports.last().total * hits(days, reports.last().report_date as int)
        } else {
            0
        },
    decreases days.len(),
{
    if days.len() > 0 {
        lemma_series_split(reports, name, days.drop_last());
        let x = reports.last();
        let init = reports.drop_last();
        let d = days.last() as int;
        if x.operator_name@ == name && x.report_date == d {
            assert forall|i: int| 0 <= i < init.len() implies !((#[trigger] init[i]).operator_name@
                == name && init[i].report_date == d) by {
                assert(init[i] == reports[i]);
                assert(reports[reports.len() - 1] == x);
            }
            lemma_no_report_no_total(init, name, d);
        }
        let h = hits(days.drop_last(), x.report_date as int);
        assert(x.total * (h + 1) == x.total * h + x.total) by (nonlinear_arith);
    }
}

/// Each operator's series counts every visit it reported within the range
/// once: with at most one report per operator and day, the series of `name`
/// over the days from `first` to `last`, summed, equals the totals of its
/// reports dated in that range.
pub proof fn lemma_series_add_up(reports: Seq<ReportChart>, name: Seq<char>, first: i32, last: i32)
    requires
        pairs_unique(reports),
    ensures
        series_total(reports, name, days_between(first as int, last as int)) == reported_total(
            reports,
            name,
            first as int,
            last as int,
        ),
    decreases reports.len(),
{
    let days = days_between(first as int, last as int);
    if reports.len() == 0 {
        lemma_series_empty(reports, name, days);
    } else {
        let init = reports.drop_last();
        assert(pairs_unique(init)) by {
            assert forall|i: int, j: int|
                0 <= i < init.len() && 0 <= j < init.len() && i != j implies !((
                #[trigger] init[i]).operator_name@ == (#[trigger] init[j]).operator_name@
                && init[i].report_date == init[j].report_date) by {
                assert(init[i] == reports[i]);
                assert(init[j] == reports[j]);
            }
        }
        lemma_series_add_up(init, name, first, last);
        lemma_series_split(reports, name, days);
        lemma_hits_range(first, last, reports.last().report_date as int);
    }
}

proof fn lemma_series_empty(reports: Seq<ReportChart>, name: Seq<char>, days: Seq<i32>)
    requires
        reports.len() == 0,
    ensures
        series_total(reports, name, days) == 0,
    decreases days.len(),
{
    if days.len() > 0 {
        lemma_series_empty(reports, name, days.drop_last());
    }
}

fn index_of(names: &Vec<String>, name: &String) -> (r: Option<usize>)
    ensures
        match r {
            Some(i) => i < names@.len() && names@[i as int]@ == name@,
            None => forall|j: int| 0 <= j < names@.len() ==> (#[trigger] names@[j])@ != name@,
        },
{
    let mut k: usize = 0;
    while k < names.len()
        invariant
            0 <= k <= names@.len(),
            forall|j: int| 0 <= j < k ==> (#[trigger] names@[j])@ != name@,
        decreases names@.len() - k,
    {
        if names[k] == *name {
            return Some(k);
        }
        k = k + 1;
    }
    None
}

fn last_total(reports: &Vec<ReportChart>, name: &String, day: i32) -> (r: i32)
    ensures
        r as int == total_on(reports@, name@, day as int),
{
    let mut k: usize = reports.len();
    assert(reports@.subrange(0, k as int) =~= reports@);
    while k > 0
        invariant
            k <= reports@.len(),
            total_on(reports@, name@, day as int) == total_on(
                reports@.subrange(0, k as int),
                name@,
                day as int,
            ),
        decreases k,
    {
        let rep = &reports[k - 1];
        assert(reports@.subrange(0, k as int).drop_last() =~= reports@.subrange(0, k - 1));
        if rep.operator_name == *name && rep.report_date == day {
            return rep.total;
        }
        k = k - 1;
    }
    0
}

/// Arranges daily visit counts into one series per operator, over the given
/// days: operators in order of first appearance, each with its count for
/// every day, zero where no report gives one.
pub fn chart_series(reports: &Vec<ReportChart>, days: &Vec<i32>) -> (r: Vec<ChartSeries>)
    ensures
        r@.len() == operator_names(reports@).len(),
        forall|i: int|
            0 <= i < r@.len() ==> {
                let s = #[trigger] r@[i];
                &&& s.name@ == operator_names(reports@)[i]
                &&& s.data@.len() == days@.len()
                &&& forall|k: int|
                    0 <= k < days@.len() ==> s.data@[k] as int == total_on(
                        reports@,
                        s.name@,
                        days@[k] as int,
                    )
            },
{
    let mut names: Vec<String> = Vec::new();
    let mut j: usize = 0;
    while j < reports.len()
        invariant
            0 <= j <= reports@.len(),
            names@.map_values(|s: String| s@) == operator_names(reports@.subrange(0, j as int)),
        decreases reports@.len() - j,
    {
        let name = &reports[j].operator_name;
        let ghost before = names@;
        assert(reports@.subrange(0, j + 1).drop_last() =~= reports@.subrange(0, j as int));
        match index_of(&names, name) {
            Some(i) => {
                assert(names@.map_values(|s: String| s@)[i as int] == name@);
            },
            None => {
                assert(!names@.map_values(|s: String| s@).contains(name@));
                names.push(name.clone());
                assert(names@.map_values(|s: String| s@) =~= before.map_values(|s: String| s@).push(
                    name@,
                ));
            },
        }
        j = j + 1;
    }
    assert(reports@.subrange(0, reports@.len() as int) =~= reports@);
    let mut out: Vec<ChartSeries> = Vec::new();
    let mut i: usize = 0;
    while i < names.len()
        invariant
            0 <= i <= names@.len(),
            names@.map_values(|s: String| s@) == operator_names(reports@),
            out@.len() == i,
            forall|m: int|
                0 <= m < i ==> {
                    let s = #[trigger] out@[m];
                    &&& s.name@ == operator_names(reports@)[m]
                    &&& s.data@.len() == days@.len()
                    &&& forall|k: int|
                        0 <= k < days@.len() ==> s.data@[k] as int == total_on(
                            reports@,
                            s.name@,
                            days@[k] as int,
                        )
                },
        decreases names@.len() - i,
    {
        let name = &names[i];
        let mut data: Vec<i32> = Vec::new();
        let mut k: usize = 0;
        while k < days.len()
            invariant
                0 <= k <= days@.len(),
                data@.len() == k,
                forall|q: int|
                    0 <= q < k ==> (#[trigger] data@[q]) as int == total_on(
                        reports@,
                        name@,
                        days@[q] as int,
                    ),
            decreases days@.len() - k,
        {
            data.push(last_total(reports, name, days[k]));
            k = k + 1;
        }
        assert(names@.map_values(|s: String| s@)[i as int] == name@);
        out.push(ChartSeries { name: name.clone(), data });
        i = i + 1;
    }
    out
}

} // verus!
