use vstd::prelude::*;

use crate::dto::CampaignSlug;
use crate::router::{
    completes_cycle, counters_valid, eligible, has_eligible, is_selected, lemma_selected_exists,
    route_spec, routed, sum_grade, sum_handle, with_handle, RoutingDecision, RoutingError,
};

verus! {

/// The assignments after `n` consecutive routing calls on one campaign.
pub open spec fn run(rows: Seq<CampaignSlug>, n: nat) -> Seq<CampaignSlug>
    decreases n,
{
    if n == 0 {
        rows
    } else {
        routed(run(rows, (n - 1) as nat))
    }
}

/// How many of the first `n` routing calls chose assignment `i`.
pub open spec fn times_picked(rows: Seq<CampaignSlug>, n: nat, i: int) -> int
    decreases n,
{
    if n == 0 {
        0
    } else {
        let before = run(rows, (n - 1) as nat);
        times_picked(rows, (n - 1) as nat, i) + match route_spec(before) {
            Ok(d) => if d.index as int == i {
                1int
            } else {
                0int
            },
            Err(_) => 0int,
        }
    }
}

/// Two snapshots of one campaign that differ at most in their handles.
pub open spec fn same_assignments(a: Seq<CampaignSlug>, b: Seq<CampaignSlug>) -> bool {
    &&& a.len() == b.len()
    &&& forall|i: int|
        0 <= i < a.len() ==> (#[trigger] a[i]).uuid == b[i].uuid && a[i].operator_id
            == b[i].operator_id && a[i].identity == b[i].identity && a[i].grade == b[i].grade
}

/// Every handle is zero: the start of a cycle.
pub open spec fn fresh(rows: Seq<CampaignSlug>) -> bool {
    forall|i: int| 0 <= i < rows.len() ==> (#[trigger] rows[i]).handle == 0
}

proof fn lemma_sum_grade_same(a: Seq<CampaignSlug>, b: Seq<CampaignSlug>)
    requires
        same_assignments(a, b),
    ensures
        sum_grade(a) == sum_grade(b),
    decreases a.len(),
{
    if a.len() > 0 {
        assert(same_assignments(a.drop_last(), b.drop_last()));
        lemma_sum_grade_same(a.drop_last(), b.drop_last());
    }
}

proof fn lemma_sum_handle_update(rows: Seq<CampaignSlug>, i: int, h: int)
    requires
        0 <= i < rows.len(),
        i32::MIN <= h <= i32::MAX,
    ensures
        sum_handle(rows.update(i, with_handle(rows[i], h))) == sum_handle(rows) - rows[i].handle
            + h,
    decreases rows.len(),
{
    let u = rows.update(i, with_handle(rows[i], h));
    if i == rows.len() - 1 {
        assert(u.drop_last() =~= rows.drop_last());
    } else {
        assert(u.drop_last() =~= rows.drop_last().update(i, with_handle(rows[i], h)));
        lemma_sum_handle_update(rows.drop_last(), i, h);
    }
}

proof fn lemma_sum_handle_zero(rows: Seq<CampaignSlug>)
    requires
        fresh(rows),
    ensures
        sum_handle(rows) == 0,
    decreases rows.len(),
{
    if rows.len() > 0 {
        lemma_sum_handle_zero(rows.drop_last());
    }
}

proof fn lemma_sum_grade_positive(rows: Seq<CampaignSlug>)
    requires
        counters_valid(rows),
    ensures
        sum_grade(rows) >= rows.len(),
        sum_handle(rows) >= 0,
        sum_handle(rows) <= sum_grade(rows),
    decreases rows.len(),
{
    if rows.len() > 0 {
        lemma_sum_grade_positive(rows.drop_last());
    }
}

/// With every handle within its grade, a campaign whose total handle is below
/// its total grade has an eligible assignment.
proof fn lemma_room_means_eligible(rows: Seq<CampaignSlug>)
    requires
        rows.len() <= usize::MAX,
        counters_valid(rows),
        sum_handle(rows) < sum_grade(rows),
    ensures
        has_eligible(rows),
    decreases rows.len(),
{
    let n = rows.len() as int;
    if rows.last().handle == rows.last().grade {
        assert(counters_valid(rows.drop_last()));
        lemma_room_means_eligible(rows.drop_last());
        let i = choose|i: int| 0 <= i < n - 1 && eligible(#[trigger] rows.drop_last()[i]);
        assert(eligible(rows[i]));
    } else {
        assert(eligible(rows[n - 1]));
    }
}

/// With every handle within its grade and one visit short of the total grade,
/// the eligible assignment `j` is one short of its grade and all others full.
proof fn lemma_last_slot(rows: Seq<CampaignSlug>, j: int)
    requires
        counters_valid(rows),
        sum_handle(rows) + 1 == sum_grade(rows),
        0 <= j < rows.len(),
        eligible(rows[j]),
    ensures
        rows[j].handle + 1 == rows[j].grade,
        forall|i: int| 0 <= i < rows.len() && i != j ==> (#[trigger] rows[i]).handle == rows[i].grade,
    decreases rows.len(),
{
    let n = rows.len() as int;
    let init = rows.drop_last();
    assert(counters_valid(init));
    lemma_sum_grade_positive(init);
    if j == n - 1 {
        assert forall|i: int| 0 <= i < n - 1 implies (#[trigger] rows[i]).handle == rows[i].grade by {
            if rows[i].handle != rows[i].grade {
                lemma_one_short(init, i);
            }
        }
    } else {
        assert(init[j] == rows[j]);
        lemma_one_short(init, j);
        lemma_last_slot(init, j);
        assert forall|i: int| 0 <= i < rows.len() && i != j implies (#[trigger] rows[i]).handle
            == rows[i].grade by {
            if i < n - 1 {
                assert(init[i] == rows[i]);
            }
        }
    }
}

/// An assignment below its grade makes the total handle fall short of the
/// total grade by at least that much.
proof fn lemma_one_short(rows: Seq<CampaignSlug>, i: int)
    requires
        counters_valid(rows),
        0 <= i < rows.len(),
    ensures
        sum_grade(rows) - sum_handle(rows) >= rows[i].grade - rows[i].handle,
    decreases rows.len(),
{
    let init = rows.drop_last();
    assert(counters_valid(init));
    lemma_sum_grade_positive(init);
    if i < rows.len() - 1 {
        lemma_one_short(init, i);
        assert(init[i] == rows[i]);
    }
}

/// One routing call inside a cycle: it succeeds, keeps the counters valid and
/// the assignments as they were, and takes the next slot of the cycle.
proof fn lemma_step(rows: Seq<CampaignSlug>)
    requires
        rows.len() <= usize::MAX,
        counters_valid(rows),
        sum_handle(rows) < sum_grade(rows),
    ensures
        route_spec(rows) is Ok,
        is_selected(rows, route_spec(rows)->Ok_0.index as int),
        counters_valid(routed(rows)),
        same_assignments(routed(rows), rows),
        sum_grade(routed(rows)) == sum_grade(rows),
        sum_handle(routed(rows)) == if sum_handle(rows) + 1 == sum_grade(rows) {
            0
        } else {
            sum_handle(rows) + 1
        },
{
    lemma_room_means_eligible(rows);
    lemma_selected_exists(rows);
    let d = route_spec(rows)->Ok_0;
    let i = d.index as int;
    assert(is_selected(rows, i));
    let next = routed(rows);
    if completes_cycle(rows) {
        assert(fresh(next));
        lemma_sum_handle_zero(next);
    } else {
        lemma_sum_handle_update(rows, i, rows[i].handle + 1);
    }
    assert(same_assignments(next, rows));
    lemma_sum_grade_same(next, rows);
}

/// Every handle stays between zero and its grade: if it holds of a snapshot,
/// it holds after any number of routing calls, failed ones included.
pub proof fn lemma_counters_stay_valid(rows: Seq<CampaignSlug>, n: nat)
    requires
        rows.len() <= usize::MAX,
        counters_valid(rows),
    ensures
        counters_valid(run(rows, n)),
        run(rows, n).len() == rows.len(),
    decreases n,
{
    if n > 0 {
        let s = run(rows, (n - 1) as nat);
        lemma_counters_stay_valid(rows, (n - 1) as nat);
        if has_eligible(s) {
            lemma_selected_exists(s);
            assert(is_selected(s, route_spec(s)->Ok_0.index as int));
        }
    }
}

proof fn lemma_next_slot(a: int, g: int)
    requires
        0 <= a,
        0 < g,
    ensures
        (if a % g + 1 == g {
            0
        } else {
            a % g + 1
        }) == (a + 1) % g,
{
    vstd::arithmetic::div_mod::lemma_add_mod_noop(a, 1, g);
    vstd::arithmetic::div_mod::lemma_mod_bound(a, g);
    if g == 1 {
        vstd::arithmetic::div_mod::lemma_mod_self_0(1);
    } else {
        vstd::arithmetic::div_mod::lemma_small_mod(1, g as nat);
        if a % g + 1 == g {
            vstd::arithmetic::div_mod::lemma_mod_self_0(g);
        } else {
            vstd::arithmetic::div_mod::lemma_small_mod((a % g + 1) as nat, g as nat);
        }
    }
}

/// Routing calls served one after another on a campaign whose counters are
/// within bounds and short of a full cycle each succeed, keep the
/// assignments and their bounds, and each takes exactly one slot of the
/// cycle: after `n` calls the total handle is the starting total plus `n`,
/// modulo the total grade. No slot is taken twice and none is skipped.
pub proof fn lemma_serial_calls_take_successive_slots(rows: Seq<CampaignSlug>, n: nat)
    requires
        rows.len() <= usize::MAX,
        counters_valid(rows),
        sum_handle(rows) < sum_grade(rows),
    ensures
        route_spec(run(rows, n)) is Ok,
        counters_valid(run(rows, n)),
        same_assignments(run(rows, n), rows),
        sum_handle(run(rows, n)) == (sum_handle(rows) + n) % sum_grade(rows),
    decreases n,
{
    lemma_sum_grade_positive(rows);
    if n == 0 {
        vstd::arithmetic::div_mod::lemma_small_mod(sum_handle(rows) as nat, sum_grade(rows) as nat);
        lemma_step(rows);
    } else {
        let m = (n - 1) as nat;
        lemma_serial_calls_take_successive_slots(rows, m);
        let s = run(rows, m);
        lemma_sum_grade_same(s, rows);
        vstd::arithmetic::div_mod::lemma_mod_bound(sum_handle(rows) + m, sum_grade(rows));
        lemma_step(s);
        lemma_next_slot(sum_handle(rows) + m, sum_grade(rows));
        let t = run(rows, n);
        assert(same_assignments(t, rows));
        lemma_sum_grade_same(t, rows);
        vstd::arithmetic::div_mod::lemma_mod_bound(sum_handle(rows) + n, sum_grade(rows));
        lemma_step(t);
    }
}

/// The selections of the first `n` calls, summed over the assignments
/// `0..m`.
pub open spec fn picks_sum(rows: Seq<CampaignSlug>, n: nat, m: int) -> int
    decreases m,
{
    if m <= 0 {
        0
    } else {
        picks_sum(rows, n, m - 1) + times_picked(rows, n, m - 1)
    }
}

proof fn lemma_picks_sum_step(rows: Seq<CampaignSlug>, n: nat, m: int, sel: int)
    requires
        n > 0,
        0 <= m,
        route_spec(run(rows, (n - 1) as nat)) is Ok,
        sel == route_spec(run(rows, (n - 1) as nat))->Ok_0.index as int,
    ensures
        picks_sum(rows, n, m) == picks_sum(rows, (n - 1) as nat, m) + if 0 <= sel < m {
            1int
        } else {
            0int
        },
    decreases m,
{
    if m > 0 {
        lemma_picks_sum_step(rows, n, m - 1, sel);
    }
}

/// Routing calls served one after another, starting within a cycle, are
/// each counted once: after `n` calls the selection counts of all
/// assignments add up to `n`.
pub proof fn lemma_selection_counts_add_up(rows: Seq<CampaignSlug>, n: nat)
    requires
        rows.len() <= usize::MAX,
        counters_valid(rows),
        sum_handle(rows) < sum_grade(rows),
    ensures
        picks_sum(rows, n, rows.len() as int) == n,
    decreases n,
{
    if n == 0 {
        lemma_picks_sum_zero(rows, rows.len() as int);
    } else {
        let m = (n - 1) as nat;
        lemma_selection_counts_add_up(rows, m);
        lemma_serial_calls_take_successive_slots(rows, m);
        let s = run(rows, m);
        lemma_sum_grade_same(s, rows);
        lemma_sum_grade_positive(rows);
        vstd::arithmetic::div_mod::lemma_mod_bound(sum_handle(rows) + m, sum_grade(rows));
        lemma_step(s);
        let sel = route_spec(s)->Ok_0.index as int;
        lemma_picks_sum_step(rows, n, rows.len() as int, sel);
    }
}

proof fn lemma_picks_sum_zero(rows: Seq<CampaignSlug>, m: int)
    ensures
        picks_sum(rows, 0, m) == 0,
    decreases m,
{
    if m > 0 {
        lemma_picks_sum_zero(rows, m - 1);
    }
}

proof fn lemma_within_cycle(rows: Seq<CampaignSlug>, k: nat)
    requires
        rows.len() <= usize::MAX,
        counters_valid(rows),
        fresh(rows),
        k < sum_grade(rows),
    ensures
        forall|i: int|
            0 <= i < rows.len() ==> (#[trigger] run(rows, k)[i]).handle == times_picked(rows, k, i),
    decreases k,
{
    if k > 0 {
        let m = (k - 1) as nat;
        lemma_within_cycle(rows, m);
        lemma_sum_handle_zero(rows);
        lemma_serial_calls_take_successive_slots(rows, m);
        let s = run(rows, m);
        lemma_sum_grade_same(s, rows);
        vstd::arithmetic::div_mod::lemma_small_mod(m, sum_grade(rows) as nat);
        vstd::arithmetic::div_mod::lemma_small_mod(k, sum_grade(rows) as nat);
        lemma_step(s);
        assert(!completes_cycle(s));
        assert forall|i: int| 0 <= i < rows.len() implies (#[trigger] run(rows, k)[i]).handle
            == times_picked(rows, k, i) by {
            assert(s[i].handle == times_picked(rows, m, i));
        }
    }
}

/// Over one full cycle from fresh counters, `Σ grade` consecutive routing
/// calls choose each assignment exactly its grade times, and afterwards every
/// handle is back at zero.
pub proof fn lemma_full_cycle(rows: Seq<CampaignSlug>)
    requires
        0 < rows.len() <= usize::MAX,
        counters_valid(rows),
        fresh(rows),
    ensures
        run(rows, sum_grade(rows) as nat) == rows,
        forall|i: int|
            0 <= i < rows.len() ==> times_picked(rows, sum_grade(rows) as nat, i) == (
            #[trigger] rows[i]).grade,
{
    lemma_sum_grade_positive(rows);
    lemma_sum_handle_zero(rows);
    let g = sum_grade(rows);
    let m = (g - 1) as nat;
    lemma_within_cycle(rows, m);
    lemma_serial_calls_take_successive_slots(rows, m);
    let s = run(rows, m);
    lemma_sum_grade_same(s, rows);
    vstd::arithmetic::div_mod::lemma_small_mod(m, g as nat);
    lemma_step(s);
    let j = route_spec(s)->Ok_0.index as int;
    lemma_last_slot(s, j);
    assert(completes_cycle(s));
    assert forall|i: int| 0 <= i < rows.len() implies times_picked(rows, g as nat, i) == (
    #[trigger] rows[i]).grade by {
        assert(s[i].handle == times_picked(rows, m, i));
    }
    assert(run(rows, g as nat) =~= rows);
}

} // verus!
