use vstd::prelude::*;

use crate::device::chars_of;
use crate::dto::CampaignSlug;

verus! {

/// Why a routing call did not select an operator.
#[derive(PartialEq, Eq, Structural, Debug, Clone, Copy)]
pub enum RoutingError {
    /// No active assignment exists for the slug.
    NoEligibleOperator,
    /// Every assignment has reached its grade and no reset fired.
    RoutingExhausted,
    /// The store failed; nothing was applied.
    StorageError,
}

/// An assignment may still be chosen in the current cycle.
pub open spec fn eligible(a: CampaignSlug) -> bool {
    a.handle != a.grade
}

pub open spec fn has_eligible(rows: Seq<CampaignSlug>) -> bool {
    exists|i: int| 0 <= i < rows.len() && eligible(#[trigger] rows[i])
}

/// Assignment id `a` comes before `b`: lexicographic order on characters,
/// a proper prefix first.
pub open spec fn id_before(a: Seq<char>, b: Seq<char>) -> bool
    decreases a.len(),
{
    if b.len() == 0 {
        false
    } else if a.len() == 0 {
        true
    } else if a[0] != b[0] {
        (a[0] as u32) < (b[0] as u32)
    } else {
        id_before(a.drop_first(), b.drop_first())
    }
}

/// Row `i` is routed to ahead of row `j`: a larger grade, or an equal grade
/// and a smaller assignment id. Rows that share an id (which the store never
/// holds) fall back to their position.
pub open spec fn ranks_before(rows: Seq<CampaignSlug>, i: int, j: int) -> bool {
    rows[i].grade > rows[j].grade || (rows[i].grade == rows[j].grade && (id_before(
        rows[i].uuid@,
        rows[j].uuid@,
    ) || (rows[i].uuid@ == rows[j].uuid@ && i <= j)))
}

/// `i` is the assignment that routing picks: eligible, and ahead of every
/// other eligible one (largest grade, then least assignment id).
pub open spec fn is_selected(rows: Seq<CampaignSlug>, i: int) -> bool {
    &&& 0 <= i < rows.len()
    &&& eligible(rows[i])
    &&& forall|j: int| 0 <= j < rows.len() && eligible(#[trigger] rows[j]) ==> ranks_before(rows, i, j)
}

pub proof fn lemma_id_before_irreflexive(a: Seq<char>)
    ensures
        !id_before(a, a),
    decreases a.len(),
{
    if a.len() > 0 {
        lemma_id_before_irreflexive(a.drop_first());
    }
}

pub proof fn lemma_id_before_asymmetric(a: Seq<char>, b: Seq<char>)
    ensures
        !(id_before(a, b) && id_before(b, a)),
    decreases a.len(),
{
    if a.len() > 0 && b.len() > 0 && a[0] == b[0] {
        lemma_id_before_asymmetric(a.drop_first(), b.drop_first());
    }
}

pub proof fn lemma_id_before_total(a: Seq<char>, b: Seq<char>)
    ensures
        a == b || id_before(a, b) || id_before(b, a),
    decreases a.len(),
{
    if a.len() > 0 && b.len() > 0 && a[0] == b[0] {
        lemma_id_before_total(a.drop_first(), b.drop_first());
        if a.drop_first() == b.drop_first() {
            assert(a =~= seq![a[0]] + a.drop_first());
            assert(b =~= seq![b[0]] + b.drop_first());
        }
    } else if a.len() > 0 && b.len() > 0 {
        vstd::utf8::char_u32_cast(a[0], a[0] as u32);
        vstd::utf8::char_u32_cast(b[0], b[0] as u32);
    } else if a.len() == 0 && b.len() == 0 {
        assert(a =~= b);
    }
}

pub proof fn lemma_id_before_transitive(a: Seq<char>, b: Seq<char>, c: Seq<char>)
    requires
        id_before(a, b),
        id_before(b, c),
    ensures
        id_before(a, c),
    decreases a.len(),
{
    if a.len() > 0 && a[0] == b[0] && b[0] == c[0] {
        lemma_id_before_transitive(a.drop_first(), b.drop_first(), c.drop_first());
    }
}

pub(crate) proof fn lemma_ranks_transitive(rows: Seq<CampaignSlug>, i: int, j: int, k: int)
    requires
        ranks_before(rows, i, j),
        ranks_before(rows, j, k),
    ensures
        ranks_before(rows, i, k),
{
    if rows[i].grade == rows[j].grade && rows[j].grade == rows[k].grade {
        if id_before(rows[i].uuid@, rows[j].uuid@) && id_before(rows[j].uuid@, rows[k].uuid@) {
            lemma_id_before_transitive(rows[i].uuid@, rows[j].uuid@, rows[k].uuid@);
        }
    }
}

pub(crate) proof fn lemma_ranks_total(rows: Seq<CampaignSlug>, i: int, j: int)
    ensures
        ranks_before(rows, i, j) || ranks_before(rows, j, i),
{
    lemma_id_before_total(rows[i].uuid@, rows[j].uuid@);
}

pub(crate) proof fn lemma_ranks_antisymmetric(rows: Seq<CampaignSlug>, i: int, j: int)
    requires
        ranks_before(rows, i, j),
        ranks_before(rows, j, i),
    ensures
        i == j,
{
    lemma_id_before_asymmetric(rows[i].uuid@, rows[j].uuid@);
    lemma_id_before_irreflexive(rows[i].uuid@);
}

pub open spec fn sum_grade(rows: Seq<CampaignSlug>) -> int
    decreases rows.len(),
{
    if rows.len() == 0 {
        0
    } else {
        sum_grade(rows.drop_last()) + rows.last().grade
    }
}

pub open spec fn sum_handle(rows: Seq<CampaignSlug>) -> int
    decreases rows.len(),
{
    if rows.len() == 0 {
        0
    } else {
        sum_handle(rows.drop_last()) + rows.last().handle
    }
}

/// The visit about to be routed completes the weighted cycle, judged on the
/// counters before the increment. A lone assignment of grade one thus
/// completes its cycle on every visit, and its handle never stays at one.
pub open spec fn completes_cycle(rows: Seq<CampaignSlug>) -> bool {
    sum_grade(rows) == sum_handle(rows) + 1
}

/// What routing decided on one snapshot: which assignment is chosen, and
/// whether every counter of the campaign goes back to zero.
#[derive(PartialEq, Eq, Structural, Debug, Clone, Copy)]
pub struct RoutingDecision {
    pub index: usize,
    pub reset: bool,
}

/// The decision for a snapshot, as a value.
pub open spec fn route_spec(rows: Seq<CampaignSlug>) -> Result<RoutingDecision, RoutingError> {
    if rows.len() == 0 {
        Err(RoutingError::NoEligibleOperator)
    } else if !has_eligible(rows) {
        Err(RoutingError::RoutingExhausted)
    } else {
        let i = choose|i: int| is_selected(rows, i);
        Ok(RoutingDecision { index: i as usize, reset: completes_cycle(rows) })
    }
}

proof fn lemma_sums_step(rows: Seq<CampaignSlug>, k: int)
    requires
        0 <= k < rows.len(),
    ensures
        sum_grade(rows.subrange(0, k + 1)) == sum_grade(rows.subrange(0, k)) + rows[k].grade,
        sum_handle(rows.subrange(0, k + 1)) == sum_handle(rows.subrange(0, k)) + rows[k].handle,
{
    assert(rows.subrange(0, k + 1).drop_last() =~= rows.subrange(0, k));
}

proof fn lemma_sum_bounds(rows: Seq<CampaignSlug>)
    ensures
        -2147483648 * rows.len() <= sum_grade(rows) <= 2147483647 * rows.len(),
        -2147483648 * rows.len() <= sum_handle(rows) <= 2147483647 * rows.len(),
    decreases rows.len(),
{
    if rows.len() > 0 {
        lemma_sum_bounds(rows.drop_last());
    }
}

/// Chooses the next assignment of a campaign by weighted round robin.
///
/// Among the assignments whose handle has not reached their grade, the one of
/// largest grade is chosen; of equal grades, the one with the least
/// assignment id, whatever order the rows come in. The reset flag says
/// whether this visit completes the cycle: total grade equals total handle
/// plus one, over all rows, before the increment.
pub fn select_route(rows: &Vec<CampaignSlug>) -> (r: Result<RoutingDecision, RoutingError>)
    ensures
        r == route_spec(rows@),
        r is Ok ==> is_selected(rows@, r->Ok_0.index as int),
{
    if rows.len() == 0 {
        return Err(RoutingError::NoEligibleOperator);
    }
    let mut best: Option<usize> = None;
    let mut total_grade: i128 = 0;
    let mut total_handle: i128 = 0;
    let mut k: usize = 0;
    while k < rows.len()
        invariant
            0 <= k <= rows@.len(),
            total_grade == sum_grade(rows@.subrange(0, k as int)),
            total_handle == sum_handle(rows@.subrange(0, k as int)),
            best is None ==> forall|j: int| 0 <= j < k ==> !eligible(#[trigger] rows@[j]),
            best is Some ==> {
                let b = best->Some_0 as int;
                &&& 0 <= b < k
                &&& eligible(rows@[b])
                &&& forall|j: int|
                    0 <= j < k && eligible(#[trigger] rows@[j]) ==> ranks_before(rows@, b, j)
            },
        decreases rows@.len() - k,
    {
        proof {
            lemma_sums_step(rows@, k as int);
            lemma_sum_bounds(rows@.subrange(0, k as int + 1));
        }
        let row = &rows[k];
        total_grade = total_grade + row.grade as i128;
        total_handle = total_handle + row.handle as i128;
        if row.handle != row.grade {
            match best {
                None => {
                    proof {
                        lemma_id_before_irreflexive(rows@[k as int].uuid@);
                    }
                    best = Some(k);
                },
                Some(b) => {
                    let other = &rows[b];
                    proof {
                        lemma_ranks_total(rows@, k as int, b as int);
                    }
                    if row.grade > other.grade || (row.grade == other.grade && id_less(
                        &row.uuid,
                        &other.uuid,
                    )) {
                        assert forall|j: int|
                            0 <= j < k + 1 && eligible(#[trigger] rows@[j]) implies ranks_before(
                            rows@,
                            k as int,
                            j,
                        ) by {
                            if j < k {
                                lemma_ranks_transitive(rows@, k as int, b as int, j);
                            } else {
                                lemma_id_before_irreflexive(rows@[j].uuid@);
                            }
                        }
                        best = Some(k);
                    } else {
                        proof {
                            lemma_id_before_irreflexive(rows@[k as int].uuid@);
                        }
                        assert(ranks_before(rows@, b as int, k as int));
                    }
                },
            }
        }
        k = k + 1;
    }
    assert(rows@.subrange(0, rows@.len() as int) =~= rows@);
    proof {
        lemma_sum_bounds(rows@);
    }
    match best {
        None => {
            assert(!has_eligible(rows@));
            Err(RoutingError::RoutingExhausted)
        },
        Some(b) => {
            proof {
                assert(is_selected(rows@, b as int));
                lemma_selection_unique(rows@, b as int, choose|i: int| is_selected(rows@, i));
            }
            Ok(RoutingDecision { index: b, reset: total_grade == total_handle + 1 })
        },
    }
}

/// Routing is deterministic: one snapshot has exactly one selected assignment.
pub proof fn lemma_selection_unique(rows: Seq<CampaignSlug>, i: int, j: int)
    requires
        is_selected(rows, i),
        is_selected(rows, j),
    ensures
        i == j,
{
    assert(eligible(rows[j]));
    assert(eligible(rows[i]));
    lemma_ranks_antisymmetric(rows, i, j);
}

/// A snapshot with an eligible assignment has a selected one.
pub(crate) proof fn lemma_selected_exists(rows: Seq<CampaignSlug>)
    requires
        has_eligible(rows),
    ensures
        exists|i: int| is_selected(rows, i),
    decreases rows.len(),
{
    let n = rows.len() as int;
    let init = rows.drop_last();
    if has_eligible(init) {
        lemma_selected_exists(init);
        let i0 = choose|i: int| is_selected(init, i);
        assert(init[i0] == rows[i0]);
        lemma_ranks_total(rows, n - 1, i0);
        if eligible(rows[n - 1]) && ranks_before(rows, n - 1, i0) {
            assert forall|j: int| 0 <= j < n && eligible(#[trigger] rows[j]) implies ranks_before(
                rows,
                n - 1,
                j,
            ) by {
                if j < n - 1 {
                    assert(init[j] == rows[j]);
                    assert(ranks_before(init, i0, j));
                    lemma_ranks_transitive(rows, n - 1, i0, j);
                } else {
                    lemma_id_before_irreflexive(rows[j].uuid@);
                }
            }
            assert(is_selected(rows, n - 1));
        } else {
            assert forall|j: int| 0 <= j < n && eligible(#[trigger] rows[j]) implies ranks_before(
                rows,
                i0,
                j,
            ) by {
                if j < n - 1 {
                    assert(init[j] == rows[j]);
                    assert(ranks_before(init, i0, j));
                }
            }
            assert(is_selected(rows, i0));
        }
    } else {
        assert forall|j: int| 0 <= j < n && eligible(#[trigger] rows[j]) implies j == n - 1 by {
            if j < n - 1 {
                assert(eligible(init[j]));
            }
        }
        let w = choose|i: int| 0 <= i < n && eligible(#[trigger] rows[i]);
        assert(w == n - 1);
        lemma_id_before_irreflexive(rows[n - 1].uuid@);
        assert(is_selected(rows, n - 1));
    }
}

/// Every assignment id occurs once in the snapshot.
pub open spec fn ids_unique(rows: Seq<CampaignSlug>) -> bool {
    forall|i: int, j: int|
        0 <= i < rows.len() && 0 <= j < rows.len() && i != j ==> (#[trigger] rows[i]).uuid@ != (
        #[trigger] rows[j]).uuid@
}

proof fn lemma_sums_remove(rows: Seq<CampaignSlug>, j: int)
    requires
        0 <= j < rows.len(),
    ensures
        sum_grade(rows.remove(j)) == sum_grade(rows) - rows[j].grade,
        sum_handle(rows.remove(j)) == sum_handle(rows) - rows[j].handle,
    decreases rows.len(),
{
    if j == rows.len() - 1 {
        assert(rows.remove(j) =~= rows.drop_last());
    } else {
        lemma_sums_remove(rows.drop_last(), j);
        assert(rows.remove(j).drop_last() =~= rows.drop_last().remove(j));
    }
}

proof fn lemma_sums_same_rows(a: Seq<CampaignSlug>, b: Seq<CampaignSlug>)
    requires
        a.to_multiset() == b.to_multiset(),
    ensures
        sum_grade(a) == sum_grade(b),
        sum_handle(a) == sum_handle(b),
    decreases a.len(),
{
    broadcast use vstd::seq_lib::group_to_multiset_ensures, vstd::multiset::group_multiset_axioms;

    vstd::seq_lib::to_multiset_len(a);
    vstd::seq_lib::to_multiset_len(b);
    if a.len() == 0 {
        assert(b.len() == 0);
    } else {
        let x = a.last();
        assert(a.to_multiset().count(x) > 0) by {
            assert(a[a.len() - 1] == x);
        }
        assert(b.contains(x));
        let j = choose|j: int| 0 <= j < b.len() && b[j] == x;
        assert(a =~= a.drop_last().push(x));
        assert(b.remove(j).to_multiset() =~= a.drop_last().to_multiset());
        lemma_sums_same_rows(a.drop_last(), b.remove(j));
        lemma_sums_remove(b, j);
    }
}

/// Routing does not depend on the order in which the store hands over the
/// assignments: two snapshots holding the same rows, each id once, fail with
/// the same error, or choose the same row and agree on the reset.
pub proof fn lemma_choice_ignores_load_order(rows1: Seq<CampaignSlug>, rows2: Seq<CampaignSlug>)
    requires
        rows1.len() <= usize::MAX,
        rows1.to_multiset() == rows2.to_multiset(),
        ids_unique(rows1),
        ids_unique(rows2),
    ensures
        route_spec(rows1) is Err ==> route_spec(rows2) == route_spec(rows1),
        route_spec(rows1) is Ok ==> {
            let d1 = route_spec(rows1)->Ok_0;
            let d2 = route_spec(rows2)->Ok_0;
            &&& route_spec(rows2) is Ok
            &&& rows2[d2.index as int] == rows1[d1.index as int]
            &&& d2.reset == d1.reset
        },
{
    broadcast use vstd::seq_lib::group_to_multiset_ensures;

    vstd::seq_lib::to_multiset_len(rows1);
    vstd::seq_lib::to_multiset_len(rows2);
    assert(rows1.len() == rows2.len());
    lemma_sums_same_rows(rows1, rows2);
    assert(has_eligible(rows1) == has_eligible(rows2)) by {
        if has_eligible(rows1) {
            let i = choose|i: int| 0 <= i < rows1.len() && eligible(#[trigger] rows1[i]);
            assert(rows1.to_multiset().count(rows1[i]) > 0) by {
                assert(rows1.contains(rows1[i]));
            }
            let j = choose|j: int| 0 <= j < rows2.len() && rows2[j] == rows1[i];
            assert(eligible(rows2[j]));
        }
        if has_eligible(rows2) {
            let i = choose|i: int| 0 <= i < rows2.len() && eligible(#[trigger] rows2[i]);
            assert(rows2.to_multiset().count(rows2[i]) > 0) by {
                assert(rows2.contains(rows2[i]));
            }
            let j = choose|j: int| 0 <= j < rows1.len() && rows1[j] == rows2[i];
            assert(eligible(rows1[j]));
        }
    }
    if route_spec(rows1) is Ok {
        lemma_selected_exists(rows1);
        let i = choose|i: int| is_selected(rows1, i);
        let x = rows1[i];
        assert(rows1.to_multiset().count(x) > 0) by {
            assert(rows1.contains(x));
        }
        let j = choose|j: int| 0 <= j < rows2.len() && rows2[j] == x;
        assert forall|k: int| 0 <= k < rows2.len() && eligible(#[trigger] rows2[k]) implies ranks_before(
            rows2,
            j,
            k,
        ) by {
            let y = rows2[k];
            assert(rows2.to_multiset().count(y) > 0) by {
                assert(rows2.contains(y));
            }
            let m = choose|m: int| 0 <= m < rows1.len() && rows1[m] == y;
            assert(ranks_before(rows1, i, m));
            if k == j {
                lemma_id_before_irreflexive(x.uuid@);
            } else {
                assert(rows2[j].uuid@ != rows2[k].uuid@);
            }
        }
        assert(is_selected(rows2, j));
        lemma_selection_unique(rows2, j, choose|i: int| is_selected(rows2, i));
    }
}

/// Whether assignment id `a` comes before `b`.
fn id_less(a: &String, b: &String) -> (r: bool)
    ensures
        r == id_before(a@, b@),
{
    let x = chars_of(a.as_str());
    let y = chars_of(b.as_str());
    let mut k: usize = 0;
    assert(a@.subrange(0, a@.len() as int) =~= a@);
    assert(b@.subrange(0, b@.len() as int) =~= b@);
    while k < x.len() && k < y.len()
        invariant
            x@ == a@,
            y@ == b@,
            k <= x@.len(),
            k <= y@.len(),
            id_before(a@, b@) == id_before(
                a@.subrange(k as int, a@.len() as int),
                b@.subrange(k as int, b@.len() as int),
            ),
        decreases x@.len() - k,
    {
        let ghost sa = a@.subrange(k as int, a@.len() as int);
        let ghost sb = b@.subrange(k as int, b@.len() as int);
        if x[k] != y[k] {
            return (x[k] as u32) < (y[k] as u32);
        }
        assert(sa.drop_first() =~= a@.subrange(k + 1, a@.len() as int));
        assert(sb.drop_first() =~= b@.subrange(k + 1, b@.len() as int));
        k = k + 1;
    }
    k < y.len()
}

/// The counters of every assignment stay within bounds: grade at least one,
/// handle between zero and grade.
pub open spec fn counters_valid(rows: Seq<CampaignSlug>) -> bool {
    forall|i: int|
        0 <= i < rows.len() ==> 1 <= (#[trigger] rows[i]).grade && 0 <= rows[i].handle
            <= rows[i].grade
}

/// The assignment with its handle replaced.
pub open spec fn with_handle(a: CampaignSlug, h: int) -> CampaignSlug {
    CampaignSlug { handle: h as i32, ..a }
}

/// The campaign's assignments after choosing `i`: its handle goes up by one,
/// unless the visit completes the cycle, in which case every handle is zero.
pub open spec fn advanced(rows: Seq<CampaignSlug>, i: int) -> Seq<CampaignSlug> {
    if completes_cycle(rows) {
        rows.map_values(|a: CampaignSlug| with_handle(a, 0))
    } else {
        rows.update(i, with_handle(rows[i], rows[i].handle + 1))
    }
}

/// The assignments after one routing call; a failed call changes nothing.
pub open spec fn routed(rows: Seq<CampaignSlug>) -> Seq<CampaignSlug> {
    match route_spec(rows) {
        Ok(d) => advanced(rows, d.index as int),
        Err(_) => rows,
    }
}

impl CampaignSlug {
    /// Counts one more visit for this assignment.
    pub fn advance(&mut self)
        requires
            old(self).handle < i32::MAX,
        ensures
            *final(self) == with_handle(*old(self), old(self).handle + 1),
    {
        self.handle = self.handle + 1;
    }

    /// Starts a new cycle for this assignment.
    pub fn reset(&mut self)
        ensures
            *final(self) == with_handle(*old(self), 0),
    {
        self.handle = 0;
    }
}

/// Routes one visit over an in-memory snapshot: selects as `select_route`
/// does, then advances the chosen assignment or resets the whole campaign.
pub fn route_step(rows: &mut Vec<CampaignSlug>) -> (r: Result<RoutingDecision, RoutingError>)
    requires
        counters_valid(old(rows)@),
    ensures
        r == route_spec(old(rows)@),
        final(rows)@ == routed(old(rows)@),
        counters_valid(final(rows)@),
{
    let r = select_route(rows);
    match r {
        Err(e) => Err(e),
        Ok(d) => {
            if d.reset {
                let n = rows.len();
                let mut k: usize = 0;
                while k < n
                    invariant
                        n == rows@.len(),
                        n == old(rows)@.len(),
                        0 <= k <= n,
                        forall|j: int| 0 <= j < k ==> rows@[j] == with_handle(old(rows)@[j], 0),
                        forall|j: int| k <= j < n ==> rows@[j] == old(rows)@[j],
                    decreases n - k,
                {
                    rows[k].reset();
                    k = k + 1;
                }
                assert(rows@ =~= old(rows)@.map_values(|a: CampaignSlug| with_handle(a, 0)));
            } else {
                rows[d.index].advance();
                assert(rows@ =~= old(rows)@.update(
                    d.index as int,
                    with_handle(old(rows)@[d.index as int], old(rows)@[d.index as int].handle + 1),
                ));
            }
            Ok(d)
        },
    }
}

} // verus!
