use vstd::prelude::*;

use crate::dto::{AddCampaignRequest, CampaignOperator, Claims, OperatorAssignment};
use crate::model::Campaign;

verus! {

/// Relies on `uuid::Uuid::new_v4` and the `Display` of `Uuid`: a random
/// version 4 id, written in its hyphenated form of 36 characters.
#[verifier::external_body]
pub(crate) fn new_id() -> (r: String)
    ensures
        r@.len() == 36,
{
    uuid::Uuid::new_v4().to_string()
}

/// An assignment row as written when a campaign's operator list is set.
pub struct AssignmentRow {
    pub uuid: String,
    pub campaign_id: String,
    pub operator_id: String,
    pub grade: i32,
    pub handle: i32,
}

/// Why an operator list cannot be stored.
#[derive(PartialEq, Eq, Structural, Debug, Clone, Copy)]
pub enum CampaignError {
    /// The operator at this position has weight zero.
    ZeroGrade(usize),
    /// The operator at this position was already listed earlier.
    DuplicateOperator(usize),
}

pub open spec fn first_zero_grade(ops: Seq<OperatorAssignment>, i: int) -> bool {
    0 <= i < ops.len() && ops[i].grade == 0 && forall|j: int| 0 <= j < i ==> (#[trigger] ops[j]).grade
        != 0
}

pub open spec fn repeats_earlier(ops: Seq<OperatorAssignment>, i: int) -> bool {
    exists|j: int| 0 <= j < i && (#[trigger] ops[j]).id@ == ops[i].id@
}

pub open spec fn first_duplicate(ops: Seq<OperatorAssignment>, i: int) -> bool {
    0 <= i < ops.len() && repeats_earlier(ops, i) && forall|j: int|
        0 <= j < i ==> !#[trigger] repeats_earlier(ops, j)
}

pub open spec fn has_zero_grade(ops: Seq<OperatorAssignment>) -> bool {
    exists|i: int| 0 <= i < ops.len() && (#[trigger] ops[i]).grade == 0
}

pub open spec fn has_duplicate(ops: Seq<OperatorAssignment>) -> bool {
    exists|i: int| 0 <= i < ops.len() && #[trigger] repeats_earlier(ops, i)
}

/// `rows` is the operator list `ops` of campaign `campaign_id`, every
/// counter at zero, under fresh ids.
pub open spec fn rows_for(campaign_id: Seq<char>, ops: Seq<OperatorAssignment>, rows: Seq<
    AssignmentRow,
>) -> bool {
    &&& rows.len() == ops.len()
    &&& forall|i: int|
        0 <= i < rows.len() ==> {
            &&& (#[trigger] rows[i]).campaign_id@ == campaign_id
            &&& rows[i].operator_id@ == ops[i].id@
            &&& rows[i].grade == ops[i].grade as i32
            &&& rows[i].handle == 0
            &&& rows[i].uuid@.len() == 36
        }
}

fn check_operators(ops: &Vec<OperatorAssignment>) -> (r: Result<(), CampaignError>)
    ensures
        r is Ok <==> !has_zero_grade(ops@) && !has_duplicate(ops@),
        r matches Err(CampaignError::ZeroGrade(i)) ==> first_zero_grade(ops@, i as int),
        r matches Err(CampaignError::DuplicateOperator(i)) ==> !has_zero_grade(ops@)
            && first_duplicate(ops@, i as int),
{
    let mut k: usize = 0;
    while k < ops.len()
        invariant
            0 <= k <= ops@.len(),
            forall|j: int| 0 <= j < k ==> (#[trigger] ops@[j]).grade != 0,
        decreases ops@.len() - k,
    {
        if ops[k].grade == 0 {
            return Err(CampaignError::ZeroGrade(k));
        }
        k = k + 1;
    }
    let mut i: usize = 0;
    while i < ops.len()
        invariant
            0 <= i <= ops@.len(),
            !has_zero_grade(ops@),
            forall|j: int| 0 <= j < i ==> !#[trigger] repeats_earlier(ops@, j),
        decreases ops@.len() - i,
    {
        let mut j: usize = 0;
        while j < i
            invariant
                0 <= j <= i < ops@.len(),
                !has_zero_grade(ops@),
                forall|m: int| 0 <= m < i ==> !#[trigger] repeats_earlier(ops@, m),
                forall|m: int| 0 <= m < j ==> (#[trigger] ops@[m]).id@ != ops@[i as int].id@,
            decreases i - j,
        {
            if ops[j].id == ops[i].id {
                assert(repeats_earlier(ops@, i as int));
                return Err(CampaignError::DuplicateOperator(i));
            }
            j = j + 1;
        }
        i = i + 1;
    }
    Ok(())
}

/// The assignment rows that store `ops` as the operator list of
/// `campaign_id`: one per operator, in order, each with a fresh id, the
/// submitted grade and a zero handle. A list with a zero grade or an
/// operator named twice is refused, naming the first position at fault.
pub fn assignment_rows(campaign_id: &String, ops: &Vec<OperatorAssignment>) -> (r: Result<
    Vec<AssignmentRow>,
    CampaignError,
>)
    ensures
        r is Ok <==> !has_zero_grade(ops@) && !has_duplicate(ops@),
        r matches Err(CampaignError::ZeroGrade(i)) ==> first_zero_grade(ops@, i as int),
        r matches Err(CampaignError::DuplicateOperator(i)) ==> !has_zero_grade(ops@)
            && first_duplicate(ops@, i as int),
        r matches Ok(rows) ==> rows_for(campaign_id@, ops@, rows@),
{
    match check_operators(ops) {
        Err(e) => Err(e),
        Ok(()) => {
            let mut rows: Vec<AssignmentRow> = Vec::new();
            let mut k: usize = 0;
            while k < ops.len()
                invariant
                    0 <= k <= ops@.len(),
                    rows_for(campaign_id@, ops@.subrange(0, k as int), rows@),
                decreases ops@.len() - k,
            {
                let op = &ops[k];
                rows.push(
                    AssignmentRow {
                        uuid: new_id(),
                        campaign_id: campaign_id.clone(),
                        operator_id: op.id.clone(),
                        grade: op.grade as i32,
                        handle: 0,
                    },
                );
                k = k + 1;
            }
            assert(ops@.subrange(0, ops@.len() as int) =~= ops@);
            Ok(rows)
        },
    }
}

/// A new campaign's id and the rows of its operator list.
pub fn new_campaign(request: &AddCampaignRequest) -> (r: Result<
    (String, Vec<AssignmentRow>),
    CampaignError,
>)
    ensures
        r is Ok <==> !has_zero_grade(request.operators@) && !has_duplicate(request.operators@),
        r matches Err(CampaignError::ZeroGrade(i)) ==> first_zero_grade(request.operators@, i as int),
        r matches Err(CampaignError::DuplicateOperator(i)) ==> !has_zero_grade(request.operators@)
            && first_duplicate(request.operators@, i as int),
        r matches Ok((id, rows)) ==> id@.len() == 36 && rows_for(id@, request.operators@, rows@),
{
    let id = new_id();
    match assignment_rows(&id, &request.operators) {
        Ok(rows) => Ok((id, rows)),
        Err(e) => Err(e),
    }
}

/// A campaign as shown with its operators and the number of recorded visits.
pub struct CampaignDetail {
    pub uuid: String,
    pub name: String,
    pub message: String,
    pub slug: String,
    pub visitor_total: i32,
    pub operator_total: usize,
    pub operators: Vec<CampaignOperator>,
}

/// Puts a campaign together with its operators; a visit count that could
/// not be read counts as zero.
pub fn campaign_detail(campaign: Campaign, operators: Vec<CampaignOperator>, visitor_total: Option<
    i32,
>) -> (r: CampaignDetail)
    ensures
        r.uuid == campaign.uuid,
        r.name == campaign.name,
        r.message == campaign.message,
        r.slug == campaign.slug,
        r.visitor_total == match visitor_total {
            Some(n) => n,
            None => 0,
        },
        r.operator_total == operators@.len(),
        r.operators@ == operators@,
{
    let total = match visitor_total {
        Some(n) => n,
        None => 0,
    };
    let n = operators.len();
    CampaignDetail {
        uuid: campaign.uuid,
        name: campaign.name,
        message: campaign.message,
        slug: campaign.slug,
        visitor_total: total,
        operator_total: n,
        operators,
    }
}

/// How long a session token stays valid, in seconds.
pub const SESSION_SECONDS: i64 = 86400;

/// A day after `now`, held between zero and the largest value that both an
/// `i64` and a `usize` can hold.
pub open spec fn expiry(now: i64) -> int {
    let later = if now + SESSION_SECONDS > i64::MAX {
        i64::MAX as int
    } else {
        now + SESSION_SECONDS
    };
    if later <= 0 {
        0
    } else if later > usize::MAX {
        usize::MAX as int
    } else {
        later
    }
}

impl Claims {
    /// The claims of a token issued to `userid` at `now` (seconds since the
    /// Unix epoch): it expires a day later. A moment before the epoch counts
    /// as the epoch.
    pub fn for_user(userid: String, now: i64) -> (r: Claims)
        ensures
            r.userid == userid,
            r.exp as int == expiry(now),
    {
        let later: i64 = if now > i64::MAX - SESSION_SECONDS {
            i64::MAX
        } else {
            now + SESSION_SECONDS
        };
        let exp: usize = if later <= 0 {
            0
        } else if later as u128 > usize::MAX as u128 {
            usize::MAX
        } else {
            later as usize
        };
        Claims { userid, exp }
    }
}

} // verus!
