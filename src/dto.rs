use vstd::prelude::*;
use vstd::string::StringExecFns;

verus! {

/// The envelope of an answer that carries no data.
pub struct BasicResponse {
    pub success: bool,
    pub message: String,
}

/// The envelope of an answer that carries data.
pub struct DataResponse<T> {
    pub success: bool,
    pub message: String,
    pub data: Option<T>,
}

/// The claims of a session token: the user and the expiry, in seconds since
/// the Unix epoch.
pub struct Claims {
    pub userid: String,
    pub exp: usize,
}

/// One entry of a selection list.
pub struct ListOption {
    pub title: String,
    pub value: String,
}

pub struct LoginRequest {
    pub username: String,
    pub password: String,
}

/// An operator as submitted for creation or update.
pub struct AddOperatorRequest {
    pub channel: i32,
    pub identity: String,
    pub name: String,
    pub nickname: String,
    pub schedule: Vec<String>,
    pub status: i8,
}

pub type UpdateOperatorRequest = AddOperatorRequest;

/// An operator and its weight, as submitted with a campaign.
pub struct OperatorAssignment {
    pub id: String,
    pub grade: u8,
}

/// One active assignment of an operator to a campaign, as loaded for routing:
/// the assignment id, the operator, its destination, its weight (`grade`) and
/// its usage counter within the current cycle (`handle`).
pub struct CampaignSlug {
    pub uuid: String,
    pub operator_id: String,
    pub identity: String,
    pub grade: i32,
    pub handle: i32,
}

/// A campaign as submitted for creation or update.
pub struct AddCampaignRequest {
    pub name: String,
    pub message: String,
    pub slug: String,
    pub operators: Vec<OperatorAssignment>,
}

/// An operator of a campaign and its weight, as shown with the campaign.
pub struct CampaignOperator {
    pub id: String,
    pub grade: i32,
}

/// The inclusive date range of a chart, as "YYYY-MM-DD" texts.
pub struct ChartQuery {
    pub start_date: String,
    pub end_date: String,
}

/// A field of an operator that failed validation.
#[derive(PartialEq, Eq, Structural, Debug, Clone, Copy)]
pub enum InvalidField {
    Channel,
    Identity,
    Name,
    Nickname,
}

/// The texts of `parts`, with `sep` between each two.
pub open spec fn joined(parts: Seq<Seq<char>>, sep: Seq<char>) -> Seq<char>
    decreases parts.len(),
{
    if parts.len() == 0 {
        Seq::empty()
    } else if parts.len() == 1 {
        parts[0]
    } else {
        joined(parts.drop_last(), sep) + sep + parts.last()
    }
}

pub open spec fn views(v: Seq<String>) -> Seq<Seq<char>> {
    v.map_values(|s: String| s@)
}

/// Joins texts with a separator.
pub fn join_with(parts: &Vec<String>, sep: &str) -> (r: String)
    ensures
        r@ == joined(views(parts@), sep@),
{
    let mut out = String::new();
    let mut k: usize = 0;
    while k < parts.len()
        invariant
            0 <= k <= parts@.len(),
            out@ == joined(views(parts@.subrange(0, k as int)), sep@),
        decreases parts@.len() - k,
    {
        if k > 0 {
            out.append(sep);
        }
        out.append(parts[k].as_str());
        assert(views(parts@.subrange(0, k + 1)).drop_last() =~= views(parts@.subrange(0, k as int)));
        k = k + 1;
    }
    assert(parts@.subrange(0, parts@.len() as int) =~= parts@);
    out
}

pub open spec fn field_message(f: InvalidField) -> Seq<char> {
    match f {
        InvalidField::Channel => "channel must be at least 1"@,
        InvalidField::Identity => "identity cannot be empty"@,
        InvalidField::Name => "name cannot be empty"@,
        InvalidField::Nickname => "nickname cannot be empty"@,
    }
}

/// The fields of an operator that break its rules, in declaration order:
/// the channel is at least 1, identity, name and nickname are not empty.
pub open spec fn invalid_fields(r: AddOperatorRequest) -> Seq<InvalidField> {
    (if r.channel < 1 { seq![InvalidField::Channel] } else { Seq::empty() })
        + (if r.identity@.len() == 0 { seq![InvalidField::Identity] } else { Seq::empty() })
        + (if r.name@.len() == 0 { seq![InvalidField::Name] } else { Seq::empty() })
        + (if r.nickname@.len() == 0 { seq![InvalidField::Nickname] } else { Seq::empty() })
}

impl InvalidField {
    /// What is wrong with the field, in words.
    pub fn message(&self) -> (r: String)
        ensures
            r@ == field_message(*self),
    {
        match self {
            InvalidField::Channel => String::from_str("channel must be at least 1"),
            InvalidField::Identity => String::from_str("identity cannot be empty"),
            InvalidField::Name => String::from_str("name cannot be empty"),
            InvalidField::Nickname => String::from_str("nickname cannot be empty"),
        }
    }
}

impl AddOperatorRequest {
    /// Checks the operator's fields; on failure, lists every field at fault.
    pub fn validate(&self) -> (r: Result<(), Vec<InvalidField>>)
        ensures
            r is Ok <==> invalid_fields(*self).len() == 0,
            r is Err ==> r->Err_0@ == invalid_fields(*self),
    {
        let mut bad: Vec<InvalidField> = Vec::new();
        if self.channel < 1 {
            bad.push(InvalidField::Channel);
        }
        if self.identity.as_str().is_empty() {
            bad.push(InvalidField::Identity);
        }
        if self.name.as_str().is_empty() {
            bad.push(InvalidField::Name);
        }
        if self.nickname.as_str().is_empty() {
            bad.push(InvalidField::Nickname);
        }
        assert(bad@ =~= invalid_fields(*self));
        if bad.len() == 0 {
            Ok(())
        } else {
            Err(bad)
        }
    }

    /// The schedule as stored: its entries joined by commas.
    pub fn schedule_text(&self) -> (r: String)
        ensures
            r@ == joined(views(self.schedule@), ","@),
    {
        join_with(&self.schedule, ",")
    }
}

/// The message of a failed validation: each field's complaint, joined by "; ".
pub fn validation_message(fields: &Vec<InvalidField>) -> (r: String)
    ensures
        r@ == joined(fields@.map_values(|f: InvalidField| field_message(f)), "; "@),
{
    let mut texts: Vec<String> = Vec::new();
    let mut k: usize = 0;
    while k < fields.len()
        invariant
            0 <= k <= fields@.len(),
            views(texts@) == fields@.subrange(0, k as int).map_values(
                |f: InvalidField| field_message(f),
            ),
        decreases fields@.len() - k,
    {
        let ghost before = texts@;
        let m = fields[k].message();
        texts.push(m);
        assert(views(texts@) =~= views(before).push(m@));
        assert(fields@.subrange(0, k + 1).map_values(|f: InvalidField| field_message(f))
            =~= fields@.subrange(0, k as int).map_values(|f: InvalidField| field_message(f)).push(
            field_message(fields@[k as int]),
        ));
        assert(views(texts@) =~= fields@.subrange(0, k + 1).map_values(
            |f: InvalidField| field_message(f),
        ));
        k = k + 1;
    }
    assert(fields@.subrange(0, fields@.len() as int) =~= fields@);
    join_with(&texts, "; ")
}

impl BasicResponse {
    pub fn succeeded(message: String) -> (r: BasicResponse)
        ensures
            r.success,
            r.message == message,
    {
        BasicResponse { success: true, message }
    }

    pub fn failed(message: String) -> (r: BasicResponse)
        ensures
            !r.success,
            r.message == message,
    {
        BasicResponse { success: false, message }
    }
}

} // verus!
