use vstd::prelude::*;

verus! {

/// A point in time as stored: seconds since the Unix epoch and the
/// nanoseconds within that second.
#[derive(PartialEq, Eq, Structural, Debug, Clone, Copy)]
pub struct Timestamp {
    pub secs: i64,
    pub nanos: u32,
}

pub struct User {
    pub uuid: String,
    pub username: Option<String>,
    pub password: Option<String>,
    pub created_at: Timestamp,
    pub updated_at: Timestamp,
}

/// A human operator that visits can be routed to; only active ones
/// (`status == 1`) take part in routing.
pub struct Operator {
    pub uuid: String,
    pub channel: i32,
    pub identity: String,
    pub schedule: Option<String>,
    pub name: String,
    pub nickname: String,
    pub status: i8,
    pub created_at: Timestamp,
    pub updated_at: Timestamp,
}

pub struct Campaign {
    pub uuid: String,
    pub slug: String,
    pub message: String,
    pub name: String,
    pub created_at: Timestamp,
    pub updated_at: Timestamp,
}

} // verus!
