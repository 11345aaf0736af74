use vstd::prelude::*;
use vstd::string::StringExecFns;

use crate::campaign::new_id;
use crate::device::{classify_device, device_label, device_of, view_of, DeviceType};
use crate::dto::{BasicResponse, CampaignSlug};
use crate::geo::{location_from_lookup, location_lookup_url, lookup_url, resolved, IpLocation};
use crate::router::{route_spec, select_route, RoutingDecision, RoutingError};

verus! {

/// Where a redirect request stands.
#[derive(PartialEq, Eq, Structural, Debug, Clone, Copy)]
pub enum RoutePhase {
    /// The client's location is being looked up, before any transaction.
    AwaitingLocation,
    /// A transaction is open and the campaign's assignments are being read
    /// under lock.
    AwaitingAssignments,
    /// The routing outcome is being written and committed.
    AwaitingCommit,
    Finished,
}

/// The record of one routed visit.
pub struct VisitRecord {
    pub id: String,
    pub campaign_id: String,
    pub operator_id: String,
    pub ip_address: String,
    pub device: String,
    pub maps: String,
    pub location: String,
}

/// What the store applies as one transaction: the chosen assignment's handle
/// goes up by one, every handle of the campaign goes to zero if `reset`, and
/// the visit is inserted.
pub struct RoutingOutcome {
    pub campaign_id: String,
    pub assignment_id: String,
    pub reset: bool,
    pub visit: VisitRecord,
}

/// What the outside world reports back to a session.
pub enum RouteEvent {
    /// The geolocation lookup ended; `None` if it failed in any way.
    LocationFetched(Option<IpLocation>),
    /// The campaign's id and its active assignments, read under lock.
    AssignmentsLoaded(String, Vec<CampaignSlug>),
    /// A read, write or commit failed and was rolled back.
    StoreFailed,
    /// The outcome was written and committed.
    Committed,
}

/// What a session asks the outside world to do next.
pub enum RouteAction {
    /// Look the client up at this address.
    LookupLocation(String),
    /// Open a transaction and read the active assignments of this slug.
    LoadAssignments(String),
    /// Apply the outcome and commit.
    ApplyOutcome(RoutingOutcome),
    /// Answer with a redirect to this destination.
    Redirect(String),
    /// Roll back whatever is open and answer with this status and body.
    Fail(u16, BasicResponse),
}

/// One redirect request in progress.
pub struct RouteSession {
    pub slug: String,
    pub client_ip: String,
    pub device: DeviceType,
    pub location: String,
    pub maps: String,
    pub target: String,
    pub phase: RoutePhase,
}

pub open spec fn failure_status(e: RoutingError) -> u16 {
    match e {
        RoutingError::NoEligibleOperator => 404,
        RoutingError::RoutingExhausted => 503,
        RoutingError::StorageError => 500,
    }
}

pub open spec fn failure_message(e: RoutingError) -> Seq<char> {
    match e {
        RoutingError::NoEligibleOperator => "No operator is available for this link"@,
        RoutingError::RoutingExhausted => "Routing is temporarily unavailable"@,
        RoutingError::StorageError => "Failed to record the visit"@,
    }
}

/// The answer to a request that failed with `e`: not found, unavailable, or
/// an internal error, in the failure envelope.
pub fn failure_response(e: RoutingError) -> (r: (u16, BasicResponse))
    ensures
        r.0 == failure_status(e),
        !r.1.success,
        r.1.message@ == failure_message(e),
{
    match e {
        RoutingError::NoEligibleOperator => (
            404,
            BasicResponse::failed(String::from_str("No operator is available for this link")),
        ),
        RoutingError::RoutingExhausted => (
            503,
            BasicResponse::failed(String::from_str("Routing is temporarily unavailable")),
        ),
        RoutingError::StorageError => (
            500,
            BasicResponse::failed(String::from_str("Failed to record the visit")),
        ),
    }
}

pub open spec fn is_failure(a: RouteAction, e: RoutingError) -> bool {
    &&& a is Fail
    &&& a->Fail_0 == failure_status(e)
    &&& !a->Fail_1.success
    &&& a->Fail_1.message@ == failure_message(e)
}

pub open spec fn same_request(s: RouteSession, t: RouteSession) -> bool {
    t.slug == s.slug && t.client_ip == s.client_ip && t.device == s.device
}

/// `o` records the choice `d` over `rows` for the request of `s`.
pub open spec fn outcome_for(
    s: RouteSession,
    campaign_id: String,
    rows: Seq<CampaignSlug>,
    d: RoutingDecision,
    o: RoutingOutcome,
) -> bool {
    let row = rows[d.index as int];
    &&& o.campaign_id == campaign_id
    &&& o.assignment_id == row.uuid
    &&& o.reset == d.reset
    &&& o.visit.id@.len() == 36
    &&& o.visit.campaign_id == campaign_id
    &&& o.visit.operator_id == row.operator_id
    &&& o.visit.ip_address == s.client_ip
    &&& o.visit.device@ == device_label(s.device)
    &&& o.visit.location == s.location
    &&& o.visit.maps == s.maps
}

/// One step of a redirect request: from `s`, on event `e`, the session
/// becomes `t` and asks for `a`. The location is looked up before the
/// transaction opens; the routing decision is made on the assignments read
/// under lock; the redirect is issued only once the outcome is committed; any
/// store failure, or an event out of turn, ends the request as an internal
/// error.
pub open spec fn transition(s: RouteSession, e: RouteEvent, t: RouteSession, a: RouteAction) -> bool {
    &&& same_request(s, t)
    &&& match s.phase {
        RoutePhase::AwaitingLocation => match e {
            RouteEvent::LocationFetched(l) => {
                &&& t.phase == RoutePhase::AwaitingAssignments
                &&& (t.location@, t.maps@) == resolved(l)
                &&& a == RouteAction::LoadAssignments(s.slug)
            },
            _ => t.phase == RoutePhase::Finished && is_failure(a, RoutingError::StorageError),
        },
        RoutePhase::AwaitingAssignments => match e {
            RouteEvent::AssignmentsLoaded(campaign_id, rows) => match route_spec(rows@) {
                Ok(d) => {
                    &&& t.phase == RoutePhase::AwaitingCommit
                    &&& t.target == rows@[d.index as int].identity
                    &&& a is ApplyOutcome
                    &&& outcome_for(s, campaign_id, rows@, d, a->ApplyOutcome_0)
                },
                Err(err) => t.phase == RoutePhase::Finished && is_failure(a, err),
            },
            _ => t.phase == RoutePhase::Finished && is_failure(a, RoutingError::StorageError),
        },
        RoutePhase::AwaitingCommit => match e {
            RouteEvent::Committed => t.phase == RoutePhase::Finished && a == RouteAction::Redirect(
                s.target,
            ),
            _ => t.phase == RoutePhase::Finished && is_failure(a, RoutingError::StorageError),
        },
        RoutePhase::Finished => t.phase == RoutePhase::Finished && is_failure(
            a,
            RoutingError::StorageError,
        ),
    }
}

/// A geolocation lookup that fails does not fail the visit: the request goes
/// on to read the assignments, the visit it records has an empty location and
/// map link, and once committed the client is redirected.
pub proof fn lemma_failed_lookup_still_routes(
    s: RouteSession,
    t: RouteSession,
    a: RouteAction,
    campaign_id: String,
    rows: Vec<CampaignSlug>,
    u: RouteSession,
    b: RouteAction,
    w: RouteSession,
    c: RouteAction,
)
    requires
        s.phase == RoutePhase::AwaitingLocation,
        transition(s, RouteEvent::LocationFetched(None), t, a),
        transition(t, RouteEvent::AssignmentsLoaded(campaign_id, rows), u, b),
        route_spec(rows@) is Ok,
        transition(u, RouteEvent::Committed, w, c),
    ensures
        a == RouteAction::LoadAssignments(s.slug),
        b is ApplyOutcome,
        b->ApplyOutcome_0.visit.location@ == Seq::<char>::empty(),
        b->ApplyOutcome_0.visit.maps@ == Seq::<char>::empty(),
        c is Redirect,
        c->Redirect_0 == rows@[route_spec(rows@)->Ok_0.index as int].identity,
{
}

fn fail(e: RoutingError) -> (r: RouteAction)
    ensures
        is_failure(r, e),
{
    let (status, body) = failure_response(e);
    RouteAction::Fail(status, body)
}

impl RouteSession {
    /// Opens a redirect request for `slug` from `client_ip`: classifies the
    /// device and asks for the client's location first.
    pub fn start(slug: String, client_ip: String, user_agent: Option<&str>) -> (r: (
        RouteSession,
        RouteAction,
    ))
        ensures
            r.0.phase == RoutePhase::AwaitingLocation,
            r.0.slug == slug,
            r.0.client_ip == client_ip,
            r.0.device == device_of(view_of(user_agent)),
            r.1 is LookupLocation,
            r.1->LookupLocation_0@ == lookup_url(client_ip@),
    {
        let device = classify_device(user_agent);
        let url = location_lookup_url(client_ip.as_str());
        let session = RouteSession {
            slug,
            client_ip,
            device,
            location: String::new(),
            maps: String::new(),
            target: String::new(),
            phase: RoutePhase::AwaitingLocation,
        };
        (session, RouteAction::LookupLocation(url))
    }

    /// Takes the next event and says what to do.
    pub fn on_event(&mut self, event: RouteEvent) -> (r: RouteAction)
        ensures
            transition(*old(self), event, *final(self), r),
    {
        match self.phase {
            RoutePhase::AwaitingLocation => match event {
                RouteEvent::LocationFetched(l) => {
                    let (location, maps) = location_from_lookup(l);
                    self.location = location;
                    self.maps = maps;
                    self.phase = RoutePhase::AwaitingAssignments;
                    RouteAction::LoadAssignments(self.slug.clone())
                },
                _ => {
                    self.phase = RoutePhase::Finished;
                    fail(RoutingError::StorageError)
                },
            },
            RoutePhase::AwaitingAssignments => match event {
                RouteEvent::AssignmentsLoaded(campaign_id, rows) => match select_route(&rows) {
                    Ok(d) => {
                        let row = &rows[d.index];
                        let visit = VisitRecord {
                            id: new_id(),
                            campaign_id: campaign_id.clone(),
                            operator_id: row.operator_id.clone(),
                            ip_address: self.client_ip.clone(),
                            device: self.device.label(),
                            maps: self.maps.clone(),
                            location: self.location.clone(),
                        };
                        let outcome = RoutingOutcome {
                            campaign_id,
                            assignment_id: row.uuid.clone(),
                            reset: d.reset,
                            visit,
                        };
                        self.target = row.identity.clone();
                        self.phase = RoutePhase::AwaitingCommit;
                        RouteAction::ApplyOutcome(outcome)
                    },
                    Err(e) => {
                        self.phase = RoutePhase::Finished;
                        fail(e)
                    },
                },
                _ => {
                    self.phase = RoutePhase::Finished;
                    fail(RoutingError::StorageError)
                },
            },
            RoutePhase::AwaitingCommit => match event {
                RouteEvent::Committed => {
                    self.phase = RoutePhase::Finished;
                    RouteAction::Redirect(self.target.clone())
                },
                _ => {
                    self.phase = RoutePhase::Finished;
                    fail(RoutingError::StorageError)
                },
            },
            RoutePhase::Finished => fail(RoutingError::StorageError),
        }
    }
}

} // verus!
