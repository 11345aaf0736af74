//! Weighted round-robin routing of campaign links to human operators.
//!
//! `router` chooses the next operator of a campaign and says whether the
//! visit completes the weighted cycle; `cycle` states and proves what a run
//! of routing calls does; `session` drives one redirect request from
//! geolocation lookup to commit; `device` and `geo` turn a user agent and a
//! geolocation answer into what a visit records; `campaign`, `report`, `dto`
//! and `model` hold the data and the small rules around the campaign and
//! operator records.

pub mod campaign;
pub mod cycle;
pub mod device;
pub mod dto;
pub mod geo;
pub mod model;
pub mod report;
pub mod router;
pub mod session;
