//! Turns the public course schedule of DATA 385 into an automatically updated iCalendar feed.
//!
//! The items of the schedule page are read and given a lasting identity ([`extract`],
//! [`identity`]). A model is asked about those that are new or have changed ([`gemini`]), and its
//! replies are held against the schedule text ([`validate`], [`evidence`]). The stored state is
//! brought up to date ([`reconcile`], [`state`]), and a calendar is written of it ([`calendar`],
//! [`folding`]) and published ([`publish`], [`reading`], [`publication`]). What a reconciliation
//! keeps is proved in [`stability`].

pub mod calendar;
pub mod clock;
pub mod digest;
pub mod evidence;
pub mod extract;
pub mod folding;
pub mod gemini;
pub mod ics;
pub mod identity;
pub mod json;
pub mod model;
pub mod order;
pub mod overrides;
pub mod page;
pub mod pattern;
pub mod publication;
pub mod publish;
pub mod reading;
pub mod reconcile;
pub mod stability;
pub mod state;
pub mod text;
pub mod validate;
pub mod web;

pub use crate::calendar::{calendar, can_write};
pub use crate::clock::{Date, DateTime, Time};
pub use crate::extract::{extract_candidates, extract_candidates_with_overrides};
pub use crate::gemini::response_schema;
pub use crate::model::{
    Candidate, CandidateKind, Classifier, Deadline, Error, ErrorKind, ModelOutput, ModelStatus,
    Record, SourceLink, State, StoredEvent, CALENDAR_URL, MODEL, SCHEDULE_URL, STATE_URL,
};
pub use crate::overrides::Overrides;
pub use crate::reconcile::reconcile;
pub use crate::validate::validate_model;
