//! A vehicle-telemetry service: a registry of users, vehicles, agreements
//! and invoices kept in stable memory, the intake of signed telemetry, its
//! daily fold into totals by year, month and day, monthly billing against
//! the price of an agreement, and the framed protocol that vehicles speak
//! with the gateway.
//!
//! [`state::State`] holds everything and offers one method for each
//! operation. What an operation does is written down once, as a function
//! on the mathematical state, in [`rules`]; the methods are proved to do
//! just that, and [`laws`] proves what therefore holds of every state the
//! service can reach. Records are stored as bytes ([`codec`], [`table`])
//! in the ordered maps of the `ic-stable-structures` crate ([`store`]);
//! signatures, identities, decimals and dates come from the crates that
//! know them ([`crypto`], [`principal`], [`decimal`], [`calendar`]) and
//! are taken on trust.
//!
//! A process makes one `State`, with [`state::State::open`] or
//! [`state::State::fresh`], and keeps it: two states of one process would
//! share the regions of one stable memory.

pub mod error;
pub mod firmware;
pub mod fold;
pub mod gateway;
pub mod invoices;
pub mod laws;
pub mod accumulate;
pub mod agreements;
pub mod billing;
pub mod calendar;
pub mod codec;
pub mod crypto;
pub mod decimal;
pub mod principal;
pub mod records;
pub mod rules;
pub mod sizes;
pub mod state;
pub mod store;
pub mod table;
pub mod telemetry;
pub mod transport;
pub mod vehicles;
pub mod wire;

pub use error::Error;
pub use principal::Principal;
pub use records::{
    Agreement, AgreementConditions, AgreementState, Invoice, InvoiceStatus, PendingInvoice, User,
    Vehicle,
};
pub use rules::StoreTelemetryResponse;
pub use state::State;
pub use telemetry::{
    AccumulatedTelemetry, AccumulatedTelemetryMonthy, AccumulatedTelemetryYearly, DayTotal, Sample,
    TelemetryType,
};
pub use transport::{map_err, Request, Response, StoreTelemetry};
pub use wire::StoreTelemetryRequest;
