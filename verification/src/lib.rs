//! A registry for tokenized carbon credits.
//!
//! An admin registers carbon projects, an independent verifier issues credits
//! for a project once real-world reduction has been attested, project owners
//! escrow credits into priced sale listings, buyers purchase them (the
//! purchase yields the stablecoin payment that settles it) and holders
//! permanently retire credits, which mints an immutable retirement
//! certificate.
//!
//! The whole registry state is an ordinary value, [`CarbonRegistry`]; every
//! operation is a verified state transition whose contract says exactly when
//! it succeeds, which error it returns otherwise, and how the state changes.
//! A failed operation leaves the state untouched. The laws that hold of
//! every reachable state are in [`laws`].
//!
//! Modules: `error` (the error codes), `types` (addresses, projects,
//! listings, certificates, holdings and their models), `model` (balances and
//! per-project sums over the models), `ledger` (per-holder balances),
//! `registry` (the state and its operations), `laws`.

mod error;
mod ledger;
mod model;
mod registry;
mod types;

pub mod laws;

pub use error::{error_code, Error};
pub use registry::{too_long, CarbonRegistry, Operation, RegistryView, MAX_STR_LEN};
pub use types::{Address, Config, Holding, Listing, Payment, Project, Retirement};
pub use types::{ConfigView, HoldingView, ListingView, ProjectView, RetirementView};
