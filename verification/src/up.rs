//! `meridian up`: install the chart, and open the wizard.
//!
//! The order is the thing this adds over typing the commands by hand: check,
//! install, wait for the dashboard, forward a port, open the wizard, and say
//! what went wrong at the step it went wrong on. It renders nothing itself: the
//! chart is what says what runs.
//!
//! With `--params` it answers the wizard's own endpoints from a file, behind
//! the same first-run claim code a browser uses.
use vstd::prelude::*;

pub use crate::up::answers::{answers, asked_for, form_encoded, params_from, variable};
pub use crate::up::install::{helm_arguments, shown, values_document, Install};
pub use crate::up::page::{administrator, findings, first_admin_code, passes, wants_a_code};

pub mod answers;
pub mod cookies;
pub mod install;
pub mod page;
pub mod run;
pub mod script;

verus! {

} // verus!
