//! Code actions for PHPStan diagnostics.

pub mod remove_unreachable;
