//! A one-line timestamped debug logger: purely observational, with no
//! effect on atlas behaviour. Lines are prefixed with the seconds elapsed
//! since the logger was created, to millisecond precision.

use std::io::Write;
use std::time::Instant;
use vstd::prelude::*;

verus! {

/// `std::time::Instant`, declared so a moment in time can be stored; the
/// value is opaque and nothing is assumed of it.
#[verifier::external_type_specification]
#[verifier::external_body]
pub struct ExInstant(Instant);

/// Relies on `std::time::Instant::now` for the moment the logger is
/// created. The result depends on the clock, so nothing is stated of it.
#[verifier::external_body]
fn instant_now() -> Instant {
    Instant::now()
}

/// Relies on `std::time::Instant::elapsed` for the time since `epoch`.
/// The result depends on the clock, so nothing is stated of it.
#[verifier::external_body]
fn elapsed_of(epoch: &Instant) -> core::time::Duration {
    epoch.elapsed()
}

/// Relies on `core::time::Duration::as_millis` for the duration's whole
/// milliseconds, truncated into a `u64`.
#[verifier::external_body]
fn duration_millis(d: &core::time::Duration) -> u64 {
    d.as_millis() as u64
}

/// Relies on `std::io::Stdout`: writes `[<secs>.<frac>] <msg>` and a
/// newline to standard output, ignoring write errors.
#[verifier::external_body]
fn emit_line(secs: u64, frac: u64, msg: &str) {
    let mut lock = std::io::stdout().lock();
    let _ = write!(lock, "[{}.{:03}] ", secs, frac);
    let _ = lock.write(msg.as_bytes());
    let _ = lock.write(b"\n");
}

/// The debug logger; timestamps lines relative to its creation.
pub struct Debugger {
    epoch: Instant,
}

impl Debugger {
    /// A logger whose timestamps are relative to this moment.
    pub fn new() -> Debugger {
        Debugger { epoch: instant_now() }
    }

    /// Print a string to `stdout`, prefixed with the elapsed time.
    pub fn print(&self, args: &str) {
        let d = elapsed_of(&self.epoch);
        let ms = duration_millis(&d);
        let secs = ms / 1000;
        let frac = ms % 1000;
        emit_line(secs, frac, args);
    }
}

} // verus!
