//! What the reports say of the tool itself.

use vstd::prelude::*;

verus! {

pub const VERSION: &'static str = "1.4.0";

pub const CODENAME: &'static str = "Staghound";

/// How the tool runs, shown on every report: the data never leaves the machine,
/// and what the detection logic is held against.
pub const TRUST_NOTE: &'static str =
    "Processed locally — no packet data leaves this machine and no cloud service is contacted. Every check is a deterministic local algorithm, calibrated against a golden set of real captures cross-checked with tshark.";

} // verus!
