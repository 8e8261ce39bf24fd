//! Design-check records. Each check is an individually callable function
//! that reports a code, what it checks, whether it passed, and a detail.

use vstd::prelude::*;
use vstd::string::StringExecFns;

verus! {

/// The outcome of one design check.
#[derive(Clone, Debug)]
pub struct CheckResult {
    pub code: String,
    pub description: String,
    pub pass: bool,
    pub detail: String,
}

/// X03, the derivation rule: no hand-entered derivables. The schema has no
/// fields for hand-entered mass/CoG/inertia, so the rule holds by
/// construction in parametric mode; the check exists so the report says so.
pub fn x03_derivation_rule() -> (r: CheckResult)
    ensures
        r.code@ == "X03"@,
        r.description@ == "derivation rule: no hand-entered derivables"@,
        r.pass,
        r.detail@ == "all mass/CoG/inertia/geometry quantities computed by this pipeline"@,
{
    CheckResult {
        code: String::from_str("X03"),
        description: String::from_str("derivation rule: no hand-entered derivables"),
        pass: true,
        detail: String::from_str("all mass/CoG/inertia/geometry quantities computed by this pipeline"),
    }
}

} // verus!
