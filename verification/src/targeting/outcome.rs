//! The error of a targeting rule that does not compile.

use vstd::prelude::*;
use crate::error::FlagdError;
use vstd::string::StringExecFns;

verus! {

broadcast use vstd::string::group_string_axioms;

/// The error for a rule that does not compile, with the compiler's message.
pub fn rule_compile_failure(message: &str) -> (r: FlagdError)
    ensures
        r matches FlagdError::Provider(m) && m@ == "Failed to compile targeting rule: "@ + message@,
{
    let mut m = "Failed to compile targeting rule: ".to_string();
    m.append(message);
    FlagdError::Provider(m)
}

} // verus!
