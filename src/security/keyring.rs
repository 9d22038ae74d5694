//! Naming of provider secrets in the platform secret store. Reading and
//! writing the store is the host's.
use vstd::prelude::*;

use crate::common::types::Provider;

verus! {

/// The service under which all provider keys are stored.
pub const KEY_SERVICE: &'static str = "vectorless";

/// The account name under which a provider's key is stored.
pub fn username_for_provider(provider: &Provider) -> (r: &'static str)
    ensures
        match *provider {
            Provider::Gemini => r@ == "gemini"@,
        },
{
    match provider {
        Provider::Gemini => "gemini",
    }
}

} // verus!
