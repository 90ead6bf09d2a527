//! Configuration values fixed at startup.

use vstd::prelude::*;

verus! {

/// The base URL the application is served under.
#[derive(Clone)]
pub struct ApplicationBaseUrl(pub String);

impl ApplicationBaseUrl {
    /// The URL as a borrowed string.
    pub fn as_str(&self) -> (r: &str)
        ensures
            r@ == self.0@,
    {
        self.0.as_str()
    }
}

} // verus!
