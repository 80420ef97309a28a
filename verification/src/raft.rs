//! The request and response shapes a replicated log applies: a write of a
//! key and value, answered with the value read back, if any.

use vstd::prelude::*;

verus! {

/// A request appended to the replicated log.
#[derive(Debug, Clone)]
pub enum Request {
    SetCmd { key: String, value: String },
}

/// The answer a node returns for an applied request.
#[derive(Debug, Clone)]
pub struct Response {
    pub value: Option<String>,
}

} // verus!
