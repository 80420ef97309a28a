//! A second ladder of wrapped failures: one rooted in a missing-entity
//! condition, one in a custom error that keeps its reason to the side.

use vstd::prelude::*;
use vstd::string::{StrSliceExecFns, StringExecFns};

use crate::chain::ErrorChain;

verus! {

/// A failure passed through from elsewhere, keeping its message.
#[derive(Debug)]
pub enum OtherError {
    RandomOther(String),
}

impl OtherError {
    /// The message this failure shows.
    pub fn message(&self) -> (m: String)
        ensures
            self matches OtherError::RandomOther(s) && m@ == "random other error"@,
    {
        String::from_str("random other error")
    }
}

/// A failure with a fixed face and a reason kept to the side.
#[derive(Debug)]
pub enum CustomError {
    CustomOther(String),
}

impl CustomError {
    /// The message this failure shows — always the same, whatever the
    /// reason inside.
    pub fn message(&self) -> (m: String)
        ensures
            self matches CustomError::CustomOther(s) && m@ == "my custom other"@,
    {
        String::from_str("my custom other")
    }

    /// The reason carried inside.
    pub fn reason(&self) -> (r: &str)
        ensures
            self matches CustomError::CustomOther(s) && r@ == s@,
    {
        match self {
            CustomError::CustomOther(reason) => reason.as_str(),
        }
    }
}

/// Always fails: a missing entity, under one context line.
pub fn bottom_level() -> (r: Result<(), ErrorChain>)
    ensures
        r matches Err(e) && e@ == seq!["bottom level context"@, "entity not found"@],
{
    let chain = ErrorChain::root("entity not found").context("bottom level context");
    proof {
        assert(chain@ =~= seq!["bottom level context"@, "entity not found"@]);
    }
    Err(chain)
}

/// Wraps the bottom level's failure in one more context line.
pub fn top_level() -> (r: Result<(), ErrorChain>)
    ensures
        r matches Err(e) && e@ == seq![
            "top level context"@,
            "bottom level context"@,
            "entity not found"@,
        ],
{
    match bottom_level() {
        Ok(u) => Ok(u),
        Err(err) => {
            let chain = err.context("top level context");
            proof {
                assert(chain@ =~= seq![
                    "top level context"@,
                    "bottom level context"@,
                    "entity not found"@,
                ]);
            }
            Err(chain)
        },
    }
}

/// Always fails: the custom error's face, under one context line.
pub fn custom_bottom() -> (r: Result<(), ErrorChain>)
    ensures
        r matches Err(e) && e@ == seq!["bottom ctx"@, "my custom other"@],
{
    let cause = CustomError::CustomOther(String::from_str("iam a hte reson"));
    let msg = cause.message();
    let chain = ErrorChain::root(msg.as_str()).context("bottom ctx");
    proof {
        assert(chain@ =~= seq!["bottom ctx"@, "my custom other"@]);
    }
    Err(chain)
}

/// Wraps the custom bottom's failure in one more context line.
pub fn custom_top() -> (r: Result<(), ErrorChain>)
    ensures
        r matches Err(e) && e@ == seq!["custom top context"@, "bottom ctx"@, "my custom other"@],
{
    match custom_bottom() {
        Ok(u) => Ok(u),
        Err(err) => {
            let chain = err.context("custom top context");
            proof {
                assert(chain@ =~= seq![
                    "custom top context"@,
                    "bottom ctx"@,
                    "my custom other"@,
                ]);
            }
            Err(chain)
        },
    }
}

} // verus!
