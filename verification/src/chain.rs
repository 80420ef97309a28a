//! Errors that carry their chain of context messages, outermost first, and
//! a ladder of operations that wrap one another's failures: the outermost
//! caller sees every layer's message in order.

use vstd::prelude::*;
use vstd::string::{StrSliceExecFns, StringExecFns};

verus! {

/// An error together with its context messages, outermost first.
#[derive(Debug)]
pub struct ErrorChain {
    pub messages: Vec<String>,
}

impl View for ErrorChain {
    type V = Seq<Seq<char>>;

    open spec fn view(&self) -> Seq<Seq<char>> {
        self.messages@.map_values(|m: String| m@)
    }
}

impl ErrorChain {
    /// A chain holding just the root cause's message.
    pub fn root(msg: &str) -> (r: ErrorChain)
        ensures
            r@ == seq![msg@],
    {
        let mut messages: Vec<String> = Vec::new();
        messages.push(String::from_str(msg));
        let r = ErrorChain { messages };
        proof {
            assert(r@ =~= seq![msg@]);
        }
        r
    }

    /// The same chain under one more, outermost, context message.
    pub fn context(self, msg: &str) -> (r: ErrorChain)
        ensures
            r@ == seq![msg@] + self@,
    {
        let mut messages = self.messages;
        messages.insert(0, String::from_str(msg));
        let r = ErrorChain { messages };
        proof {
            assert(r@ =~= seq![msg@] + self@);
        }
        r
    }

    /// How many messages the chain holds.
    pub fn depth(&self) -> (n: usize)
        ensures
            n == self@.len(),
    {
        self.messages.len()
    }

    /// The message at `i`, outermost first.
    pub fn message_at(&self, i: usize) -> (m: &String)
        requires
            i < self@.len(),
        ensures
            m@ == self@[i as int],
    {
        &self.messages[i]
    }
}

/// The innermost failure.
#[derive(Debug)]
pub enum CustomErrorC {
    ErrorC(String),
}

impl CustomErrorC {
    /// The message this failure shows.
    pub fn message(&self) -> (m: String)
        ensures
            self matches CustomErrorC::ErrorC(s) && m@ == "Error C occurred: "@ + s@,
    {
        match self {
            CustomErrorC::ErrorC(s) => String::from_str("Error C occurred: ").concat(s.as_str()),
        }
    }
}

/// The middle layer's failure.
#[derive(Debug)]
pub enum CustomErrorB {
    ErrorB(String),
}

impl CustomErrorB {
    /// The message this failure shows.
    pub fn message(&self) -> (m: String)
        ensures
            self matches CustomErrorB::ErrorB(s) && m@ == "Error B occurred: "@ + s@,
    {
        match self {
            CustomErrorB::ErrorB(s) => String::from_str("Error B occurred: ").concat(s.as_str()),
        }
    }
}

/// The outer layer's failure.
#[derive(Debug)]
pub enum CustomErrorA {
    ErrorA(String),
}

impl CustomErrorA {
    /// The message this failure shows.
    pub fn message(&self) -> (m: String)
        ensures
            self matches CustomErrorA::ErrorA(s) && m@ == "Error A occurred: "@ + s@,
    {
        match self {
            CustomErrorA::ErrorA(s) => String::from_str("Error A occurred: ").concat(s.as_str()),
        }
    }
}

/// The bottom of the ladder always fails with C's message.
pub fn operation_c() -> (r: Result<(), ErrorChain>)
    ensures
        r matches Err(e) && e@ == seq!["Error C occurred: Something went wrong in C"@],
{
    let c = CustomErrorC::ErrorC(String::from_str("Something went wrong in C"));
    let msg = c.message();
    proof {
        reveal_strlit("Error C occurred: ");
        reveal_strlit("Something went wrong in C");
        reveal_strlit("Error C occurred: Something went wrong in C");
        assert(msg@ =~= "Error C occurred: Something went wrong in C"@);
    }
    Err(ErrorChain::root(msg.as_str()))
}

/// Wraps C's failure in B's message and one more context line.
pub fn operation_b() -> (r: Result<(), ErrorChain>)
    ensures
        r matches Err(e) && e@ == seq![
            "some more info on b"@,
            "Error B occurred: Error in B"@,
            "Error C occurred: Something went wrong in C"@,
        ],
{
    match operation_c() {
        Ok(u) => Ok(u),
        Err(chain) => {
            let b = CustomErrorB::ErrorB(String::from_str("Error in B"));
            let msg = b.message();
            proof {
                reveal_strlit("Error B occurred: ");
                reveal_strlit("Error in B");
                reveal_strlit("Error B occurred: Error in B");
                assert(msg@ =~= "Error B occurred: Error in B"@);
            }
            let wrapped = chain.context(msg.as_str()).context("some more info on b");
            proof {
                assert(wrapped@ =~= seq![
                    "some more info on b"@,
                    "Error B occurred: Error in B"@,
                    "Error C occurred: Something went wrong in C"@,
                ]);
            }
            Err(wrapped)
        },
    }
}

/// Wraps B's failure in A's message and one more context line.
pub fn operation_a() -> (r: Result<(), ErrorChain>)
    ensures
        r matches Err(e) && e@ == seq![
            "error calling operation_b"@,
            "Error A occurred: Error in A"@,
            "some more info on b"@,
            "Error B occurred: Error in B"@,
            "Error C occurred: Something went wrong in C"@,
        ],
{
    match operation_b() {
        Ok(u) => Ok(u),
        Err(chain) => {
            let a = CustomErrorA::ErrorA(String::from_str("Error in A"));
            let msg = a.message();
            proof {
                reveal_strlit("Error A occurred: ");
                reveal_strlit("Error in A");
                reveal_strlit("Error A occurred: Error in A");
                assert(msg@ =~= "Error A occurred: Error in A"@);
            }
            let wrapped = chain.context(msg.as_str()).context("error calling operation_b");
            proof {
                assert(wrapped@ =~= seq![
                    "error calling operation_b"@,
                    "Error A occurred: Error in A"@,
                    "some more info on b"@,
                    "Error B occurred: Error in B"@,
                    "Error C occurred: Something went wrong in C"@,
                ]);
            }
            Err(wrapped)
        },
    }
}

/// The top of the ladder: every layer's message, outermost first.
pub fn operation_root() -> (r: Result<(), ErrorChain>)
    ensures
        r matches Err(e) && e@ == seq![
            "failed to call operation a"@,
            "error calling operation_b"@,
            "Error A occurred: Error in A"@,
            "some more info on b"@,
            "Error B occurred: Error in B"@,
            "Error C occurred: Something went wrong in C"@,
        ],
{
    match operation_a() {
        Ok(u) => Ok(u),
        Err(chain) => {
            let wrapped = chain.context("failed to call operation a");
            proof {
                assert(wrapped@ =~= seq![
                    "failed to call operation a"@,
                    "error calling operation_b"@,
                    "Error A occurred: Error in A"@,
                    "some more info on b"@,
                    "Error B occurred: Error in B"@,
                    "Error C occurred: Something went wrong in C"@,
                ]);
            }
            Err(wrapped)
        },
    }
}

} // verus!
