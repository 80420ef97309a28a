//! Tagging failures with the place they passed through: a source location,
//! rendered as `name()::file:line:column` and pushed onto the error chain.

use vstd::prelude::*;
use vstd::string::{StrSliceExecFns, StringExecFns};

use crate::chain::ErrorChain;

verus! {

/// A place in the source.
#[derive(Debug)]
pub struct Location {
    pub file: &'static str,
    pub line: u32,
    pub column: u32,
}

/// The digit character for one decimal digit.
pub open spec fn digit_char(d: int) -> char {
    if d == 0 {
        '0'
    } else if d == 1 {
        '1'
    } else if d == 2 {
        '2'
    } else if d == 3 {
        '3'
    } else if d == 4 {
        '4'
    } else if d == 5 {
        '5'
    } else if d == 6 {
        '6'
    } else if d == 7 {
        '7'
    } else if d == 8 {
        '8'
    } else {
        '9'
    }
}

/// The decimal rendering of a nonnegative number.
pub open spec fn dec_str(n: int) -> Seq<char>
    decreases n,
{
    if n < 10 {
        seq![digit_char(n)]
    } else {
        dec_str(n / 10).push(digit_char(n % 10))
    }
}

/// One decimal digit as a string slice.
fn digit_str(d: u32) -> (s: &'static str)
    requires
        d < 10,
    ensures
        s@ == seq![digit_char(d as int)],
{
    let s: &'static str = if d == 0 {
        "0"
    } else if d == 1 {
        "1"
    } else if d == 2 {
        "2"
    } else if d == 3 {
        "3"
    } else if d == 4 {
        "4"
    } else if d == 5 {
        "5"
    } else if d == 6 {
        "6"
    } else if d == 7 {
        "7"
    } else if d == 8 {
        "8"
    } else {
        "9"
    };
    proof {
        reveal_strlit("0");
        reveal_strlit("1");
        reveal_strlit("2");
        reveal_strlit("3");
        reveal_strlit("4");
        reveal_strlit("5");
        reveal_strlit("6");
        reveal_strlit("7");
        reveal_strlit("8");
        reveal_strlit("9");
        assert(s@ =~= seq![digit_char(d as int)]);
    }
    s
}

/// Render a number in decimal.
pub fn fmt_u32(n: u32) -> (s: String)
    ensures
        s@ == dec_str(n as int),
    decreases n,
{
    if n < 10 {
        String::from_str(digit_str(n))
    } else {
        let mut s = fmt_u32(n / 10);
        s.append(digit_str(n % 10));
        proof {
            assert(s@ =~= dec_str(n as int / 10).push(digit_char(n as int % 10)));
        }
        s
    }
}

/// The context message a location contributes.
pub open spec fn loc_message(
    fn_name: Seq<char>,
    file: Seq<char>,
    line: int,
    column: int,
) -> Seq<char> {
    fn_name + "()::"@ + file + ":"@ + dec_str(line) + ":"@ + dec_str(column)
}

/// Tag a failure with the function's name and the source location it
/// passed through.
pub trait ErrorLocation<T, E> {
    fn location_with_fn_name(self, fn_name: &str, loc: &Location) -> Result<T, ErrorChain>;
}

impl<T> ErrorLocation<T, ErrorChain> for Result<T, ErrorChain> {
    /// A success passes through untouched; a failure gains one outermost
    /// message naming the function and the location.
    fn location_with_fn_name(self, fn_name: &str, loc: &Location) -> (r: Result<T, ErrorChain>)
        ensures
            self matches Ok(v) ==> (r matches Ok(w) && w == v),
            self matches Err(e) ==> (r matches Err(e2) && e2@ == seq![
                loc_message(fn_name@, loc.file@, loc.line as int, loc.column as int),
            ] + e@),
    {
        match self {
            Ok(v) => Ok(v),
            Err(e) => {
                let mut msg = String::from_str(fn_name);
                msg.append("()::");
                msg.append(loc.file);
                msg.append(":");
                let line = fmt_u32(loc.line);
                msg.append(line.as_str());
                msg.append(":");
                let column = fmt_u32(loc.column);
                msg.append(column.as_str());
                proof {
                    assert(msg@ =~= loc_message(
                        fn_name@,
                        loc.file@,
                        loc.line as int,
                        loc.column as int,
                    ));
                }
                Err(e.context(msg.as_str()))
            },
        }
    }
}

/// The root failure, tagged with its own location.
pub fn bottom() -> (r: Result<(), ErrorChain>)
    ensures
        r matches Err(e) && e@ == seq![
            loc_message("bottom"@, "src/location.rs"@, 179, 12),
            "Custom error"@,
        ],
{
    let loc = Location { file: "src/location.rs", line: 179, column: 12 };
    let failed: Result<(), ErrorChain> = Err(ErrorChain::root("Custom error"));
    failed.location_with_fn_name("bottom", &loc)
}

/// Passes the bottom's failure on, tagged with its own location.
pub fn middle() -> (r: Result<(), ErrorChain>)
    ensures
        r matches Err(e) && e@ == seq![
            loc_message("middle"@, "src/location.rs"@, 192, 18),
            loc_message("bottom"@, "src/location.rs"@, 179, 12),
            "Custom error"@,
        ],
{
    let loc = Location { file: "src/location.rs", line: 192, column: 18 };
    let r = bottom().location_with_fn_name("middle", &loc);
    proof {
        assert(r matches Err(e) ==> e@ =~= seq![
            loc_message("middle"@, "src/location.rs"@, 192, 18),
            loc_message("bottom"@, "src/location.rs"@, 179, 12),
            "Custom error"@,
        ]);
    }
    r
}

/// The top of the ladder: every location tag, outermost first.
pub fn top() -> (r: Result<(), ErrorChain>)
    ensures
        r matches Err(e) && e@ == seq![
            loc_message("top"@, "src/location.rs"@, 214, 18),
            loc_message("middle"@, "src/location.rs"@, 192, 18),
            loc_message("bottom"@, "src/location.rs"@, 179, 12),
            "Custom error"@,
        ],
{
    let loc = Location { file: "src/location.rs", line: 214, column: 18 };
    let r = middle().location_with_fn_name("top", &loc);
    proof {
        assert(r matches Err(e) ==> e@ =~= seq![
            loc_message("top"@, "src/location.rs"@, 214, 18),
            loc_message("middle"@, "src/location.rs"@, 192, 18),
            loc_message("bottom"@, "src/location.rs"@, 179, 12),
            "Custom error"@,
        ]);
    }
    r
}

} // verus!
