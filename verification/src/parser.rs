//! Argument parsing for the Redis `SET` command: key, value, and the
//! trailing options (existence conditions, `GET`, and expiration settings),
//! matched case-insensitively as the wire protocol asks.

use vstd::prelude::*;
use vstd::string::{StrSliceExecFns, StringExecFns};

verus! {

/// A parsed command.
#[derive(Debug)]
pub enum RedisCommand {
    SetCmd { key: String, value: String, options: SetOptions },
    Unknown { command: String, args: Vec<String> },
}

/// Options a `SET` may carry.
#[derive(Debug, PartialEq, Eq)]
pub struct SetOptions {
    /// Only set if the key does not exist.
    pub nx: bool,
    /// Only set if the key exists.
    pub xx: bool,
    /// Return the old value.
    pub get: bool,
    /// Expiration settings.
    pub expiration: Option<Expiration>,
}

/// Expiration settings of a `SET`.
#[derive(Debug, PartialEq, Eq, Structural)]
pub enum Expiration {
    /// Expire in seconds.
    Ex(u64),
    /// Expire in milliseconds.
    Px(u64),
    /// Expire at a Unix timestamp in seconds.
    ExAt(u64),
    /// Expire at a Unix timestamp in milliseconds.
    PxAt(u64),
    /// Keep the current time-to-live.
    KeepTtl,
}

/// The options a bare `SET` starts from.
pub open spec fn no_options() -> SetOptions {
    SetOptions { nx: false, xx: false, get: false, expiration: None }
}

impl Default for SetOptions {
    /// All options off.
    fn default() -> (r: SetOptions)
        ensures
            r == no_options(),
    {
        SetOptions { nx: false, xx: false, get: false, expiration: None }
    }
}

/// Case-insensitive match of `s` against an upper-case ASCII keyword: each
/// character is the keyword's own, or its lower-case ASCII counterpart.
pub open spec fn upper_eq(s: Seq<char>, kw: Seq<char>) -> bool {
    s.len() == kw.len() && forall|i: int|
        0 <= i < s.len() ==> ((#[trigger] s[i]) == kw[i] || (97 <= s[i] as int <= 122 && s[i] as int
            - 32 == kw[i] as int))
}

/// Executable case-insensitive keyword match.
fn upper_eq_exec(s: &str, kw: &str) -> (r: bool)
    ensures
        r == upper_eq(s@, kw@),
{
    let n = s.unicode_len();
    if n != kw.unicode_len() {
        return false;
    }
    let mut i: usize = 0;
    while i < n
        invariant
            i <= n,
            n == s@.len(),
            n == kw@.len(),
            forall|j: int|
                0 <= j < i ==> ((#[trigger] s@[j]) == kw@[j] || (97 <= s@[j] as int <= 122 && s@[j]
                    as int - 32 == kw@[j] as int)),
        decreases n - i,
    {
        let c = s.get_char(i);
        let k = kw.get_char(i);
        let cu = c as u32;
        let ku = k as u32;
        if !(cu == ku || (97 <= cu && cu <= 122 && cu - 32 == ku)) {
            return false;
        }
        i = i + 1;
    }
    true
}

/// The digit part of a decimal string: everything past a leading `+`.
pub open spec fn dec_digits(s: Seq<char>) -> Seq<char> {
    if s.len() > 0 && s[0] == '+' {
        s.skip(1)
    } else {
        s
    }
}

/// Whether `s` is a decimal `u64`: an optional leading `+`, then at least
/// one ASCII digit, with the value within range.
pub open spec fn is_dec_u64(s: Seq<char>) -> bool {
    &&& dec_digits(s).len() > 0
    &&& forall|i: int|
        0 <= i < dec_digits(s).len() ==> 48 <= (#[trigger] dec_digits(s)[i]) as int <= 57
    &&& dec_val(dec_digits(s)) <= u64::MAX
}

/// The value of a string of decimal digits.
pub open spec fn dec_val(d: Seq<char>) -> int
    decreases d.len(),
{
    if d.len() == 0 {
        0
    } else {
        10 * dec_val(d.drop_last()) + (d.last() as int - 48)
    }
}

/// The value of a decimal `u64` string, past any leading `+`.
pub open spec fn dec_u64_val(s: Seq<char>) -> int {
    dec_val(dec_digits(s))
}

/// Executable decimal `u64` parse, mirroring how the standard numeric parse
/// treats sign, digits and overflow.
fn parse_u64(s: &str) -> (r: Option<u64>)
    ensures
        is_dec_u64(s@) ==> (r matches Some(v) && v as int == dec_u64_val(s@)),
        !is_dec_u64(s@) ==> r is None,
{
    let n = s.unicode_len();
    if n == 0 {
        return None;
    }
    let first = s.get_char(0);
    let start: usize = if first == '+' {
        1
    } else {
        0
    };
    let ghost d = if first == '+' {
        s@.skip(1)
    } else {
        s@
    };
    proof {
        assert(s@.skip(0) =~= s@);
    }
    if n == start {
        // a bare sign has no digits
        return None;
    }
    let mut acc: u64 = 0;
    let mut i = start;
    while i < n
        invariant
            start <= i <= n,
            n == s@.len(),
            start == if s@[0] == '+' { 1int } else { 0int },
            n > start,
            d == if s@.len() > 0 && s@[0] == '+' { s@.skip(1) } else { s@ },
            d == s@.skip(start as int),
            d.len() == n - start,
            forall|j: int| 0 <= j < i - start ==> 48 <= (#[trigger] d[j]) as int <= 57,
            acc as int == dec_val(d.take(i - start)),
        decreases n - i,
    {
        let c = s.get_char(i);
        let cu = c as u32;
        if !(48 <= cu && cu <= 57) {
            proof {
                assert(dec_digits(s@) == d);
                assert(d[i - start] == s@[i as int]);
                assert(c as int == cu as int);
                assert(!(48 <= dec_digits(s@)[i - start] as int <= 57));
                assert(!is_dec_u64(s@));
            }
            return None;
        }
        let digit = (cu - 48) as u64;
        proof {
            assert(d[i - start] == s@[i as int]);
            assert(d.take(i - start + 1).drop_last() =~= d.take(i - start));
            assert(d.take(i - start + 1).last() == d[i - start]);
        }
        if acc > (u64::MAX - digit) / 10 {
            // the remaining digits can only grow the value further, so the
            // whole string is out of range
            proof {
                assert(10 * (acc as int) + (digit as int) > u64::MAX as int) by (nonlinear_arith)
                    requires
                        acc as int > (u64::MAX as int - digit as int) / 10,
                        0 <= digit as int <= 9,
                        acc as int >= 0,
                {}
                if is_dec_u64(s@) {
                    assert(dec_digits(s@) == d);
                    assert forall|j: int| 0 <= j < d.len() implies 48 <= (#[trigger] d[j]) as int
                        <= 57 by {
                        assert(48 <= dec_digits(s@)[j] as int <= 57);
                    }
                    lemma_dec_val_monotonic(d, i - start + 1);
                    assert(dec_val(d.take(i - start + 1)) == 10 * (acc as int) + (digit as int));
                    assert(false);
                }
            }
            return None;
        }
        acc = acc * 10 + digit;
        i = i + 1;
    }
    proof {
        assert(d.take(d.len() as int) =~= d);
        assert(dec_digits(s@) == d);
        assert(is_dec_u64(s@));
    }
    Some(acc)
}

/// A longer digit string is worth at least ten times its prefix: once the
/// accumulator would overflow, the whole string is out of range.
proof fn lemma_dec_val_monotonic(d: Seq<char>, m: int)
    requires
        0 <= m <= d.len(),
        forall|i: int| 0 <= i < d.len() ==> 48 <= (#[trigger] d[i]) as int <= 57,
    ensures
        dec_val(d) >= dec_val(d.take(m)),
    decreases d.len() - m,
{
    if m == d.len() {
        assert(d.take(m) =~= d);
    } else {
        lemma_dec_val_monotonic(d, m + 1);
        assert(d.take(m + 1).drop_last() =~= d.take(m));
        assert(d.take(m + 1).last() == d[m]);
        assert(dec_val(d.take(m + 1)) == 10 * dec_val(d.take(m)) + (d[m] as int - 48));
        assert(forall|i: int| 0 <= i < m ==> 48 <= (#[trigger] d.take(m)[i]) as int <= 57);
        lemma_dec_val_nonneg(d.take(m));
    }
}

proof fn lemma_dec_val_nonneg(d: Seq<char>)
    requires
        forall|i: int| 0 <= i < d.len() ==> 48 <= (#[trigger] d[i]) as int <= 57,
    ensures
        dec_val(d) >= 0,
    decreases d.len(),
{
    if d.len() > 0 {
        assert(forall|i: int|
            0 <= i < d.drop_last().len() ==> 48 <= (#[trigger] d.drop_last()[i]) as int <= 57);
        lemma_dec_val_nonneg(d.drop_last());
    }
}


/// The views of the argument strings.
pub open spec fn arg_views(args: Seq<String>) -> Seq<Seq<char>> {
    args.map_values(|a: String| a@)
}

/// The outcome of folding the option words from position `i` onward into
/// the options gathered so far: the finished options, or the exact
/// complaint the caller is owed.
pub open spec fn parse_opts(av: Seq<Seq<char>>, i: int, o: SetOptions) -> Result<
    SetOptions,
    Seq<char>,
>
    decreases av.len() - i,
{
    if i < 0 || i >= av.len() {
        Ok(o)
    } else {
        let a = av[i];
        if upper_eq(a, "NX"@) {
            if o.xx {
                Err("Cannot specify both NX and XX."@)
            } else {
                parse_opts(av, i + 1, SetOptions { nx: true, xx: o.xx, get: o.get, expiration: o.expiration })
            }
        } else if upper_eq(a, "XX"@) {
            if o.nx {
                Err("Cannot specify both NX and XX."@)
            } else {
                parse_opts(av, i + 1, SetOptions { nx: o.nx, xx: true, get: o.get, expiration: o.expiration })
            }
        } else if upper_eq(a, "GET"@) {
            parse_opts(av, i + 1, SetOptions { nx: o.nx, xx: o.xx, get: true, expiration: o.expiration })
        } else if upper_eq(a, "EX"@) {
            if i + 1 >= av.len() {
                Err("EX requires a seconds value."@)
            } else if is_dec_u64(av[i + 1]) {
                parse_opts(av, i + 2, SetOptions { nx: o.nx, xx: o.xx, get: o.get, expiration: Some(Expiration::Ex(dec_u64_val(av[i + 1]) as u64)) })
            } else {
                Err("Invalid EX seconds value."@)
            }
        } else if upper_eq(a, "PX"@) {
            if i + 1 >= av.len() {
                Err("PX requires a milliseconds value."@)
            } else if is_dec_u64(av[i + 1]) {
                parse_opts(av, i + 2, SetOptions { nx: o.nx, xx: o.xx, get: o.get, expiration: Some(Expiration::Px(dec_u64_val(av[i + 1]) as u64)) })
            } else {
                Err("Invalid PX milliseconds value."@)
            }
        } else if upper_eq(a, "EXAT"@) {
            if i + 1 >= av.len() {
                Err("EXAT requires a Unix timestamp in seconds."@)
            } else if is_dec_u64(av[i + 1]) {
                parse_opts(av, i + 2, SetOptions { nx: o.nx, xx: o.xx, get: o.get, expiration: Some(Expiration::ExAt(dec_u64_val(av[i + 1]) as u64)) })
            } else {
                Err("Invalid EXAT Unix timestamp value."@)
            }
        } else if upper_eq(a, "PXAT"@) {
            if i + 1 >= av.len() {
                Err("PXAT requires a Unix timestamp in milliseconds."@)
            } else if is_dec_u64(av[i + 1]) {
                parse_opts(av, i + 2, SetOptions { nx: o.nx, xx: o.xx, get: o.get, expiration: Some(Expiration::PxAt(dec_u64_val(av[i + 1]) as u64)) })
            } else {
                Err("Invalid PXAT Unix timestamp value."@)
            }
        } else if upper_eq(a, "KEEPTTL"@) {
            if o.expiration is Some {
                Err("Cannot specify KEEPTTL with other expiration options."@)
            } else {
                parse_opts(av, i + 1, SetOptions { nx: o.nx, xx: o.xx, get: o.get, expiration: Some(Expiration::KeepTtl) })
            }
        } else {
            Err("Unknown option: "@ + a)
        }
    }
}

/// Parse the argument list of a `SET`: a key, a value, then option words,
/// exactly as `parse_opts` folds them.
pub fn parse_set_command(args: &[String]) -> (r: Result<RedisCommand, String>)
    ensures
        args@.len() < 2 ==> (r matches Err(e) && e@
            == "SET command requires at least a key and a value."@),
        args@.len() >= 2 ==> match parse_opts(arg_views(args@), 2, no_options()) {
            Ok(o) => r matches Ok(c) && c matches RedisCommand::SetCmd { key, value, options }
                && key@ == args@[0]@ && value@ == args@[1]@ && options == o,
            Err(m) => r matches Err(e) && e@ == m,
        },
{
    if args.len() < 2 {
        return Err(String::from_str("SET command requires at least a key and a value."));
    }
    let key = args[0].clone();
    let value = args[1].clone();
    let mut options = SetOptions::default();
    let ghost av = arg_views(args@);
    let mut i: usize = 2;
    while i < args.len()
        invariant
            2 <= i <= args@.len(),
            av == arg_views(args@),
            av.len() == args@.len(),
            2 <= args@.len(),
            key@ == args@[0]@,
            value@ == args@[1]@,
            parse_opts(av, 2, no_options()) == parse_opts(av, i as int, options),
        decreases args@.len() - i,
    {
        let ghost iold = i as int;
        let ghost oold = options;
        let a = &args[i];
        proof {
            assert(av[iold] == a@);
        }
        if upper_eq_exec(a.as_str(), "NX") {
            if options.xx {
                return Err(String::from_str("Cannot specify both NX and XX."));
            }
            options.nx = true;
        } else if upper_eq_exec(a.as_str(), "XX") {
            if options.nx {
                return Err(String::from_str("Cannot specify both NX and XX."));
            }
            options.xx = true;
        } else if upper_eq_exec(a.as_str(), "GET") {
            options.get = true;
        } else if upper_eq_exec(a.as_str(), "EX") {
            if i + 1 >= args.len() {
                return Err(String::from_str("EX requires a seconds value."));
            }
            proof {
                assert(av[iold + 1] == args@[iold + 1]@);
            }
            match parse_u64(args[i + 1].as_str()) {
                Some(seconds) => {
                    options.expiration = Some(Expiration::Ex(seconds));
                    i = i + 1;
                },
                None => {
                    return Err(String::from_str("Invalid EX seconds value."));
                },
            }
        } else if upper_eq_exec(a.as_str(), "PX") {
            if i + 1 >= args.len() {
                return Err(String::from_str("PX requires a milliseconds value."));
            }
            proof {
                assert(av[iold + 1] == args@[iold + 1]@);
            }
            match parse_u64(args[i + 1].as_str()) {
                Some(milliseconds) => {
                    options.expiration = Some(Expiration::Px(milliseconds));
                    i = i + 1;
                },
                None => {
                    return Err(String::from_str("Invalid PX milliseconds value."));
                },
            }
        } else if upper_eq_exec(a.as_str(), "EXAT") {
            if i + 1 >= args.len() {
                return Err(String::from_str("EXAT requires a Unix timestamp in seconds."));
            }
            proof {
                assert(av[iold + 1] == args@[iold + 1]@);
            }
            match parse_u64(args[i + 1].as_str()) {
                Some(unix_time) => {
                    options.expiration = Some(Expiration::ExAt(unix_time));
                    i = i + 1;
                },
                None => {
                    return Err(String::from_str("Invalid EXAT Unix timestamp value."));
                },
            }
        } else if upper_eq_exec(a.as_str(), "PXAT") {
            if i + 1 >= args.len() {
                return Err(String::from_str("PXAT requires a Unix timestamp in milliseconds."));
            }
            proof {
                assert(av[iold + 1] == args@[iold + 1]@);
            }
            match parse_u64(args[i + 1].as_str()) {
                Some(unix_time) => {
                    options.expiration = Some(Expiration::PxAt(unix_time));
                    i = i + 1;
                },
                None => {
                    return Err(String::from_str("Invalid PXAT Unix timestamp value."));
                },
            }
        } else if upper_eq_exec(a.as_str(), "KEEPTTL") {
            match options.expiration {
                Some(_) => {
                    return Err(
                        String::from_str("Cannot specify KEEPTTL with other expiration options."),
                    );
                },
                None => {},
            }
            options.expiration = Some(Expiration::KeepTtl);
        } else {
            let mut msg = String::from_str("Unknown option: ");
            msg.append(a.as_str());
            return Err(msg);
        }
        i = i + 1;
        proof {
            assert(parse_opts(av, iold, oold) == parse_opts(av, i as int, options));
        }
    }
    Ok(RedisCommand::SetCmd { key, value, options })
}


} // verus!
