//! Command lines: numbers and flags as the tools read them.
use vstd::prelude::*;
use crate::text::{chars_of, copy_string, str_eq, str_to_string, views};

verus! {

// ---------------------------------------------------------------------------
// Numbers
// ---------------------------------------------------------------------------

/// A decimal digit.
pub open spec fn is_digit(c: char) -> bool {
    '0' <= c && c <= '9'
}

/// The value of a string of decimal digits.
pub open spec fn digits_value(s: Seq<char>) -> int
    decreases s.len(),
{
    if s.len() == 0 {
        0
    } else {
        digits_value(s.drop_last()) * 10 + (s.last() as int - '0' as int)
    }
}

/// Every character is a decimal digit.
pub open spec fn all_digits(s: Seq<char>) -> bool {
    forall|i: int| 0 <= i < s.len() ==> is_digit(#[trigger] s[i])
}

/// The integer a text denotes as Rust's integer parsers read it: an
/// optional `+` (or `-` for signed types) followed by at least one decimal
/// digit, nothing else.
pub open spec fn int_text(s: Seq<char>, signed: bool) -> Option<int> {
    let neg = s.len() > 0 && s[0] == '-' && signed;
    let body = if neg || (s.len() > 0 && s[0] == '+') {
        s.drop_first()
    } else {
        s
    };
    if body.len() > 0 && all_digits(body) {
        Some(
            if neg {
                -digits_value(body)
            } else {
                digits_value(body)
            },
        )
    } else {
        None
    }
}

/// The value of a text as an `i32`, when it is one.
pub open spec fn i32_text(s: Seq<char>) -> Option<i32> {
    match int_text(s, true) {
        Some(v) => if i32::MIN <= v <= i32::MAX {
            Some(v as i32)
        } else {
            None
        },
        None => None,
    }
}

/// The value of a text as a `u64`, when it is one.
pub open spec fn u64_text(s: Seq<char>) -> Option<u64> {
    match int_text(s, false) {
        Some(v) => if 0 <= v <= u64::MAX {
            Some(v as u64)
        } else {
            None
        },
        None => None,
    }
}

/// The value of a text as a `usize`, when it is one.
pub open spec fn usize_text(s: Seq<char>) -> Option<usize> {
    match int_text(s, false) {
        Some(v) => if 0 <= v <= usize::MAX {
            Some(v as usize)
        } else {
            None
        },
        None => None,
    }
}

proof fn lemma_digits_nonneg(s: Seq<char>)
    requires
        all_digits(s),
    ensures
        digits_value(s) >= 0,
    decreases s.len(),
{
    if s.len() > 0 {
        assert(all_digits(s.drop_last())) by {
            assert forall|i: int| 0 <= i < s.drop_last().len() implies is_digit(#[trigger] s.drop_last()[i]) by {
                assert(s.drop_last()[i] == s[i]);
            }
        }
        lemma_digits_nonneg(s.drop_last());
        assert(is_digit(s[s.len() - 1]));
    }
}

proof fn lemma_digits_mono(s: Seq<char>, i: int)
    requires
        all_digits(s),
        0 <= i <= s.len(),
    ensures
        digits_value(s.take(i)) <= digits_value(s),
    decreases s.len() - i,
{
    if i < s.len() {
        lemma_digits_mono(s, i + 1);
        let t = s.take(i + 1);
        assert(t.drop_last() =~= s.take(i));
        assert(all_digits(s.take(i))) by {
            assert forall|k: int| 0 <= k < s.take(i).len() implies is_digit(#[trigger] s.take(i)[k]) by {
                assert(s.take(i)[k] == s[k]);
            }
        }
        lemma_digits_nonneg(s.take(i));
        assert(is_digit(s[i]));
        assert(t.last() == s[i]);
    } else {
        assert(s.take(i) =~= s);
    }
}

/// The largest value tracked exactly while reading digits.
pub const DIGITS_CAP: u128 = 0x1_0000_0000_0000_0000;

/// Reads an integer text: its sign and its magnitude, the magnitude capped
/// at 2^64; nothing when the text is not an integer.
fn read_int(s: &str, signed: bool) -> (r: Option<(bool, u128)>)
    ensures
        match r {
            Some((neg, v)) => int_text(s@, signed) matches Some(x) && v <= DIGITS_CAP && (v < DIGITS_CAP
                ==> x == (if neg {
                -(v as int)
            } else {
                v as int
            })) && (v == DIGITS_CAP ==> x >= DIGITS_CAP || x <= -DIGITS_CAP) && (neg ==> signed) && (!neg
                ==> x >= 0),
            None => int_text(s@, signed) is None,
        },
{
    let cs = chars_of(s);
    let n = cs.len();
    let neg = n > 0 && cs[0] == '-' && signed;
    let start: usize = if neg || (n > 0 && cs[0] == '+') {
        1
    } else {
        0
    };
    let ghost body = if neg || (s@.len() > 0 && s@[0] == '+') {
        s@.drop_first()
    } else {
        s@
    };
    assert(body =~= cs@.skip(start as int));
    if start >= n {
        return None;
    }
    let mut v: u128 = 0;
    let mut capped = false;
    let mut i: usize = start;
    while i < n
        invariant
            start <= i <= n,
            n == cs@.len(),
            cs@ == s@,
            body == cs@.skip(start as int),
            forall|k: int| start <= k < i ==> is_digit(#[trigger] cs@[k]),
            neg == (s@.len() > 0 && s@[0] == '-' && signed),
            body == (if neg || (s@.len() > 0 && s@[0] == '+') {
                s@.drop_first()
            } else {
                s@
            }),
            !capped ==> v as int == digits_value(body.take(i - start)) && v < DIGITS_CAP,
            capped ==> v == DIGITS_CAP && digits_value(body.take(i - start)) >= DIGITS_CAP,
        decreases n - i,
    {
        let c = cs[i];
        if !('0' <= c && c <= '9') {
            proof {
                assert(!is_digit(body[i - start]));
            }
            return None;
        }
        let d = (c as u32 - '0' as u32) as u128;
        proof {
            let t = body.take(i - start + 1);
            assert(t.drop_last() =~= body.take(i - start));
            assert(t.last() == c);
            assert(all_digits(body.take(i - start))) by {
                assert forall|k: int| 0 <= k < body.take(i - start).len() implies is_digit(#[trigger] body.take(i - start)[k]) by {
                    assert(body.take(i - start)[k] == cs@[k + start]);
                }
            }
            lemma_digits_nonneg(body.take(i - start));
        }
        let ghost old_val = digits_value(body.take(i - start));
        proof {
            assert(digits_value(body.take(i - start + 1)) == old_val * 10 + d);
            assert(old_val >= 0);
            assert(old_val * 10 + d >= old_val) by (nonlinear_arith)
                requires
                    old_val >= 0,
                    d >= 0,
            ;
        }
        if !capped {
            if v > DIGITS_CAP / 10 {
                proof {
                    assert(old_val * 10 + d >= DIGITS_CAP) by (nonlinear_arith)
                        requires
                            old_val > DIGITS_CAP / 10,
                            d >= 0,
                    ;
                }
                capped = true;
                v = DIGITS_CAP;
            } else {
                v = v * 10 + d;
                if v >= DIGITS_CAP {
                    capped = true;
                    v = DIGITS_CAP;
                }
            }
        }
        i = i + 1;
    }
    proof {
        assert(all_digits(body)) by {
            assert forall|k: int| 0 <= k < body.len() implies is_digit(#[trigger] body[k]) by {
                assert(body[k] == cs@[k + start]);
            }
        }
        assert(body.take(n - start) =~= body);
    }
    Some((neg, v))
}

/// Reads an `i32` the way `str::parse::<i32>` does.
pub fn parse_i32(s: &str) -> (r: Option<i32>)
    ensures
        r == i32_text(s@),
{
    match read_int(s, true) {
        Some((neg, v)) => {
            if v >= DIGITS_CAP {
                return None;
            }
            if neg {
                if v <= 2147483648 {
                    Some((0 - (v as i64)) as i32)
                } else {
                    None
                }
            } else {
                if v <= 2147483647 {
                    Some(v as i32)
                } else {
                    None
                }
            }
        },
        None => None,
    }
}

/// Reads a `u64` the way `str::parse::<u64>` does.
pub fn parse_u64(s: &str) -> (r: Option<u64>)
    ensures
        r == u64_text(s@),
{
    match read_int(s, false) {
        Some((_, v)) => {
            if v < DIGITS_CAP {
                Some(v as u64)
            } else {
                None
            }
        },
        None => None,
    }
}

/// Reads a `usize` the way `str::parse::<usize>` does.
pub fn parse_usize(s: &str) -> (r: Option<usize>)
    ensures
        r == usize_text(s@),
{
    match read_int(s, false) {
        Some((_, v)) => {
            if v < DIGITS_CAP && v <= usize::MAX as u128 {
                Some(v as usize)
            } else {
                None
            }
        },
        None => None,
    }
}

/// Reads a boolean the way `str::parse::<bool>` does: exactly `true` or
/// `false`.
pub fn parse_bool(s: &str) -> (r: Option<bool>)
    ensures
        r == (if s@ == "true"@ {
            Some(true)
        } else if s@ == "false"@ {
            Some(false)
        } else {
            None
        }),
{
    if str_eq(s, "true") {
        Some(true)
    } else if str_eq(s, "false") {
        Some(false)
    } else {
        None
    }
}

// ---------------------------------------------------------------------------
// Errors
// ---------------------------------------------------------------------------

/// Why a command line was refused.
pub enum ArgErrorKind {
    /// A flag is missing its value.
    MissingValue,
    /// A flag was given twice.
    Duplicate,
    /// A flag's value is not what it should be.
    Invalid,
    /// An argument is not known.
    Unknown,
    /// A required flag is missing.
    MissingRequired,
    /// Two flags exclude each other.
    Conflict,
}

/// A refused command line: why, and the flag or argument concerned.
pub struct ArgError {
    pub kind: ArgErrorKind,
    pub subject: String,
}

fn arg_error(kind: ArgErrorKind, subject: &str) -> (e: ArgError)
    ensures
        e.kind == kind,
        e.subject@ == subject@,
{
    ArgError { kind, subject: str_to_string(subject) }
}

// ---------------------------------------------------------------------------
// yo-do
// ---------------------------------------------------------------------------

/// The command line of the matcher.
pub struct DoArgs {
    pub input: Option<String>,
    pub fuzzy: i32,
    pub room: Option<String>,
}

/// The state of reading the matcher's command line: input, fuzzy
/// threshold, room.
pub type DoState = (Option<Seq<char>>, int, Option<Seq<char>>);

/// Reads the matcher's flags from position `i` on: `--input` and `--room`
/// once each, `--fuzzy` with an integer; every flag needs a value.
pub open spec fn do_args_from(args: Seq<Seq<char>>, i: int, st: DoState) -> Result<DoState, (ArgErrorKind, Seq<char>)>
    decreases args.len() - i,
{
    if i < 0 || i >= args.len() {
        Ok(st)
    } else {
        let a = args[i];
        if a == "--input"@ || a == "--fuzzy"@ || a == "--room"@ {
            if i + 1 >= args.len() {
                Err((ArgErrorKind::MissingValue, a))
            } else {
                let v = args[i + 1];
                if a == "--input"@ {
                    if st.0 is Some {
                        Err((ArgErrorKind::Duplicate, a))
                    } else {
                        do_args_from(args, i + 2, (Some(v), st.1, st.2))
                    }
                } else if a == "--fuzzy"@ {
                    match i32_text(v) {
                        Some(f) => do_args_from(args, i + 2, (st.0, f as int, st.2)),
                        None => Err((ArgErrorKind::Invalid, a)),
                    }
                } else {
                    if st.2 is Some {
                        Err((ArgErrorKind::Duplicate, a))
                    } else {
                        do_args_from(args, i + 2, (st.0, st.1, Some(v)))
                    }
                }
            }
        } else {
            Err((ArgErrorKind::Unknown, a))
        }
    }
}

/// The view of an optional string.
pub open spec fn opt_str(o: Option<String>) -> Option<Seq<char>> {
    match o {
        Some(s) => Some(s@),
        None => None,
    }
}

/// The view of an argument error.
pub open spec fn err_view(e: ArgError) -> (ArgErrorKind, Seq<char>) {
    (e.kind, e.subject@)
}

/// Reads the matcher's command line (without the program name); the fuzzy
/// threshold defaults to 25.
pub fn parse_do_args(args: &Vec<String>) -> (r: Result<DoArgs, ArgError>)
    ensures
        match r {
            Ok(d) => do_args_from(views(args@), 0, (None, 25, None)) == Ok::<DoState, (ArgErrorKind, Seq<char>)>(
                (opt_str(d.input), d.fuzzy as int, opt_str(d.room)),
            ),
            Err(e) => do_args_from(views(args@), 0, (None, 25, None)) == Err::<DoState, (ArgErrorKind, Seq<char>)>(
                err_view(e),
            ),
        },
{
    let ghost a = views(args@);
    let mut input: Option<String> = None;
    let mut fuzzy: i32 = 25;
    let mut room: Option<String> = None;
    let mut i: usize = 0;
    while i < args.len()
        invariant
            0 <= i <= args@.len(),
            a == views(args@),
            do_args_from(a, 0, (None, 25, None)) == do_args_from(a, i as int, (opt_str(input), fuzzy as int, opt_str(room))),
        decreases args@.len() - i,
    {
        let arg = args[i].as_str();
        assert(a[i as int] == arg@);
        let is_input = str_eq(arg, "--input");
        let is_fuzzy = str_eq(arg, "--fuzzy");
        let is_room = str_eq(arg, "--room");
        if !(is_input || is_fuzzy || is_room) {
            return Err(arg_error(ArgErrorKind::Unknown, arg));
        }
        if i + 1 >= args.len() {
            return Err(arg_error(ArgErrorKind::MissingValue, arg));
        }
        let value = args[i + 1].as_str();
        assert(a[i + 1] == value@);
        if is_input {
            if input.is_some() {
                return Err(arg_error(ArgErrorKind::Duplicate, arg));
            }
            input = Some(str_to_string(value));
        } else if is_fuzzy {
            match parse_i32(value) {
                Some(f) => fuzzy = f,
                None => return Err(arg_error(ArgErrorKind::Invalid, arg)),
            }
        } else {
            if room.is_some() {
                return Err(arg_error(ArgErrorKind::Duplicate, arg));
            }
            room = Some(str_to_string(value));
        }
        i = i + 2;
    }
    Ok(DoArgs { input, fuzzy, room })
}

} // verus!
