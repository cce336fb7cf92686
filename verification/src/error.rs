//! The error taxonomy every operation surfaces: launch failures, non-zero
//! exits, missing sensor records, and numeric parse failures.

use vstd::prelude::*;

verus! {

/// One error type for both layers.
///
/// `LaunchFailure` and `NonZeroExit` come from the executor; `NotFound`
/// and `ParseFailure` come from interpreting sensor text. No error is
/// retried or swallowed.
#[derive(Debug, Clone, PartialEq, Eq)]
pub enum Error {
    /// The external management tool could not be started at all.
    LaunchFailure { detail: String },
    /// The external management tool ran and exited with a non-zero status.
    NonZeroExit { code: i32, stderr: String },
    /// The expected sensor record is absent from otherwise good output.
    NotFound,
    /// A numeric field was present but its digits do not fit the
    /// expected unsigned 16-bit range.
    ParseFailure { digits: String },
}

/// The decimal digit character for `n % 10`.
pub open spec fn digit_char_of(n: nat) -> char {
    ((48 + n % 10) as u8) as char
}

/// The decimal rendering of a natural number, most significant digit first.
pub open spec fn dec_digits_of(n: nat) -> Seq<char>
    decreases n,
{
    if n < 10 {
        seq![digit_char_of(n)]
    } else {
        dec_digits_of(n / 10).push(digit_char_of(n % 10))
    }
}

/// The decimal rendering of an integer, with a leading '-' when negative.
pub open spec fn dec_of(v: int) -> Seq<char> {
    if v < 0 {
        seq!['-'] + dec_digits_of((-v) as nat)
    } else {
        dec_digits_of(v as nat)
    }
}

/// The message of a non-zero-exit error: the exit status in decimal and
/// the captured stderr text, verbatim.
pub open spec fn exit_message_spec(code: int, stderr: Seq<char>) -> Seq<char> {
    "status:"@ + dec_of(code) + ", stderr: "@ + stderr
}

/// The diagnostic message of each error.
pub open spec fn spec_message(e: Error) -> Seq<char> {
    match e {
        Error::LaunchFailure { detail } => "launch failure: "@ + detail@,
        Error::NonZeroExit { code, stderr } => exit_message_spec(code as int, stderr@),
        Error::NotFound => "not found"@,
        Error::ParseFailure { digits } => "parse failure: "@ + digits@,
    }
}

/// `needle` occurs contiguously somewhere in `hay`.
pub open spec fn contains_seq(hay: Seq<char>, needle: Seq<char>) -> bool {
    exists|i: int|
        0 <= i && i + needle.len() <= hay.len() && #[trigger] hay.subrange(i, i + needle.len())
            == needle
}

/// A process exiting non-zero surfaces an error whose message includes
/// both the exit code (in decimal) and the captured stderr text.
pub proof fn lemma_exit_message_surfaces(code: i32, stderr: Seq<char>)
    ensures
        contains_seq(exit_message_spec(code as int, stderr), dec_of(code as int)),
        contains_seq(exit_message_spec(code as int, stderr), stderr),
{
    let p1 = "status:"@;
    let d = dec_of(code as int);
    let p2 = ", stderr: "@;
    let m = exit_message_spec(code as int, stderr);
    assert(m.subrange(p1.len() as int, p1.len() + d.len() as int) =~= d);
    assert(m.subrange(m.len() - stderr.len(), m.len() as int) =~= stderr);
}

/// One decimal digit as a string slice.
fn dec_digit_str(d: u64) -> (r: &'static str)
    requires
        d < 10,
    ensures
        r@ =~= seq![digit_char_of(d as nat)],
{
    let tbl = "0123456789";
    proof {
        reveal_strlit("0123456789");
    }
    tbl.substring_ascii(d as usize, d as usize + 1)
}

/// The decimal rendering of a `u64`, executable form.
pub fn dec_u64_string(n: u64) -> (r: String)
    ensures
        r@ == dec_digits_of(n as nat),
    decreases n,
{
    if n < 10 {
        String::from_str(dec_digit_str(n))
    } else {
        let mut hi = dec_u64_string(n / 10);
        hi.append(dec_digit_str(n % 10));
        proof {
            assert(hi@ =~= dec_digits_of(n as nat));
        }
        hi
    }
}

/// The decimal rendering of an `i32`, executable form.
pub fn dec_i32_string(code: i32) -> (r: String)
    ensures
        r@ == dec_of(code as int),
{
    if code < 0 {
        let m: u64 = (-(code as i64)) as u64;
        let mut out = String::from_str("-");
        proof {
            reveal_strlit("-");
        }
        let digits = dec_u64_string(m);
        out.append(digits.as_str());
        proof {
            assert(out@ =~= dec_of(code as int));
        }
        out
    } else {
        dec_u64_string(code as u64)
    }
}

impl Error {
    /// A diagnostic message with enough context to act on the failure
    /// without re-running the operation.
    pub fn message(&self) -> (r: String)
        ensures
            r@ == spec_message(*self),
    {
        match self {
            Error::LaunchFailure { detail } => {
                let mut out = String::from_str("launch failure: ");
                out.append(detail.as_str());
                out
            },
            Error::NonZeroExit { code, stderr } => {
                let mut out = String::from_str("status:");
                let dec = dec_i32_string(*code);
                out.append(dec.as_str());
                out.append(", stderr: ");
                out.append(stderr.as_str());
                out
            },
            Error::NotFound => String::from_str("not found"),
            Error::ParseFailure { digits } => {
                let mut out = String::from_str("parse failure: ");
                out.append(digits.as_str());
                out
            },
        }
    }
}

} // verus!
