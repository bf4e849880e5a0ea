//! The library's error type.
//!
//! Storage failures carry the underlying store's message as text; validation,
//! not-found and internal failures carry their own description.

use vstd::prelude::*;
use vstd::string::StringExecFns;
use crate::calendar::digit_char;

verus! {

#[derive(Debug)]
pub enum Error {
    /// A failure of the underlying store.
    Database(String),
    /// An input rejected before any mutation.
    InvalidInput(String),
    /// A requested entity that is absent.
    NotFound(String),
    /// A failure of the time-tracking write path.
    TimeTracking(String),
    /// An input/output failure outside the store.
    Io(String),
    /// An internal or invariant failure, including an incompatible schema
    /// version.
    Internal(String),
}

/// The text `message` renders an error as.
pub open spec fn error_message(e: Error) -> Seq<char> {
    match e {
        Error::Database(s) => "Database error: "@ + s@,
        Error::InvalidInput(s) => "Invalid input: "@ + s@,
        Error::NotFound(s) => "Not found: "@ + s@,
        Error::TimeTracking(s) => "Time tracking error: "@ + s@,
        Error::Io(s) => "IO error: "@ + s@,
        Error::Internal(s) => "Internal error: "@ + s@,
    }
}

impl Error {
    /// Whether the error reports an absent entity.
    pub fn is_not_found(&self) -> (r: bool)
        ensures
            r == (*self is NotFound),
    {
        match self {
            Error::NotFound(_) => true,
            _ => false,
        }
    }

    /// The error rendered as text, kind first.
    pub fn message(&self) -> (r: String)
        ensures
            r@ == error_message(*self),
    {
        let mut out = String::new();
        match self {
            Error::Database(s) => {
                out.append("Database error: ");
                out.append(s.as_str());
            },
            Error::InvalidInput(s) => {
                out.append("Invalid input: ");
                out.append(s.as_str());
            },
            Error::NotFound(s) => {
                out.append("Not found: ");
                out.append(s.as_str());
            },
            Error::TimeTracking(s) => {
                out.append("Time tracking error: ");
                out.append(s.as_str());
            },
            Error::Io(s) => {
                out.append("IO error: ");
                out.append(s.as_str());
            },
            Error::Internal(s) => {
                out.append("Internal error: ");
                out.append(s.as_str());
            },
        }
        out
    }
}

/// The decimal digits of a non-negative number.
pub open spec fn dec_seq(n: int) -> Seq<char>
    decreases n,
{
    if n < 10 {
        seq![digit_char(n)]
    } else {
        dec_seq(n / 10) + seq![digit_char(n % 10)]
    }
}

/// The decimal rendering of any number, a minus sign leading the negative
/// ones.
pub open spec fn dec_signed(n: int) -> Seq<char> {
    if n < 0 {
        seq!['-'] + dec_seq(-n)
    } else {
        dec_seq(n)
    }
}

/// Append a number's decimal rendering.
pub fn push_signed_decimal(out: &mut String, n: i64)
    requires
        i64::MIN < n,
    ensures
        final(out)@ == old(out)@ + dec_signed(n as int),
{
    if n < 0 {
        proof {
            reveal_strlit("-");
        }
        out.append("-");
        push_decimal(out, -n);
        proof {
            assert(final(out)@ =~= old(out)@ + dec_signed(n as int));
        }
    } else {
        push_decimal(out, n);
    }
}

/// Append a non-negative number's decimal digits.
pub fn push_decimal(out: &mut String, n: i64)
    requires
        0 <= n,
    ensures
        final(out)@ == old(out)@ + dec_seq(n as int),
    decreases n,
{
    if n < 10 {
        crate::calendar::push_digit(out, n);
    } else {
        push_decimal(out, n / 10);
        crate::calendar::push_digit(out, n % 10);
        proof {
            assert(final(out)@ =~= old(out)@ + dec_seq(n as int));
        }
    }
}

} // verus!
