//! The typed terminal-error taxonomy of the gateway, and the verified
//! rendering of each error as the single structured message the caller sees.
//!
//! Attempt-level failures stay free text ([`crate::client::LLMError`]): the
//! retry loop treats them all identically. The errors here are the ones that
//! end a request.

use vstd::prelude::*;
use crate::client::LLMError;

verus! {

/// Why a request ended without a response.
#[derive(Debug, PartialEq, Eq)]
pub enum GatewayError {
    /// No credential currently satisfies the vendor filter. Returned
    /// immediately, never retried.
    NoCredentialAvailable,
    /// The attempt cap was reached; carries the cap, the credential the last
    /// attempt ran on, and that attempt's error.
    RetriesExhausted { attempts: u32, token_id: i64, last_error: LLMError },
    /// The credential store itself failed on a structural operation. Fatal:
    /// the embedding application maps its storage failures here.
    StoreAccessFailure { message: String },
}

/// The decimal digits of `n`, most significant first.
pub open spec fn spec_decimal(n: nat) -> Seq<char>
    decreases n,
{
    if n < 10 {
        seq![spec_digit(n)]
    } else {
        spec_decimal(n / 10).push(spec_digit(n % 10))
    }
}

/// The character for one decimal digit.
pub open spec fn spec_digit(d: nat) -> char {
    if d == 0 {
        '0'
    } else if d == 1 {
        '1'
    } else if d == 2 {
        '2'
    } else if d == 3 {
        '3'
    } else if d == 4 {
        '4'
    } else if d == 5 {
        '5'
    } else if d == 6 {
        '6'
    } else if d == 7 {
        '7'
    } else if d == 8 {
        '8'
    } else {
        '9'
    }
}

/// The decimal rendering of a signed value: a minus sign before the digits
/// of the magnitude when negative.
pub open spec fn spec_decimal_i64(n: int) -> Seq<char> {
    if n < 0 {
        seq!['-'] + spec_decimal((-n) as nat)
    } else {
        spec_decimal(n as nat)
    }
}

/// Appends the character of one decimal digit.
fn append_digit(s: &mut String, d: u64)
    requires
        d < 10,
    ensures
        final(s)@ == old(s)@ + seq![spec_digit(d as nat)],
{
    if d == 0 {
        proof {
            reveal_strlit("0");
        }
        s.append("0");
    } else if d == 1 {
        proof {
            reveal_strlit("1");
        }
        s.append("1");
    } else if d == 2 {
        proof {
            reveal_strlit("2");
        }
        s.append("2");
    } else if d == 3 {
        proof {
            reveal_strlit("3");
        }
        s.append("3");
    } else if d == 4 {
        proof {
            reveal_strlit("4");
        }
        s.append("4");
    } else if d == 5 {
        proof {
            reveal_strlit("5");
        }
        s.append("5");
    } else if d == 6 {
        proof {
            reveal_strlit("6");
        }
        s.append("6");
    } else if d == 7 {
        proof {
            reveal_strlit("7");
        }
        s.append("7");
    } else if d == 8 {
        proof {
            reveal_strlit("8");
        }
        s.append("8");
    } else {
        proof {
            reveal_strlit("9");
        }
        s.append("9");
    }
    assert(final(s)@ =~= old(s)@ + seq![spec_digit(d as nat)]);
}

/// Appends the decimal digits of `n`.
fn append_decimal(s: &mut String, n: u64)
    ensures
        final(s)@ == old(s)@ + spec_decimal(n as nat),
    decreases n,
{
    if n < 10 {
        append_digit(s, n);
    } else {
        append_decimal(s, n / 10);
        append_digit(s, n % 10);
        assert(final(s)@ =~= old(s)@ + spec_decimal(n as nat));
    }
}

/// The decimal rendering of an unsigned value.
pub fn u64_to_string(n: u64) -> (r: String)
    ensures
        r@ == spec_decimal(n as nat),
{
    let mut s = String::new();
    append_decimal(&mut s, n);
    assert(s@ =~= spec_decimal(n as nat));
    s
}

/// The decimal rendering of a signed value, minus sign included.
pub fn i64_to_string(n: i64) -> (r: String)
    ensures
        r@ == spec_decimal_i64(n as int),
{
    if n >= 0 {
        u64_to_string(n as u64)
    } else {
        let mut s = String::new();
        proof {
            reveal_strlit("-");
        }
        s.append("-");
        let m: u64 = (-(n as i128)) as u64;
        assert(m as int == -(n as int));
        append_decimal(&mut s, m);
        assert(s@ =~= spec_decimal_i64(n as int));
        s
    }
}

impl GatewayError {
    /// What [`GatewayError::message`] renders, as a mathematical value.
    pub open spec fn spec_message(self) -> Seq<char> {
        match self {
            GatewayError::NoCredentialAvailable => "No available tokens"@,
            GatewayError::RetriesExhausted { attempts, token_id, last_error } => "Max retry attempts ("@
                + spec_decimal(attempts as nat) + ") reached. Last error on token "@
                + spec_decimal_i64(token_id as int) + ": "@ + last_error.0@,
            GatewayError::StoreAccessFailure { message } => "Database error: "@ + message@,
        }
    }

    /// The single structured error string a terminal failure surfaces as.
    pub fn message(&self) -> (r: String)
        ensures
            r@ == self.spec_message(),
    {
        match self {
            GatewayError::NoCredentialAvailable => {
                proof {
                    reveal_strlit("No available tokens");
                }
                "No available tokens".to_owned()
            },
            GatewayError::RetriesExhausted { attempts, token_id, last_error } => {
                proof {
                    reveal_strlit("Max retry attempts (");
                    reveal_strlit(") reached. Last error on token ");
                    reveal_strlit(": ");
                }
                let mut s = "Max retry attempts (".to_owned();
                append_decimal(&mut s, *attempts as u64);
                s.append(") reached. Last error on token ");
                let id_part = i64_to_string(*token_id);
                s.append(id_part.as_str());
                s.append(": ");
                s.append(last_error.0.as_str());
                assert(s@ =~= self.spec_message());
                s
            },
            GatewayError::StoreAccessFailure { message } => {
                proof {
                    reveal_strlit("Database error: ");
                }
                let mut s = "Database error: ".to_owned();
                s.append(message.as_str());
                assert(s@ =~= self.spec_message());
                s
            },
        }
    }
}

} // verus!
