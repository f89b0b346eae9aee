//! The checks every request passes before it reaches the store: first the
//! authorization token, then the result-count limit.
use vstd::prelude::*;

use crate::item::MenuItem;
use crate::table::capped;

verus! {

/// The outcome of comparing a supplied token with the secret.
#[derive(Clone, Copy, Debug, PartialEq, Eq, Structural)]
pub enum AuthOutcome {
    Authorized,
    /// A token was supplied and differs from the secret.
    Unauthorized,
    /// No token was supplied.
    Missing,
}

/// A negative limit.
#[derive(Clone, Copy, Debug, PartialEq, Eq, Structural)]
pub struct InvalidLimit;

/// Why a request was turned away before it reached the store.
#[derive(Clone, Copy, Debug, PartialEq, Eq, Structural)]
pub enum RequestError {
    MissingToken,
    Unauthorized,
    InvalidLimit,
}

/// What `check_authorization` returns.
pub open spec fn authorization(supplied: Option<Seq<char>>, secret: Seq<char>) -> AuthOutcome {
    match supplied {
        None => AuthOutcome::Missing,
        Some(t) => if t == secret {
            AuthOutcome::Authorized
        } else {
            AuthOutcome::Unauthorized
        },
    }
}

/// A decimal digit.
pub open spec fn is_digit(c: char) -> bool {
    '0' <= c <= '9'
}

/// One or more decimal digits and nothing else.
pub open spec fn all_digits(s: Seq<char>) -> bool {
    s.len() > 0 && forall|k: int| 0 <= k < s.len() ==> is_digit(#[trigger] s[k])
}

/// The number a string of decimal digits stands for.
pub open spec fn decimal_value(s: Seq<char>) -> nat
    decreases s.len(),
{
    if s.len() == 0 {
        0
    } else {
        decimal_value(s.drop_last()) * 10 + ((s.last() as u32) - ('0' as u32)) as nat
    }
}

/// A count as a `u64`; counts beyond its range become its largest value,
/// which caps any listing the same way.
pub open spec fn clamped(n: nat) -> u64 {
    if n > u64::MAX {
        u64::MAX
    } else {
        n as u64
    }
}

/// What `normalize_limit` returns: no limit stays no limit; a non-negative
/// decimal number is kept (zero included, which means no results); anything
/// else, a negative number above all, is refused.
pub open spec fn normalized(raw: Option<Seq<char>>) -> Result<Option<u64>, InvalidLimit> {
    match raw {
        None => Ok(None),
        Some(s) => if all_digits(s) {
            Ok(Some(clamped(decimal_value(s))))
        } else {
            Err(InvalidLimit)
        },
    }
}

/// The view of an optional string.
pub open spec fn opt_view(s: Option<&str>) -> Option<Seq<char>> {
    match s {
        None => None,
        Some(t) => Some(t@),
    }
}

/// Whether two strings hold the same characters.
fn same_text(a: &str, b: &str) -> (r: bool)
    ensures
        r == (a@ == b@),
{
    let x = a.as_bytes();
    let y = b.as_bytes();
    proof {
        vstd::utf8::encode_utf8_decode_utf8(a@);
        vstd::utf8::encode_utf8_decode_utf8(b@);
    }
    if x.len() != y.len() {
        return false;
    }
    let mut i: usize = 0;
    while i < x.len()
        invariant
            x@ == vstd::utf8::encode_utf8(a@),
            y@ == vstd::utf8::encode_utf8(b@),
            x@.len() == y@.len(),
            i <= x@.len(),
            x@.take(i as int) == y@.take(i as int),
        decreases x@.len() - i,
    {
        if x[i] != y[i] {
            proof {
                assert(x@[i as int] != y@[i as int]);
            }
            return false;
        }
        proof {
            assert(x@.take(i + 1) =~= x@.take(i as int).push(x@[i as int]));
            assert(y@.take(i + 1) =~= y@.take(i as int).push(y@[i as int]));
        }
        i += 1;
    }
    proof {
        assert(x@ =~= x@.take(i as int));
        assert(y@ =~= y@.take(i as int));
    }
    true
}

/// Compares the supplied token with the secret; an absent token and a wrong
/// one are told apart.
pub fn check_authorization(supplied: Option<&str>, secret: &str) -> (r: AuthOutcome)
    ensures
        r == authorization(opt_view(supplied), secret@),
{
    match supplied {
        None => AuthOutcome::Missing,
        Some(t) => if same_text(t, secret) {
            AuthOutcome::Authorized
        } else {
            AuthOutcome::Unauthorized
        },
    }
}

/// Turns the caller's limit, as written in the request, into the limit the
/// store takes: `None` for no limit, `InvalidLimit` for a negative or
/// malformed one.
pub fn normalize_limit(raw: Option<&str>) -> (r: Result<Option<u64>, InvalidLimit>)
    ensures
        r == normalized(opt_view(raw)),
{
    match raw {
        None => Ok(None),
        Some(t) => match parse_count(t) {
            Some(v) => Ok(Some(v)),
            None => Err(InvalidLimit),
        },
    }
}

/// The value of a string of decimal digits, clamped to `u64`; `None` for
/// any other string.
fn parse_count(t: &str) -> (r: Option<u64>)
    ensures
        r == (if all_digits(t@) {
            Some(clamped(decimal_value(t@)))
        } else {
            None::<u64>
        }),
{
    if !t.is_ascii() {
        proof {
            assert(!all_digits(t@)) by {
                if all_digits(t@) {
                    assert forall|k: int| 0 <= k < t@.len() implies '\0' <= #[trigger] t@[k]
                        <= '\u{7f}' by {
                        assert(is_digit(t@[k]));
                    }
                }
            }
        }
        return None;
    }
    let b = t.as_bytes();
    proof {
        assert(b@ =~= Seq::new(t@.len(), |k: int| t@[k] as u8));
    }
    if b.len() == 0 {
        return None;
    }
    let mut v: u64 = 0;
    let mut i: usize = 0;
    while i < b.len()
        invariant
            b@ == Seq::new(t@.len(), |k: int| t@[k] as u8),
            vstd::utf8::is_ascii_chars(t@),
            i <= b@.len(),
            forall|k: int| 0 <= k < i ==> is_digit(#[trigger] t@[k]),
            v == clamped(decimal_value(t@.take(i as int))),
        decreases b@.len() - i,
    {
        let d = b[i];
        let ghost c = t@[i as int];
        proof {
            assert(d == c as u8);
            assert('\0' <= c <= '\u{7f}');
            vstd::utf8::char_u32_cast(c, c as u32);
        }
        if d < 48 || d > 57 {
            proof {
                assert(!is_digit(c));
            }
            return None;
        }
        let digit: u64 = (d - 48) as u64;
        proof {
            assert(is_digit(c));
            assert(digit == (c as u32) - ('0' as u32));
            let prefix = t@.take(i + 1);
            assert(prefix.drop_last() =~= t@.take(i as int));
            assert(prefix.last() == c);
            assert(decimal_value(prefix) == decimal_value(t@.take(i as int)) * 10 + digit);
        }
        if v > (u64::MAX - digit) / 10 {
            proof {
                let x = decimal_value(t@.take(i as int));
                assert(x >= v);
                assert(x * 10 + digit > u64::MAX) by (nonlinear_arith)
                    requires
                        x >= v,
                        v > (u64::MAX - digit) / 10,
                        digit <= 9,
                ;
            }
            v = u64::MAX;
        } else {
            proof {
                let x = decimal_value(t@.take(i as int));
                assert(x == v);
                assert(v * 10 + digit <= u64::MAX) by (nonlinear_arith)
                    requires
                        v <= (u64::MAX - digit) / 10,
                        digit <= 9,
                ;
            }
            v = v * 10 + digit;
        }
        i += 1;
    }
    proof {
        assert(t@.take(i as int) =~= t@);
    }
    Some(v)
}

/// Both checks in their order: the token first, then the limit. On success
/// returns the limit for the store; the first failing check decides the
/// error.
pub fn validate_request(supplied: Option<&str>, secret: &str, raw_limit: Option<&str>) -> (r:
    Result<Option<u64>, RequestError>)
    ensures
        r == (match authorization(opt_view(supplied), secret@) {
            AuthOutcome::Missing => Err(RequestError::MissingToken),
            AuthOutcome::Unauthorized => Err(RequestError::Unauthorized),
            AuthOutcome::Authorized => match normalized(opt_view(raw_limit)) {
                Err(_) => Err(RequestError::InvalidLimit),
                Ok(l) => Ok(l),
            },
        }),
{
    match check_authorization(supplied, secret) {
        AuthOutcome::Missing => Err(RequestError::MissingToken),
        AuthOutcome::Unauthorized => Err(RequestError::Unauthorized),
        AuthOutcome::Authorized => match normalize_limit(raw_limit) {
            Err(_) => Err(RequestError::InvalidLimit),
            Ok(l) => Ok(l),
        },
    }
}

/// A negative limit is always refused; a limit of zero is kept and lists
/// nothing; a limit at or above the number of items lists every item.
pub proof fn law_limit_bounds(digits: Seq<char>, items: Seq<MenuItem>)
    requires
        all_digits(digits),
        items.len() <= u64::MAX,
    ensures
        normalized(Some(seq!['-'] + digits)) == Err::<Option<u64>, InvalidLimit>(InvalidLimit),
        decimal_value(digits) == 0 ==> normalized(Some(digits)) == Ok::<
            Option<u64>,
            InvalidLimit,
        >(Some(0u64)) && items.take(capped(Some(0u64), items.len()) as int)
            == Seq::<MenuItem>::empty(),
        decimal_value(digits) >= items.len() ==> (normalized(Some(digits)) matches Ok(l)
            && items.take(capped(l, items.len()) as int) == items),
{
    let neg = seq!['-'] + digits;
    assert(!is_digit(neg[0]));
    assert(items.take(0) =~= Seq::<MenuItem>::empty());
    assert(items.take(items.len() as int) =~= items);
}

} // verus!
