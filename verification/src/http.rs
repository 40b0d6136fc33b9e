//! The transport-probe computation: deciding range-request capability
//! from the response status and extracting the total resource size from
//! the response headers. The network fetch itself is an external
//! collaborator; this module only computes on what came back.

use vstd::prelude::*;
use vstd::string::StringSliceAdditionalSpecFns;

use crate::utils::GameError;

verus! {

/// True when every byte is an ASCII decimal digit.
pub open spec fn all_digits(s: Seq<u8>) -> bool {
    forall|i: int| 0 <= i < s.len() ==> 0x30 <= #[trigger] s[i] <= 0x39
}

/// The value of the decimal digits `s`, most significant first.
pub open spec fn dec_value(s: Seq<u8>) -> nat
    recommends
        all_digits(s),
    decreases s.len(),
{
    if s.len() == 0 {
        0
    } else {
        dec_value(s.drop_last()) * 10 + (s.last() - 0x30) as nat
    }
}

/// An unsigned decimal number: defined exactly for a nonempty all-digit
/// byte string whose value fits in 64 bits.
pub open spec fn spec_parse_u64(s: Seq<u8>) -> Option<u64> {
    if s.len() >= 1 && all_digits(s) && dec_value(s) <= u64::MAX {
        Some(dec_value(s) as u64)
    } else {
        None
    }
}

/// A longer digit prefix never has a smaller value.
proof fn lemma_dec_value_mono(s: Seq<u8>, i: int)
    requires
        0 <= i <= s.len(),
    ensures
        dec_value(s.take(i)) <= dec_value(s),
    decreases s.len() - i,
{
    if i < s.len() {
        assert(s.take(i + 1).drop_last() =~= s.take(i));
        assert(dec_value(s.take(i)) <= dec_value(s.take(i + 1)));
        lemma_dec_value_mono(s, i + 1);
    } else {
        assert(s.take(i) =~= s);
    }
}

/// Parses an unsigned decimal integer from bytes; `None` on an empty
/// string, a non-digit byte, or 64-bit overflow.
fn parse_u64_dec(s: &[u8]) -> (r: Option<u64>)
    ensures
        r == spec_parse_u64(s@),
{
    let n = s.len();
    if n == 0 {
        return None;
    }
    let mut acc: u64 = 0;
    let mut i: usize = 0;
    while i < n
        invariant
            n == s@.len(),
            i <= n,
            all_digits(s@.take(i as int)),
            acc as nat == dec_value(s@.take(i as int)),
        decreases n - i,
    {
        let b = s[i];
        if b < 0x30 || b > 0x39 {
            return None;
        }
        let d = (b - 0x30) as u64;
        let limit = (u64::MAX - d) / 10;
        proof {
            assert(s@.take(i + 1).drop_last() =~= s@.take(i as int));
            assert(s@.take(i + 1).last() == s@[i as int]);
        }
        if acc > limit {
            proof {
                assert(dec_value(s@.take(i + 1)) == acc as nat * 10 + d as nat);
                assert(acc as nat * 10 + d > u64::MAX) by (nonlinear_arith)
                    requires
                        acc > (u64::MAX - d) / 10,
                        d <= 9,
                        acc <= u64::MAX,
                {}
                lemma_dec_value_mono(s@, i + 1);
            }
            return None;
        }
        proof {
            assert(acc as nat * 10 + d <= u64::MAX) by (nonlinear_arith)
                requires
                    acc <= (u64::MAX - d) / 10,
                    d <= 9,
                {}
        }
        acc = acc * 10 + d;
        i = i + 1;
    }
    proof {
        assert(s@.take(n as int) =~= s@);
    }
    Some(acc)
}

/// First occurrence of the byte `b` at or after position `from`.
pub open spec fn find_byte(s: Seq<u8>, from: int, b: u8) -> Option<int>
    decreases s.len() - from when 0 <= from <= s.len()
{
    if from >= s.len() {
        None
    } else if s[from] == b {
        Some(from)
    } else {
        find_byte(s, from + 1, b)
    }
}

fn find_byte_exec(s: &[u8], from: usize, b: u8) -> (r: Option<usize>)
    requires
        from <= s@.len(),
    ensures
        match r {
            Some(p) => find_byte(s@, from as int, b) == Some(p as int) && from <= p < s@.len(),
            None => find_byte(s@, from as int, b) is None,
        },
{
    let n = s.len();
    let mut i: usize = from;
    while i < n
        invariant
            n == s@.len(),
            from <= i <= n,
            find_byte(s@, from as int, b) == find_byte(s@, i as int, b),
        decreases n - i,
    {
        if s[i] == b {
            return Some(i);
        }
        i = i + 1;
    }
    None
}

/// The total size carried by a range-total header value: the decimal
/// number between the first `/` and the next `/` or the end of the
/// value (the piece after the first separator).
pub open spec fn spec_range_total(s: Seq<u8>) -> Option<u64> {
    match find_byte(s, 0, 0x2f) {
        Some(f) => {
            let end = match find_byte(s, f + 1, 0x2f) {
                Some(g) => g,
                None => s.len() as int,
            };
            spec_parse_u64(s.subrange(f + 1, end))
        },
        None => None,
    }
}

fn parse_range_total(s: &[u8]) -> (r: Option<u64>)
    ensures
        r == spec_range_total(s@),
{
    let n = s.len();
    let f = match find_byte_exec(s, 0, 0x2f) {
        Some(f) => f,
        None => { return None },
    };
    let end = match find_byte_exec(s, f + 1, 0x2f) {
        Some(g) => g,
        None => s.len(),
    };
    parse_u64_dec(&s[f + 1..end])
}

/// The outcome of the capability probe (a request for byte range 0-0):
/// a 206 status means ranges are supported and the total size stands in
/// the range-total header; any other status means no range support and
/// the total size stands in the content-length header. A missing or
/// unparseable header is an environment-level failure.
pub fn probe_outcome(status: u16, content_range: Option<&str>, content_length: Option<&str>) -> (r:
    Result<(u64, bool), GameError>)
    ensures
        match r {
            Ok(out) => {
                &&& out.1 == (status == 206)
                &&& if status == 206 {
                    content_range matches Some(h) && spec_range_total(h.spec_bytes()) == Some(out.0)
                } else {
                    content_length matches Some(h) && spec_parse_u64(h.spec_bytes()) == Some(out.0)
                }
            },
            Err(e) => {
                &&& e is Other
                &&& if status == 206 {
                    content_range matches Option::<&str>::None || (content_range matches Some(h)
                        && spec_range_total(h.spec_bytes()) is None)
                } else {
                    content_length matches Option::<&str>::None || (content_length matches Some(h)
                        && spec_parse_u64(h.spec_bytes()) is None)
                }
            },
        },
{
    if status == 206 {
        match content_range {
            Some(h) => match parse_range_total(h.as_bytes()) {
                Some(size) => Ok((size, true)),
                None => Err(GameError::Other(String::from_str("Bad Content-Range"))),
            },
            None => Err(GameError::Other(String::from_str("Bad Content-Range"))),
        }
    } else {
        match content_length {
            Some(h) => match parse_u64_dec(h.as_bytes()) {
                Some(size) => Ok((size, false)),
                None => Err(GameError::Other(String::from_str("Bad Content-Length"))),
            },
            None => Err(GameError::Other(String::from_str("Bad Content-Length"))),
        }
    }
}

} // verus!
