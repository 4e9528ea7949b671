//! Identifiers derived from run parameters.
use vstd::prelude::*;

verus! {

/// The 32 lowercase hexadecimal digits of the MD5 digest of the UTF-8
/// encoding of `s`.
pub uninterp spec fn md5_hex(s: Seq<char>) -> Seq<char>;

pub open spec fn is_lower_hex_digit(c: char) -> bool {
    ('0' <= c && c <= '9') || ('a' <= c && c <= 'f')
}

/// Relies on `md5::compute`, formatted with its `LowerHex` impl: two
/// lowercase hexadecimal digits for each of the 16 digest bytes.
#[verifier::external_body]
pub fn hash_md5(s: &str) -> (r: String)
    ensures
        r@ == md5_hex(s@),
        r@.len() == 32,
        forall|i: int| 0 <= i < r@.len() ==> is_lower_hex_digit(#[trigger] r@[i]),
{
    format!("{:x}", md5::compute(s.as_bytes()))
}

/// The text that identifies a run: the four parts joined by `:`.
pub open spec fn applicant_key(
    interval: Seq<char>,
    start: Seq<char>,
    end: Seq<char>,
    model_id: Seq<char>,
) -> Seq<char> {
    interval + seq![':'] + start + seq![':'] + end + seq![':'] + model_id
}

/// Identifier of a run: the MD5 hex digest of `interval:start:end:model_id`.
pub fn get_applicant_id(interval: String, start: String, end: String, model_id: String) -> (r:
    String)
    ensures
        r@ == md5_hex(applicant_key(interval@, start@, end@, model_id@)),
        r@.len() == 32,
        forall|i: int| 0 <= i < r@.len() ==> is_lower_hex_digit(#[trigger] r@[i]),
{
    proof {
        reveal_strlit(":");
    }
    let mut key = interval;
    key.append(":");
    key.append(start.as_str());
    key.append(":");
    key.append(end.as_str());
    key.append(":");
    key.append(model_id.as_str());
    assert(key@ =~= applicant_key(interval@, start@, end@, model_id@));
    hash_md5(key.as_str())
}

/// Cache key of a candle interval given in minutes.
pub open spec fn interval_key(period: usize) -> Seq<char> {
    if period == 5 {
        seq!['5', 'm']
    } else if period == 15 {
        seq!['1', '5', 'm']
    } else {
        seq!['1', 'd']
    }
}

/// The cache key for a candle period: `5m`, `15m`, or `1d` for any other.
pub fn get_interval_key(period: usize) -> (r: &'static str)
    ensures
        r@ == interval_key(period),
{
    proof {
        reveal_strlit("5m");
        reveal_strlit("15m");
        reveal_strlit("1d");
    }
    match period {
        5 => "5m",
        15 => "15m",
        _ => "1d",
    }
}

} // verus!
