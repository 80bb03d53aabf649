//! Building the card-lookup query.
//!
//! A card is resolved against the card database by a fuzzy name lookup:
//! the query URL carries the percent-encoded card name and, when the
//! decklist gave one, the percent-encoded set code.

use vstd::prelude::*;
use vstd::string::StrSliceExecFns;
use vstd::string::StringSliceAdditionalSpecFns;

verus! {

/// A byte kept as itself by percent-encoding: an ASCII alphanumeric or
/// one of `-`, `.`, `_`, `~`.
pub open spec fn is_unreserved(b: u8) -> bool {
    (48 <= b <= 57) || (65 <= b <= 90) || (97 <= b <= 122) || b == 45 || b == 46 || b == 95
        || b == 126
}

/// The upper-case hexadecimal digit for a value below sixteen.
pub open spec fn hex_digit(d: u8) -> u8 {
    if d < 10 {
        (48 + d) as u8
    } else {
        (55 + d) as u8
    }
}

/// What one byte encodes to: itself when unreserved, else a `%` escape
/// with two upper-case hexadecimal digits.
pub open spec fn encode_byte(b: u8) -> Seq<u8> {
    if is_unreserved(b) {
        seq![b]
    } else {
        seq![37u8, hex_digit(b / 16), hex_digit(b % 16)]
    }
}

/// The percent-encoding of a byte string.
pub open spec fn url_encoded(s: Seq<u8>) -> Seq<u8>
    decreases s.len(),
{
    if s.len() == 0 {
        Seq::empty()
    } else {
        url_encoded(s.drop_last()) + encode_byte(s.last())
    }
}

/// The bytes of the lookup endpoint with its fuzzy-name parameter.
pub open spec fn base_url_bytes() -> Seq<u8> {
    "https://api.scryfall.com/cards/named?fuzzy=".spec_bytes()
}

/// The bytes of the set-code parameter separator.
pub open spec fn set_param_bytes() -> Seq<u8> {
    "&set=".spec_bytes()
}

/// The full query URL for a card name and an optional set code.
pub open spec fn query_url_spec(name: Seq<u8>, set: Option<Seq<u8>>) -> Seq<u8> {
    base_url_bytes() + url_encoded(name) + (match set {
        Option::Some(s) => set_param_bytes() + url_encoded(s),
        Option::None => Seq::empty(),
    })
}

/// Appends `src` to `dst`.
fn extend_bytes(dst: &mut Vec<u8>, src: &Vec<u8>)
    ensures
        final(dst)@ == old(dst)@ + src@,
{
    let mut k: usize = 0;
    while k < src.len()
        invariant
            k <= src@.len(),
            dst@ == old(dst)@ + src@.subrange(0, k as int),
        decreases src@.len() - k,
    {
        dst.push(src[k]);
        assert(old(dst)@ + src@.subrange(0, (k + 1) as int) =~= (old(dst)@ + src@.subrange(
            0,
            k as int,
        )).push(src@[k as int]));
        k = k + 1;
    }
    assert(src@.subrange(0, src@.len() as int) =~= src@);
}

/// Percent-encodes a byte string.
pub fn url_encode(s: &Vec<u8>) -> (r: Vec<u8>)
    ensures
        r@ == url_encoded(s@),
{
    let mut out: Vec<u8> = Vec::new();
    let mut i: usize = 0;
    assert(s@.subrange(0, 0) =~= Seq::<u8>::empty());
    while i < s.len()
        invariant
            i <= s@.len(),
            out@ == url_encoded(s@.subrange(0, i as int)),
        decreases s@.len() - i,
    {
        let b = s[i];
        proof {
            assert(s@.subrange(0, (i + 1) as int).drop_last() =~= s@.subrange(0, i as int));
            assert(s@.subrange(0, (i + 1) as int).last() == s@[i as int]);
        }
        if (48 <= b && b <= 57) || (65 <= b && b <= 90) || (97 <= b && b <= 122) || b == 45
            || b == 46 || b == 95 || b == 126 {
            out.push(b);
            assert(out@ =~= url_encoded(s@.subrange(0, i as int)) + encode_byte(b));
        } else {
            let hi = b / 16;
            let lo = b % 16;
            out.push(37);
            out.push(if hi < 10 { 48 + hi } else { 55 + hi });
            out.push(if lo < 10 { 48 + lo } else { 55 + lo });
            assert(out@ =~= url_encoded(s@.subrange(0, i as int)) + encode_byte(b));
        }
        i = i + 1;
    }
    assert(s@.subrange(0, s@.len() as int) =~= s@);
    out
}

/// Builds the card-lookup query URL: the fuzzy-name endpoint with the
/// percent-encoded name and, when present, the percent-encoded set code.
pub fn build_query_url(name: &Vec<u8>, set: &Option<Vec<u8>>) -> (r: Vec<u8>)
    ensures
        r@ == query_url_spec(
            name@,
            match set {
                Option::Some(s) => Option::Some(s@),
                Option::None => Option::None,
            },
        ),
{
    let base = "https://api.scryfall.com/cards/named?fuzzy=";
    let mut url: Vec<u8> = base.as_bytes_vec();
    let encoded_name = url_encode(name);
    extend_bytes(&mut url, &encoded_name);
    match set {
        Option::Some(s) => {
            let sep = "&set=";
            let sep_bytes = sep.as_bytes_vec();
            extend_bytes(&mut url, &sep_bytes);
            let encoded_set = url_encode(s);
            extend_bytes(&mut url, &encoded_set);
            assert(url@ =~= query_url_spec(name@, Option::Some(s@)));
        },
        Option::None => {
            assert(url@ =~= query_url_spec(name@, Option::<Seq<u8>>::None));
        },
    }
    url
}

} // verus!
