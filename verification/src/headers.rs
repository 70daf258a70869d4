//! Request-header capture for diagnostics.
//!
//! At admission every request header is kept as a name/value pair. Header
//! values arrive from the transport as raw bytes and are decoded
//! permissively: byte sequences that are not valid UTF-8 are replaced, never
//! rejected. Lookups are by exact name, the later of two equally-named pairs
//! winning, and fall back to the literal placeholder `"none"`.

use vstd::prelude::*;

verus! {

/// What permissive UTF-8 decoding returns for a given byte sequence.
pub uninterp spec fn lossy_utf8(bytes: Seq<u8>) -> Seq<char>;

/// Relies on `String::from_utf8_lossy`: its result is a pure function of the
/// byte sequence, decoding UTF-8 and replacing invalid sequences.
#[verifier::external_body]
fn decode_lossy(bytes: &Vec<u8>) -> (r: String)
    ensures
        r@ == lossy_utf8(bytes@),
{
    String::from_utf8_lossy(bytes).into_owned()
}

/// `meta` holds one pair per raw header, names kept verbatim and values
/// decoded permissively.
pub open spec fn decoded_headers(meta: Seq<(String, String)>, raw: Seq<(String, Vec<u8>)>) -> bool {
    &&& meta.len() == raw.len()
    &&& forall|i: int|
        0 <= i < raw.len() ==> {
            &&& (#[trigger] meta[i]).0@ == raw[i].0@
            &&& meta[i].1@ == lossy_utf8(raw[i].1@)
        }
}

/// Decodes raw headers into the metadata pairs kept in a connection record:
/// names verbatim, values decoded permissively from their bytes.
pub fn decode_headers(raw: &Vec<(String, Vec<u8>)>) -> (meta: Vec<(String, String)>)
    ensures
        decoded_headers(meta@, raw@),
{
    let mut meta: Vec<(String, String)> = Vec::new();
    let n = raw.len();
    let mut k: usize = 0;
    while k < n
        invariant
            n == raw.len(),
            k <= n,
            meta@.len() == k,
            forall|i: int|
                0 <= i < k ==> {
                    &&& (#[trigger] meta@[i]).0@ == raw@[i].0@
                    &&& meta@[i].1@ == lossy_utf8(raw@[i].1@)
                },
        decreases n - k,
    {
        let name = raw[k].0.clone();
        let value = decode_lossy(&raw[k].1);
        meta.push((name, value));
        k += 1;
    }
    meta
}

/// The value stored under `name`, the later of two equally-named pairs
/// winning (a pair stored again overwrites the earlier one for lookups).
pub open spec fn header_lookup(meta: Seq<(String, String)>, name: Seq<char>) -> Option<Seq<char>>
    decreases meta.len(),
{
    if meta.len() == 0 {
        None
    } else if meta.last().0@ == name {
        Some(meta.last().1@)
    } else {
        header_lookup(meta.drop_last(), name)
    }
}

/// The value stored under `name`, or the placeholder `"none"` when there is
/// none.
pub open spec fn header_or_none_spec(meta: Seq<(String, String)>, name: Seq<char>) -> Seq<char> {
    match header_lookup(meta, name) {
        Some(v) => v,
        None => "none"@,
    }
}

/// Looks `name` up among the captured headers, returning its decoded value,
/// or the literal placeholder `"none"` when the header was absent.
pub fn header_or_none(meta: &Vec<(String, String)>, name: &str) -> (r: String)
    ensures
        r@ == header_or_none_spec(meta@, name@),
{
    let key = name.to_owned();
    let mut k: usize = meta.len();
    proof {
        assert(meta@.take(meta@.len() as int) =~= meta@);
    }
    while k > 0
        invariant
            k <= meta@.len(),
            key@ == name@,
            header_lookup(meta@, name@) == header_lookup(meta@.take(k as int), name@),
        decreases k,
    {
        k -= 1;
        proof {
            assert(meta@.take(k as int + 1).drop_last() =~= meta@.take(k as int));
            assert(meta@.take(k as int + 1).last() == meta@[k as int]);
        }
        if meta[k].0 == key {
            return meta[k].1.clone();
        }
    }
    proof {
        assert(meta@.take(0).len() == 0);
    }
    "none".to_owned()
}

} // verus!
