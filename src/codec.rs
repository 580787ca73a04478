//! The shared binary format of host calls and entry points (bincode), reached
//! through trusted wrappers. Each decoded or encoded value is named: the
//! result depends on the input alone.
use vstd::prelude::*;
use vstd::utf8::{decode_utf8, encode_utf8, valid_utf8};

verus! {

/// The string that bincode reads from the bytes, or `None` where it fails.
pub uninterp spec fn text_of_bytes(b: Seq<u8>) -> Option<Seq<char>>;

/// The `(table, key)` pair that bincode reads from the bytes.
pub uninterp spec fn key_pair_of_bytes(b: Seq<u8>) -> Option<(Seq<char>, Seq<char>)>;

/// The `(table, key, value)` triple that bincode reads from the bytes.
pub uninterp spec fn set_args_of_bytes(b: Seq<u8>) -> Option<(Seq<char>, Seq<char>, Seq<u8>)>;

/// The `(table, [(key, value)])` pair that bincode reads from the bytes.
pub uninterp spec fn set_many_args_of_bytes(b: Seq<u8>) -> Option<
    (Seq<char>, Seq<(Seq<char>, Seq<u8>)>),
>;

/// The bytes that bincode gives for an optional byte vector.
pub uninterp spec fn lookup_bytes(v: Option<Seq<u8>>) -> Seq<u8>;

/// The bytes that bincode gives for a list of `(key, value)` pairs.
pub uninterp spec fn entries_bytes(e: Seq<(Seq<char>, Seq<u8>)>) -> Seq<u8>;

/// The string that lossy UTF-8 decoding reads from the bytes.
pub uninterp spec fn lossy_text(b: Seq<u8>) -> Seq<char>;

/// A string in bincode's form: its UTF-8 length as a `u64`, then its UTF-8
/// bytes.
pub open spec fn text_wire(s: Seq<char>) -> Seq<u8> {
    u64_le_bytes(encode_utf8(s).len() as u64) + encode_utf8(s)
}

/// Eight bytes, least significant first: bincode's fixed-width integer form.
pub open spec fn u64_le_bytes(n: u64) -> Seq<u8> {
    Seq::new(8, |i: int| ((n as int / pow256(i)) % 256) as u8)
}

pub open spec fn pow256(i: int) -> int
    decreases i,
{
    if i <= 0 {
        1
    } else {
        256 * pow256(i - 1)
    }
}

pub open spec fn opt_bytes_view(v: Option<Vec<u8>>) -> Option<Seq<u8>> {
    match v {
        Some(b) => Some(b@),
        None => None,
    }
}

pub open spec fn pairs_view(v: Seq<(String, Vec<u8>)>) -> Seq<(Seq<char>, Seq<u8>)> {
    v.map_values(|p: (String, Vec<u8>)| (p.0@, p.1@))
}

/// Relies on bincode::serialize for a `&str`: the length as a fixed-width
/// little-endian `u64`, then the bytes; with no size limit it cannot fail.
#[verifier::external_body]
pub(crate) fn encode_text(s: &str) -> (r: Vec<u8>)
    ensures
        r@ == text_wire(s@),
{
    bincode::serialize(s).unwrap_or_default()
}

/// Relies on bincode::deserialize into a `String`.
#[verifier::external_body]
pub(crate) fn decode_text(b: &[u8]) -> (r: Option<String>)
    ensures
        match r {
            Some(s) => text_of_bytes(b@) == Some(s@),
            None => text_of_bytes(b@) is None,
        },
{
    bincode::deserialize::<String>(b).ok()
}

/// Relies on bincode::deserialize into a `(String, String)`.
#[verifier::external_body]
pub(crate) fn decode_key_pair(b: &[u8]) -> (r: Option<(String, String)>)
    ensures
        match r {
            Some(p) => key_pair_of_bytes(b@) == Some((p.0@, p.1@)),
            None => key_pair_of_bytes(b@) is None,
        },
{
    bincode::deserialize::<(String, String)>(b).ok()
}

/// Relies on bincode::deserialize into a `(String, String, Vec<u8>)`.
#[verifier::external_body]
pub(crate) fn decode_set_args(b: &[u8]) -> (r: Option<(String, String, Vec<u8>)>)
    ensures
        match r {
            Some(p) => set_args_of_bytes(b@) == Some((p.0@, p.1@, p.2@)),
            None => set_args_of_bytes(b@) is None,
        },
{
    bincode::deserialize::<(String, String, Vec<u8>)>(b).ok()
}

/// Relies on bincode::deserialize into a `(String, Vec<(String, Vec<u8>)>)`.
#[verifier::external_body]
pub(crate) fn decode_set_many_args(b: &[u8]) -> (r: Option<(String, Vec<(String, Vec<u8>)>)>)
    ensures
        match r {
            Some(p) => set_many_args_of_bytes(b@) == Some((p.0@, pairs_view(p.1@))),
            None => set_many_args_of_bytes(b@) is None,
        },
{
    bincode::deserialize::<(String, Vec<(String, Vec<u8>)>)>(b).ok()
}

/// Relies on bincode::serialize for an `Option<Vec<u8>>`; with no size
/// limit it cannot fail.
#[verifier::external_body]
pub(crate) fn encode_lookup(v: &Option<Vec<u8>>) -> (r: Vec<u8>)
    ensures
        r@ == lookup_bytes(opt_bytes_view(*v)),
{
    bincode::serialize(v).unwrap_or_default()
}

/// Relies on bincode::serialize for a `Vec<(String, Vec<u8>)>`; the length
/// is known and there is no size limit, so it cannot fail.
#[verifier::external_body]
pub(crate) fn encode_entries(e: &Vec<(String, Vec<u8>)>) -> (r: Vec<u8>)
    ensures
        r@ == entries_bytes(pairs_view(e@)),
{
    bincode::serialize(e).unwrap_or_default()
}

/// Relies on bincode::serialize for a `u64`: fixed-width, little endian.
#[verifier::external_body]
pub(crate) fn encode_count(n: u64) -> (r: Vec<u8>)
    ensures
        r@ == u64_le_bytes(n),
{
    bincode::serialize(&n).unwrap_or_default()
}

/// Relies on String::from_utf8_lossy: invalid sequences become U+FFFD, and
/// valid UTF-8 is decoded unchanged.
#[verifier::external_body]
pub(crate) fn utf8_lossy(b: &[u8]) -> (r: String)
    ensures
        r@ == lossy_text(b@),
        valid_utf8(b@) ==> r@ == decode_utf8(b@),
{
    String::from_utf8_lossy(b).into_owned()
}

} // verus!
