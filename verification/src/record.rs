//! The records of the journal and their content-addressed ids.
//!
//! Every journal line holds one record. A `cut` records a complaint; a
//! `resolved` records that a complaint was fixed. The journal is append-only:
//! a resolution is a new record, never an edit of the cut.

use vstd::prelude::*;
use sha2::Digest;
use crate::text::{string_of};

verus! {

/// A single papercut complaint.
pub struct Cut {
    pub id: String,
    pub ts: String,
    pub model: Option<String>,
    pub user: Option<String>,
    /// The agent harness that filed it, if known.
    pub harness: Option<String>,
    /// Area tags, in the order given.
    pub tags: Vec<String>,
    /// How bad it is, as filed: `minor`, `major` or `blocker`.
    pub severity: Option<String>,
    pub text: String,
}

/// A resolution event, appended when a papercut is marked fixed.
pub struct Resolved {
    pub id: String,
    pub ts: String,
    pub by: Option<String>,
    /// How it was fixed, if said.
    pub note: Option<String>,
}

/// One journal line.
pub enum Record {
    Cut(Cut),
    Resolved(Resolved),
}

/// The id a record refers to.
pub open spec fn record_id(r: Record) -> Seq<char> {
    match r {
        Record::Cut(c) => c.id@,
        Record::Resolved(r) => r.id@,
    }
}

impl Record {
    /// The id referenced by this record.
    pub fn id(&self) -> (res: &str)
        ensures
            res@ == record_id(*self),
    {
        match self {
            Record::Cut(c) => c.id.as_str(),
            Record::Resolved(r) => r.id.as_str(),
        }
    }
}

/// The cuts that a sequence of references points to.
pub open spec fn cut_values(s: Seq<&Cut>) -> Seq<Cut> {
    s.map_values(|c: &Cut| *c)
}

/// The SHA-256 digest of a byte sequence.
pub uninterp spec fn sha256(data: Seq<u8>) -> Seq<u8>;

/// Calls `sha2::Sha256::digest` on the bytes. The contract claims that the
/// result is a function of the bytes alone (named `sha256`) and is 32 bytes
/// long, as the digest's return type fixes; nothing of the hash function
/// itself is stated.
#[verifier::external_body]
fn sha256_digest(data: &[u8]) -> (res: Vec<u8>)
    ensures
        res@ == sha256(data@),
        res@.len() == 32,
{
    sha2::Sha256::digest(data).to_vec()
}

/// The lower-case hexadecimal digit of `d` in `0..16`.
pub open spec fn hex_digit(d: int) -> char {
    if d < 10 {
        crate::text::digit_char(d)
    } else if d == 10 {
        'a'
    } else if d == 11 {
        'b'
    } else if d == 12 {
        'c'
    } else if d == 13 {
        'd'
    } else if d == 14 {
        'e'
    } else {
        'f'
    }
}

/// Bytes as lower-case hexadecimal, two digits per byte.
pub open spec fn hex(bytes: Seq<u8>) -> Seq<char>
    decreases bytes.len(),
{
    if bytes.len() == 0 {
        seq![]
    } else {
        hex(bytes.drop_last()) + seq![
            hex_digit((bytes.last() / 16) as int),
            hex_digit((bytes.last() % 16) as int),
        ]
    }
}

/// The id of a complaint with the given text: `pc_` and the first ten
/// hexadecimal digits of the SHA-256 digest of its UTF-8 bytes.
pub open spec fn cut_id(text: Seq<char>) -> Seq<char> {
    seq!['p', 'c', '_'] + hex(sha256(vstd::utf8::encode_utf8(text))).take(10)
}

fn hex_char(d: u8) -> (c: char)
    requires
        d < 16,
    ensures
        c == hex_digit(d as int),
{
    if d == 0 {
        '0'
    } else if d == 1 {
        '1'
    } else if d == 2 {
        '2'
    } else if d == 3 {
        '3'
    } else if d == 4 {
        '4'
    } else if d == 5 {
        '5'
    } else if d == 6 {
        '6'
    } else if d == 7 {
        '7'
    } else if d == 8 {
        '8'
    } else if d == 9 {
        '9'
    } else if d == 10 {
        'a'
    } else if d == 11 {
        'b'
    } else if d == 12 {
        'c'
    } else if d == 13 {
        'd'
    } else if d == 14 {
        'e'
    } else {
        'f'
    }
}

/// Bytes as lower-case hexadecimal.
pub fn hex_chars(bytes: &Vec<u8>) -> (res: Vec<char>)
    ensures
        res@ == hex(bytes@),
        res@.len() == 2 * bytes@.len(),
{
    let mut res: Vec<char> = Vec::new();
    for i in 0..bytes.len()
        invariant
            res@ == hex(bytes@.take(i as int)),
            res@.len() == 2 * i,
    {
        let b = bytes[i];
        res.push(hex_char(b / 16));
        res.push(hex_char(b % 16));
        assert(bytes@.take(i + 1).drop_last() == bytes@.take(i as int));
    }
    assert(bytes@.take(bytes.len() as int) == bytes@);
    res
}

/// The id for a digest: `pc_` and the first ten hexadecimal digits of the
/// digest.
pub fn id_from_digest(digest: &Vec<u8>) -> (res: String)
    requires
        digest@.len() >= 5,
    ensures
        res@ == seq!['p', 'c', '_'] + hex(digest@).take(10),
        res@.len() == 13,
{
    let hexed = hex_chars(digest);
    let mut id: Vec<char> = vec!['p', 'c', '_'];
    for i in 0..10
        invariant
            hexed@.len() >= 10,
            id@ == seq!['p', 'c', '_'] + hexed@.take(i as int),
    {
        id.push(hexed[i]);
        assert(hexed@.take(i + 1) == hexed@.take(i as int).push(hexed@[i as int]));
    }
    string_of(&id)
}

/// Deterministic, content-addressed id: `pc_` and the first ten hexadecimal
/// digits of the SHA-256 digest of the complaint text. The same complaint
/// filed twice gets the same id.
pub fn make_cut_id(text: &str) -> (res: String)
    ensures
        res@ == cut_id(text@),
        res@.len() == 13,
{
    let digest = sha256_digest(text.as_bytes());
    id_from_digest(&digest)
}

} // verus!
