//! Object ids.

use std::str::FromStr;

use git_internal::hash::{get_hash_kind, ObjectHash};
use git_internal::internal::object::types::ObjectType;
use vstd::prelude::*;

use crate::text;

verus! {

/// Whether `c` is a hexadecimal digit of either case.
pub open spec fn is_hex_digit(c: char) -> bool {
    '0' <= c <= '9' || 'a' <= c <= 'f' || 'A' <= c <= 'F'
}

/// Whether `s` is written as an object id: as many hexadecimal digits as a
/// SHA-1 or a 256-bit id has.
pub open spec fn is_oid_text(s: Seq<char>) -> bool {
    (s.len() == 40 || s.len() == 64) && forall|i: int|
        0 <= i < s.len() ==> is_hex_digit(#[trigger] s[i])
}

/// The id that a text writes: its digits in small letters.
pub open spec fn oid_of(s: Seq<char>) -> Option<Seq<char>> {
    if is_oid_text(s) {
        Some(text::ascii_lower(s))
    } else {
        None
    }
}

/// `ObjectHash::from_str`, then its `Display`: forty or sixty-four
/// hexadecimal digits are taken and come back in small letters, all else is
/// refused.
#[verifier::external_body]
fn parse_object_hash(s: &str) -> (r: Option<String>)
    ensures
        text::opt_text(r) == oid_of(s@),
{
    match ObjectHash::from_str(s) {
        Ok(h) => Some(h.to_string()),
        Err(_) => None,
    }
}

/// The hash by which objects are named.
#[derive(Debug, Clone, Copy, PartialEq, Eq, Structural)]
pub enum HashKind {
    Sha1,
    Sha256,
    Blake3,
}

impl HashKind {
    /// The number of hexadecimal digits of an id.
    pub open spec fn digits(self) -> nat {
        match self {
            HashKind::Sha1 => 40,
            HashKind::Sha256 => 64,
            HashKind::Blake3 => 64,
        }
    }
}

/// The id of a blob with the content `data`.
pub uninterp spec fn blob_hash(kind: HashKind, data: Seq<u8>) -> Seq<char>;

/// `get_hash_kind`: the setting of the thread. Nothing is stated of it.
#[verifier::external_body]
fn thread_hash_kind() -> (r: HashKind) {
    match get_hash_kind() {
        git_internal::hash::HashKind::Sha1 => HashKind::Sha1,
        git_internal::hash::HashKind::Sha256 => HashKind::Sha256,
        git_internal::hash::HashKind::Blake3 => HashKind::Blake3,
    }
}

/// `ObjectHash::from_type_and_data_for_kind` for a blob, then its `Display`: an
/// id of the hash in small letters, which is a function of the hash and the
/// content alone and goes by the name [`blob_hash`]. A blob is never refused.
#[verifier::external_body]
fn hash_blob(kind: HashKind, data: &[u8]) -> (r: Option<String>)
    ensures
        text::opt_text(r) == Some(blob_hash(kind, data@)),
        r->0@.len() == kind.digits(),
        is_oid_text(r->0@),
        text::ascii_lower(r->0@) == r->0@,
{
    let outside = match kind {
        HashKind::Sha1 => git_internal::hash::HashKind::Sha1,
        HashKind::Sha256 => git_internal::hash::HashKind::Sha256,
        HashKind::Blake3 => git_internal::hash::HashKind::Blake3,
    };
    match ObjectHash::from_type_and_data_for_kind(outside, ObjectType::Blob, data) {
        Ok(h) => Some(h.to_string()),
        Err(_) => None,
    }
}

/// An object id, kept as its digits in small letters.
#[derive(Debug, PartialEq, Eq)]
pub struct Oid {
    pub hex: String,
}

impl View for Oid {
    type V = Seq<char>;

    open spec fn view(&self) -> Seq<char> {
        self.hex@
    }
}

impl Clone for Oid {
    fn clone(&self) -> (r: Self)
        ensures
            r == *self,
    {
        Oid { hex: self.hex.clone() }
    }
}

impl Oid {
    /// Whether the digits are those of an id.
    pub open spec fn wf(self) -> bool {
        is_oid_text(self@) && text::ascii_lower(self@) == self@
    }

    /// Reads an id.
    pub fn parse(s: &str) -> (r: Option<Oid>)
        ensures
            (match r {
                Some(id) => oid_of(s@) == Some(id@) && id.wf(),
                None => oid_of(s@) is None,
            }),
    {
        match parse_object_hash(s) {
            Some(hex) => {
                let id = Oid { hex };
                proof {
                    lemma_oid_wf(s@);
                }
                Some(id)
            },
            None => None,
        }
    }

    /// The id of a blob with the given content, by a hash.
    pub fn of_blob_by(kind: HashKind, data: &[u8]) -> (r: Oid)
        ensures
            r.wf(),
            r@ == blob_hash(kind, data@),
            r@.len() == kind.digits(),
    {
        Oid { hex: hash_blob(kind, data).unwrap() }
    }

    /// The id of a blob with the given content, by the hash that the thread is
    /// set to.
    pub fn of_blob(data: &[u8]) -> (r: Oid)
        ensures
            r.wf(),
            exists|kind: HashKind| r@ == #[trigger] blob_hash(kind, data@),
    {
        Self::of_blob_by(thread_hash_kind(), data)
    }

    pub fn as_str(&self) -> (r: &str)
        ensures
            r@ == self@,
    {
        self.hex.as_str()
    }
}

proof fn lemma_oid_wf(s: Seq<char>)
    requires
        is_oid_text(s),
    ensures
        is_oid_text(text::ascii_lower(s)),
        text::ascii_lower(text::ascii_lower(s)) == text::ascii_lower(s),
{
    let l = text::ascii_lower(s);
    assert forall|i: int| 0 <= i < l.len() implies is_hex_digit(#[trigger] l[i]) && text::lower_char(
        l[i],
    ) == l[i] by {
        assert(is_hex_digit(s[i]));
        assert(l[i] == text::lower_char(s[i]));
    }
    assert(text::ascii_lower(l) =~= l);
}

/// Reading back an id gives the id.
pub proof fn law_oid_round_trip(id: Oid)
    requires
        id.wf(),
    ensures
        oid_of(id@) == Some(id@),
{
}

} // verus!
