//! Job identity: opaque unique ids in UUID text form.
//!
//! A job id is born at ingestion as a random version-4 UUID and travels as
//! its canonical text: lowercase hyphenated, 36 characters. Client-supplied
//! id text is validated and canonicalized before any lookup, so that two
//! spellings of one UUID address the same job, and unparsable text is told
//! apart as bad input.

use vstd::prelude::*;
use crate::store::Error;

verus! {

/// Whether `uuid::Uuid::parse_str` accepts this text. A function of the
/// text alone.
pub uninterp spec fn uuid_parses(s: Seq<char>) -> bool;

/// The canonical text of the UUID this text spells: what
/// `uuid::Uuid::to_string` returns on the parsed value. A function of the
/// text alone; meaningful only where `uuid_parses` holds.
pub uninterp spec fn uuid_canon(s: Seq<char>) -> Seq<char>;

/// Relies on `uuid::Uuid::new_v4` and `uuid::Uuid::to_string`: a fresh
/// random UUID in canonical text form. Canonical text is 36 characters,
/// parses back, and canonicalizes to itself.
#[verifier::external_body]
fn uuid_new_v4_string() -> (r: String)
    ensures
        r@.len() == 36,
        uuid_parses(r@),
        uuid_canon(r@) == r@,
{
    uuid::Uuid::new_v4().to_string()
}

/// Relies on `uuid::Uuid::parse_str` and `uuid::Uuid::to_string`: accepts
/// the text exactly when it spells a UUID, handing back the canonical text,
/// which is 36 characters, parses back, and canonicalizes to itself.
#[verifier::external_body]
fn uuid_canonicalize(s: &str) -> (r: Option<String>)
    ensures
        match r {
            Some(c) => {
                &&& uuid_parses(s@)
                &&& c@ == uuid_canon(s@)
                &&& c@.len() == 36
                &&& uuid_parses(c@)
                &&& uuid_canon(c@) == c@
            },
            None => !uuid_parses(s@),
        },
{
    uuid::Uuid::parse_str(s).ok().map(|u| u.to_string())
}

/// Is this id text canonical: it spells a UUID and is its own canonical
/// form?
pub open spec fn canonical_id(s: Seq<char>) -> bool {
    uuid_parses(s) && uuid_canon(s) == s
}

/// A fresh job id: a random UUID in canonical text form.
pub fn fresh_job_id() -> (r: String)
    ensures
        r@.len() == 36,
        canonical_id(r@),
{
    uuid_new_v4_string()
}

/// Validates client-supplied job-id text: the canonical form of the UUID it
/// spells, or nothing when it spells none. Two spellings of one UUID yield
/// the same canonical id.
pub fn canonicalize_job_id(s: &str) -> (r: Option<String>)
    ensures
        match r {
            Some(c) => uuid_parses(s@) && c@ == uuid_canon(s@) && canonical_id(c@) && c@.len()
                == 36,
            None => !uuid_parses(s@),
        },
{
    uuid_canonicalize(s)
}

/// Validates client-supplied job-id text as the lookup operations need it,
/// telling bad input apart: text that spells no UUID is `InvalidJobId`, the
/// bad-input error, and never a lookup miss.
pub fn parse_job_id(s: &str) -> (r: Result<String, Error>)
    ensures
        match r {
            Ok(c) => uuid_parses(s@) && c@ == uuid_canon(s@) && canonical_id(c@),
            Err(e) => e == Error::InvalidJobId && !uuid_parses(s@),
        },
{
    match uuid_canonicalize(s) {
        Some(c) => Ok(c),
        None => Err(Error::InvalidJobId),
    }
}

} // verus!
