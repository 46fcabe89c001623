//! The business key of a coin store entry: a person's name.

use std::str::FromStr;
use vstd::prelude::*;

use crc32fast::Hasher;
use deterministic_hash::DeterministicHasher;
use std::hash::Hash;

verus! {

/// A person's name. Parsing refuses the reserved name "admin" in any letter
/// case.
#[derive(Debug, Hash)]
pub struct Person(String);

/// Why a name was refused.
#[derive(Debug, Clone, Copy, PartialEq, Eq, Structural)]
pub enum PersonFromStrError {
    AdminNotAllowed,
}

/// The lower-case form that `str::to_lowercase` gives for a text.
pub uninterp spec fn lowercase_of(text: Seq<char>) -> Seq<char>;

/// The CRC-32 checksum that a portable hasher over `crc32fast` reaches after a
/// text has been fed to it the way `str` hashes itself.
pub uninterp spec fn key_checksum(text: Seq<char>) -> u32;

/// Calls `str::to_lowercase`. The result is a function of the text alone; the
/// contract gives it the name `lowercase_of` and claims nothing else.
#[verifier::external_body]
fn lowercase(text: &str) -> (lowered: String)
    ensures
        lowered@ == lowercase_of(text@),
{
    text.to_lowercase()
}

/// Hashes `text` with `Hash::hash` into a `crc32fast::Hasher` wrapped in a
/// `deterministic_hash::DeterministicHasher` and finalizes a copy of the inner
/// hasher. Neither crate reads anything but the bytes written, so the result is
/// a function of the text; the contract names it `key_checksum`.
#[verifier::external_body]
fn checksum(text: &str) -> (sum: u32)
    ensures
        sum == key_checksum(text@),
{
    let mut hasher = DeterministicHasher::new(Hasher::new());
    text.hash(&mut hasher);
    hasher.as_inner().clone().finalize()
}

impl View for Person {
    type V = Seq<char>;

    closed spec fn view(&self) -> Seq<char> {
        self.0@
    }
}

impl Clone for Person {
    fn clone(&self) -> (r: Self)
        ensures
            r == *self,
    {
        Person(self.0.clone())
    }
}

impl PartialEq for Person {
    fn eq(&self, other: &Self) -> (r: bool) {
        self.0 == other.0
    }
}

impl Eq for Person {}

impl vstd::std_specs::cmp::PartialEqSpecImpl for Person {
    open spec fn obeys_eq_spec() -> bool {
        true
    }

    open spec fn eq_spec(&self, other: &Self) -> bool {
        self@ == other@
    }
}

/// The two's-complement reading of a 32-bit checksum as an object id.
pub open spec fn checksum_as_object_id(sum: u32) -> i32 {
    if sum <= i32::MAX {
        sum as i32
    } else {
        (sum - 0x1_0000_0000) as i32
    }
}

/// True when a lower-cased name is the reserved one.
pub open spec fn is_reserved(lowered: Seq<char>) -> bool {
    lowered == "admin"@
}

/// Reads a checksum as an object id, bit for bit.
pub fn object_id_from_checksum(sum: u32) -> (id: i32)
    ensures
        id == checksum_as_object_id(sum),
{
    if sum <= 0x7fff_ffff {
        sum as i32
    } else {
        let low: i32 = (sum - 0x8000_0000) as i32;
        low + i32::MIN
    }
}

impl Person {
    /// Accepts `name` unless `lowered`, its lower-case form, is the reserved
    /// name.
    pub fn from_lowered(name: &str, lowered: &String) -> (r: Result<Person, PersonFromStrError>)
        ensures
            is_reserved(lowered@) ==> r == Err::<Person, PersonFromStrError>(
                PersonFromStrError::AdminNotAllowed,
            ),
            !is_reserved(lowered@) ==> r is Ok && r->Ok_0@ == name@,
    {
        let reserved = "admin".to_owned();
        if *lowered == reserved {
            Err(PersonFromStrError::AdminNotAllowed)
        } else {
            Ok(Person(name.to_owned()))
        }
    }

    /// Accepts every name but "admin" in any letter case.
    pub fn parse(name: &str) -> (r: Result<Person, PersonFromStrError>)
        ensures
            is_reserved(lowercase_of(name@)) ==> r == Err::<Person, PersonFromStrError>(
                PersonFromStrError::AdminNotAllowed,
            ),
            !is_reserved(lowercase_of(name@)) ==> r is Ok && r->Ok_0@ == name@,
    {
        let lowered = lowercase(name);
        Person::from_lowered(name, &lowered)
    }

    /// The name as an owned string.
    pub fn to_inner(&self) -> (name: String)
        ensures
            name@ == self@,
    {
        self.0.clone()
    }

    /// The object id under which this person's events are grouped: the
    /// checksum of the name, read as a signed number. Equal names give equal
    /// ids.
    pub fn object_id(&self) -> (id: i32)
        ensures
            id == checksum_as_object_id(key_checksum(self@)),
    {
        object_id_from_checksum(checksum(self.0.as_str()))
    }
}

impl FromStr for Person {
    type Err = PersonFromStrError;

    /// Accepts every name but "admin" in any letter case, as
    /// [`Person::parse`] does.
    fn from_str(s: &str) -> (r: Result<Self, Self::Err>)
        ensures
            is_reserved(lowercase_of(s@)) ==> r == Err::<Person, PersonFromStrError>(
                PersonFromStrError::AdminNotAllowed,
            ),
            !is_reserved(lowercase_of(s@)) ==> r is Ok && r->Ok_0@ == s@,
    {
        Person::parse(s)
    }
}

} // verus!
