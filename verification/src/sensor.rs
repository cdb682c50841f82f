//! Decoding the status text of a one-wire temperature sensor.
//!
//! The driver reports two lines: a dump of the scratchpad that ends in the
//! outcome of the sensor's checksum, and the same dump followed by the
//! temperature in thousandths of a degree Celsius:
//!
//! ```text
//! 6d 01 55 05 7f a5 a5 66 3e : crc=3e YES
//! 6d 01 55 05 7f a5 a5 66 3e t=22812
//! ```

use vstd::prelude::*;
use vstd::string::*;
use crate::decimal::{
    decimal_i32, is_digit, lemma_signed_round_trip, parse_i32, signed_decimal, signed_text,
};
use crate::text::{
    all_space, chars_of, contains, find, find_in, is_space, lemma_find_contains,
    lemma_find_from_least, lemma_trimmed_core, occurs_at, trim_bounds, trimmed,
};

verus! {

/// Why a probe gave no reading.
#[derive(Clone, Copy, Debug, PartialEq, Eq, Structural)]
pub enum ReadError {
    /// The status file does not exist.
    NotFound,
    /// The status file may not be read.
    PermissionDenied,
    /// The checksum failed or the text holds no temperature.
    InvalidData,
    /// Any other failure of the read.
    Other,
}

impl ReadError {
    /// The name under which failures of this class are counted.
    pub open spec fn label_text(self) -> Seq<char> {
        match self {
            ReadError::NotFound => "not_found"@,
            ReadError::PermissionDenied => "permission_denied"@,
            ReadError::InvalidData => "invalid_data"@,
            ReadError::Other => "other"@,
        }
    }

    /// The name under which failures of this class are counted.
    pub fn label(&self) -> (name: &'static str)
        ensures
            name@ == self.label_text(),
    {
        match self {
            ReadError::NotFound => "not_found",
            ReadError::PermissionDenied => "permission_denied",
            ReadError::InvalidData => "invalid_data",
            ReadError::Other => "other",
        }
    }
}

/// The token by which the driver says that the checksum held.
pub open spec fn marker() -> Seq<char> {
    seq!['Y', 'E', 'S']
}

/// The tag in front of the temperature.
pub open spec fn field_tag() -> Seq<char> {
    seq!['t', '=']
}

/// The temperature that a status text reports, in thousandths of a degree:
/// the text must hold the checksum marker, and what follows the first `t=`,
/// less surrounding white space, must write an integer of 32 bits.
pub open spec fn reading_of(data: Seq<char>) -> Option<i32> {
    if !contains(data, marker()) {
        None
    } else {
        match find(data, field_tag()) {
            Some(at) => decimal_i32(trimmed(data.skip(at + 2))),
            None => None,
        }
    }
}

/// Decodes a status text into thousandths of a degree Celsius. Anything
/// that is not a reading is `InvalidData`.
pub fn parse_temperature_data(data: &str) -> (r: Result<i32, ReadError>)
    ensures
        r == match reading_of(data@) {
            Some(millis) => Ok::<i32, ReadError>(millis),
            None => Err(ReadError::InvalidData),
        },
{
    let chars = chars_of(data);
    let yes = chars_of("YES");
    let tag = chars_of("t=");
    proof {
        reveal_strlit("YES");
        reveal_strlit("t=");
        assert(yes@ =~= marker());
        assert(tag@ =~= field_tag());
        lemma_find_contains(chars@, marker());
    }
    if find_in(&chars, &yes).is_none() {
        return Err(ReadError::InvalidData);
    }
    match find_in(&chars, &tag) {
        None => Err(ReadError::InvalidData),
        Some(at) => {
            proof {
                lemma_find_from_least(chars@, field_tag(), 0);
                assert(field_tag().len() == 2);
                assert(at + 2 <= chars@.len());
                assert(chars@.skip(at + 2) =~= chars@.subrange(at + 2, chars@.len() as int));
            }
            let (from, to) = trim_bounds(&chars, at + 2, chars.len());
            match parse_i32(&chars, from, to) {
                Some(millis) => Ok(millis),
                None => Err(ReadError::InvalidData),
            }
        },
    }
}

/// A status text whose checksum line lacks the marker gives no reading,
/// whatever else it holds.
pub proof fn lemma_marker_is_required(data: Seq<char>)
    requires
        !contains(data, marker()),
    ensures
        reading_of(data) is None,
{
}

/// A status text without the tag `t=` gives no reading.
pub proof fn lemma_field_is_required(data: Seq<char>)
    requires
        !contains(data, field_tag()),
    ensures
        reading_of(data) is None,
{
    lemma_find_contains(data, field_tag());
}

/// A status text in which no integer follows the first `t=` gives no
/// reading.
pub proof fn lemma_field_must_be_integer(data: Seq<char>, at: int)
    requires
        find(data, field_tag()) == Some(at),
        signed_decimal(trimmed(data.skip(at + 2))) is None,
    ensures
        reading_of(data) is None,
{
}

/// The empty text gives no reading.
pub proof fn lemma_empty_is_invalid()
    ensures
        reading_of(Seq::<char>::empty()) is None,
{
    assert(marker().len() == 3);
}

/// What stands in the front part of a text stands in the text.
proof fn lemma_contains_extends(head: Seq<char>, rest: Seq<char>, needle: Seq<char>)
    requires
        contains(head, needle),
    ensures
        contains(head + rest, needle),
{
    let i = choose|i: int| occurs_at(head, needle, i);
    assert((head + rest).subrange(i, i + needle.len()) =~= head.subrange(i, i + needle.len()));
    assert(occurs_at(head + rest, needle, i));
}

/// A tag put behind text that holds none is the first tag of the whole.
proof fn lemma_first_tag(head: Seq<char>, rest: Seq<char>)
    requires
        !contains(head, field_tag()),
    ensures
        find(head + field_tag() + rest, field_tag()) == Some(head.len() as int),
        (head + field_tag() + rest).skip(head.len() as int + 2) == rest,
{
    let tag = field_tag();
    let data = head + tag + rest;
    let at = head.len() as int;
    assert(tag.len() == 2 && tag[0] == 't' && tag[1] == '=');
    assert(data.subrange(at, at + 2) =~= tag);
    assert forall|j: int| 0 <= j < at implies !occurs_at(data, tag, j) by {
        if occurs_at(data, tag, j) {
            let window = data.subrange(j, j + 2);
            assert(window[0] == data[j] && window[1] == data[j + 1]);
            if j + 2 <= at {
                assert(head.subrange(j, j + 2) =~= tag);
                assert(occurs_at(head, tag, j));
            } else {
                assert(data[j + 1] == tag[0]);
            }
        }
    }
    assert(occurs_at(data, tag, at));
    lemma_find_from_least(data, tag, 0);
    match find(data, tag) {
        Some(first) => {
            if first < at {
                assert(!occurs_at(data, tag, first));
            } else if at < first {
                assert(!occurs_at(data, tag, at));
            }
        },
        None => {
            assert(!occurs_at(data, tag, at));
        },
    }
    assert(data.skip(at + 2) =~= rest);
}

/// A well-formed status text reads as the integer it holds: whatever
/// stands before the tag, as long as it holds the marker and no tag of its
/// own, and whatever white space follows the number.
pub proof fn lemma_well_formed_reading(head: Seq<char>, value: i32, space: Seq<char>)
    requires
        contains(head, marker()),
        !contains(head, field_tag()),
        all_space(space),
    ensures
        reading_of(head + field_tag() + signed_text(value as int) + space) == Some(value),
{
    let number = signed_text(value as int);
    let data = head + field_tag() + number + space;
    assert(data =~= head + (field_tag() + number + space));
    assert(data =~= head + field_tag() + (number + space));
    lemma_contains_extends(head, field_tag() + number + space, marker());
    lemma_first_tag(head, number + space);
    lemma_signed_round_trip(value as int);
    lemma_trimmed_core(number, space);
}

} // verus!
