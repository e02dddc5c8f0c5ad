//! A board attribute: a key and a value in a slot of 64 bytes.
//!
//! Bytes 0 to 7 hold the key, padded with zero bytes. Byte 8 holds the
//! length of the value, from 1 to 55. The value follows from byte 9,
//! padded with zero bytes.

use crate::text::{decode_lenient, lenient_utf8, spec_trim_end_nul, trim_end_nul};
use vstd::prelude::*;

verus! {

/// Size of an attribute slot in bytes.
pub const SLOT_SIZE: usize = 64;

/// Size of the key field in bytes.
pub const KEY_SIZE: usize = 8;

/// Greatest length of a value in bytes.
pub const MAX_VALUE_SIZE: u8 = 55;

/// A decoded attribute.
#[derive(Clone, Debug)]
pub struct DecodedAttribute {
    pub key: String,
    pub value: String,
}

impl View for DecodedAttribute {
    type V = (Seq<char>, Seq<char>);

    open spec fn view(&self) -> (Seq<char>, Seq<char>) {
        (self.key@, self.value@)
    }
}

impl DecodedAttribute {
    /// The attribute with this key and this value.
    pub fn new(decoded_key: String, decoded_value: String) -> (attribute: DecodedAttribute)
        ensures
            attribute.key == decoded_key,
            attribute.value == decoded_value,
    {
        DecodedAttribute { key: decoded_key, value: decoded_value }
    }
}

/// The text in a field that is padded with zero bytes, or nothing if what is
/// left without the padding does not decode.
pub open spec fn spec_padded_text(field: Seq<u8>) -> Option<Seq<char>> {
    lenient_utf8(spec_trim_end_nul(field))
}

/// The key and the value that a slot holds.
///
/// There is none if the slot is too short to hold the length of the value,
/// if that length is zero or above 55, if the slot is too short for the
/// value, or if the key or the value does not decode.
pub open spec fn spec_decode_attribute(step: Seq<u8>) -> Option<(Seq<char>, Seq<char>)> {
    if step.len() <= KEY_SIZE {
        None
    } else {
        let vlen = step[KEY_SIZE as int];
        if vlen == 0 || vlen > MAX_VALUE_SIZE || step.len() < 9 + vlen {
            None
        } else {
            match (
                spec_padded_text(step.subrange(0, KEY_SIZE as int)),
                spec_padded_text(step.subrange(9, 9 + vlen)),
            ) {
                (Some(key), Some(value)) => Some((key, value)),
                _ => None,
            }
        }
    }
}

/// What `spec_decode_attribute` gives, for an executable attribute.
pub open spec fn attribute_view(r: Option<DecodedAttribute>) -> Option<(Seq<char>, Seq<char>)> {
    match r {
        Some(attribute) => Some(attribute@),
        None => None,
    }
}

/// Reads the text of a field that is padded with zero bytes.
pub fn padded_text(field: &[u8]) -> (text: Option<String>)
    ensures
        match text {
            Some(s) => spec_padded_text(field@) == Some(s@),
            None => spec_padded_text(field@) is None,
        },
{
    decode_lenient(trim_end_nul(field))
}

/// Decodes the attribute in a slot.
pub fn decode_attribute(step: &[u8]) -> (r: Option<DecodedAttribute>)
    ensures
        attribute_view(r) == spec_decode_attribute(step@),
        step@.len() > KEY_SIZE && (step@[KEY_SIZE as int] == 0 || step@[KEY_SIZE as int]
            > MAX_VALUE_SIZE) ==> r is None,
{
    if step.len() <= KEY_SIZE {
        return None;
    }
    let vlen: u8 = step[KEY_SIZE];
    if vlen == 0 || vlen > MAX_VALUE_SIZE || step.len() < 9 + vlen as usize {
        return None;
    }
    let key: String = match padded_text(vstd::slice::slice_subrange(step, 0, KEY_SIZE)) {
        None => {
            return None;
        },
        Some(key) => key,
    };
    let value: String = match padded_text(
        vstd::slice::slice_subrange(step, 9, 9 + vlen as usize),
    ) {
        None => {
            return None;
        },
        Some(value) => value,
    };
    Some(DecodedAttribute::new(key, value))
}

/// The slot of index `index` in `region`: 64 bytes, or fewer at the end of
/// a region that is no whole number of slots.
pub open spec fn spec_slot(region: Seq<u8>, index: int) -> Seq<u8> {
    region.subrange(
        SLOT_SIZE * index,
        if SLOT_SIZE * index + SLOT_SIZE <= region.len() {
            SLOT_SIZE * index + SLOT_SIZE
        } else {
            region.len() as int
        },
    )
}

/// How many slots `region` holds, a last short one counted.
pub open spec fn spec_slot_count(region: Seq<u8>) -> int {
    (region.len() + SLOT_SIZE - 1) / (SLOT_SIZE as int)
}

/// Decodes every slot of `region`. Each slot is decoded on its own: a slot
/// that holds no valid attribute gives nothing and leaves the others as
/// they are.
pub fn decode_slots(region: &[u8]) -> (slots: Vec<Option<DecodedAttribute>>)
    ensures
        slots@.len() == spec_slot_count(region@),
        forall|i: int|
            0 <= i < slots@.len() ==> attribute_view(#[trigger] slots@[i])
                == spec_decode_attribute(spec_slot(region@, i)),
{
    let whole: usize = region.len() / SLOT_SIZE;
    let count: usize = if region.len() % SLOT_SIZE == 0 {
        whole
    } else {
        whole + 1
    };
    let mut slots: Vec<Option<DecodedAttribute>> = Vec::new();
    let mut index: usize = 0;
    while index < count
        invariant
            count == spec_slot_count(region@),
            SLOT_SIZE * count < region.len() + SLOT_SIZE,
            region@.len() <= usize::MAX,
            index <= count,
            slots@.len() == index,
            forall|i: int|
                0 <= i < slots@.len() ==> attribute_view(#[trigger] slots@[i])
                    == spec_decode_attribute(spec_slot(region@, i)),
        decreases count - index,
    {
        let start: usize = SLOT_SIZE * index;
        let end: usize = if region.len() - start >= SLOT_SIZE {
            start + SLOT_SIZE
        } else {
            region.len()
        };
        let slot: Option<DecodedAttribute> = decode_attribute(
            vstd::slice::slice_subrange(region, start, end),
        );
        assert(region@.subrange(start as int, end as int) == spec_slot(region@, index as int));
        slots.push(slot);
        index = index + 1;
    }
    slots
}

} // verus!
