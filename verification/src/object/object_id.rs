//! PDF indirect object identifiers.

use vstd::prelude::*;
use crate::digits::dec_digits;
use crate::helpers::{lemma_ascii_valid_utf8, string_from_utf8_bytes};

verus! {

/// An indirect object identifier: a sequence number and a generation number.
#[derive(Debug, Clone, Copy, Hash, PartialEq, Eq, Structural, PartialOrd, Ord)]
pub struct ObjectId {
    pub object_number: u32,
    pub generation_number: u16,
}

/// Identifier order: by sequence number, then by generation number.
pub open spec fn id_lt(a: ObjectId, b: ObjectId) -> bool {
    a.object_number < b.object_number || (a.object_number == b.object_number
        && a.generation_number < b.generation_number)
}

/// The definition header bytes: `N G obj`.
pub open spec fn id_obj_bytes(id: ObjectId) -> Seq<u8> {
    dec_digits(id.object_number as int) + seq![32u8] + dec_digits(id.generation_number as int)
        + seq![32u8, 111u8, 98u8, 106u8]
}

/// The reference bytes: `N G R`.
pub open spec fn id_ref_bytes(id: ObjectId) -> Seq<u8> {
    dec_digits(id.object_number as int) + seq![32u8] + dec_digits(id.generation_number as int)
        + seq![32u8, 82u8]
}

/// The stream reference bytes: `N 0 R`.
pub open spec fn id_stream_ref_bytes(id: ObjectId) -> Seq<u8> {
    dec_digits(id.object_number as int) + seq![32u8, 48u8, 32u8, 82u8]
}

impl ObjectId {
    /// Creates a new object id.
    pub fn new(object_number: u32, generation_number: u16) -> (r: ObjectId)
        ensures
            r.object_number == object_number,
            r.generation_number == generation_number,
    {
        ObjectId { object_number, generation_number }
    }

    /// An object id from a `(sequence, generation)` pair.
    pub fn from(t: (u32, u16)) -> (r: ObjectId)
        ensures
            r.object_number == t.0,
            r.generation_number == t.1,
    {
        ObjectId { object_number: t.0, generation_number: t.1 }
    }

    /// This object id as a `(sequence, generation)` pair.
    pub fn into_tuple(&self) -> (r: (u32, u16))
        ensures
            r.0 == self.object_number,
            r.1 == self.generation_number,
    {
        (self.object_number, self.generation_number)
    }

    /// The next sequential object id: the sequence number is increased by
    /// one and the generation number is reset to zero.
    pub fn next(&self) -> (r: ObjectId)
        requires
            self.object_number < u32::MAX,
        ensures
            r.object_number == self.object_number + 1,
            r.generation_number == 0,
    {
        ObjectId { object_number: self.object_number + 1, generation_number: 0 }
    }

    /// Appends the definition header `N G obj`.
    pub fn push_obj_header(&self, out: &mut Vec<u8>) -> (count: usize)
        ensures
            final(out)@ == old(out)@ + id_obj_bytes(*self),
            count == id_obj_bytes(*self).len(),
    {
        let start = out.len();
        crate::digits::push_u128_decimal(out, self.object_number as u128);
        out.push(32);
        crate::digits::push_u128_decimal(out, self.generation_number as u128);
        out.push(32);
        out.push(111);
        out.push(98);
        out.push(106);
        proof {
            assert(out@ =~= old(out)@ + id_obj_bytes(*self));
        }
        out.len() - start
    }

    /// Appends the reference `N G R`.
    pub fn push_ref(&self, out: &mut Vec<u8>) -> (count: usize)
        ensures
            final(out)@ == old(out)@ + id_ref_bytes(*self),
            count == id_ref_bytes(*self).len(),
    {
        let start = out.len();
        crate::digits::push_u128_decimal(out, self.object_number as u128);
        out.push(32);
        crate::digits::push_u128_decimal(out, self.generation_number as u128);
        out.push(32);
        out.push(82);
        proof {
            assert(out@ =~= old(out)@ + id_ref_bytes(*self));
        }
        out.len() - start
    }

    /// Appends the stream reference `N 0 R`.
    pub fn push_stream_ref(&self, out: &mut Vec<u8>) -> (count: usize)
        ensures
            final(out)@ == old(out)@ + id_stream_ref_bytes(*self),
            count == id_stream_ref_bytes(*self).len(),
    {
        let start = out.len();
        crate::digits::push_u128_decimal(out, self.object_number as u128);
        out.push(32);
        out.push(48);
        out.push(32);
        out.push(82);
        proof {
            assert(out@ =~= old(out)@ + id_stream_ref_bytes(*self));
        }
        out.len() - start
    }

    /// The definition header `N G obj` as text.
    pub fn to_string(&self) -> (r: String)
        ensures
            vstd::utf8::encode_utf8(r@) == id_obj_bytes(*self),
    {
        let mut bytes: Vec<u8> = Vec::new();
        self.push_obj_header(&mut bytes);
        proof {
            lemma_id_bytes_ascii(*self);
            lemma_ascii_valid_utf8(bytes@);
        }
        string_from_utf8_bytes(bytes)
    }

    /// The indirect object reference `N G R` as text.
    pub fn to_string_ref(&self) -> (r: String)
        ensures
            vstd::utf8::encode_utf8(r@) == id_ref_bytes(*self),
    {
        let mut bytes: Vec<u8> = Vec::new();
        self.push_ref(&mut bytes);
        proof {
            lemma_id_bytes_ascii(*self);
            lemma_ascii_valid_utf8(bytes@);
        }
        string_from_utf8_bytes(bytes)
    }

    /// The stream reference `N 0 R` as text.
    pub fn to_stream_ref(&self) -> (r: String)
        ensures
            vstd::utf8::encode_utf8(r@) == id_stream_ref_bytes(*self),
    {
        let mut bytes: Vec<u8> = Vec::new();
        self.push_stream_ref(&mut bytes);
        proof {
            lemma_id_bytes_ascii(*self);
            lemma_ascii_valid_utf8(bytes@);
        }
        string_from_utf8_bytes(bytes)
    }
}

/// Identifier renderings are plain ASCII.
pub proof fn lemma_id_bytes_ascii(id: ObjectId)
    ensures
        forall|i: int|
            0 <= i < id_obj_bytes(id).len() ==> #[trigger] id_obj_bytes(id)[i] < 128,
        forall|i: int|
            0 <= i < id_ref_bytes(id).len() ==> #[trigger] id_ref_bytes(id)[i] < 128,
        forall|i: int|
            0 <= i < id_stream_ref_bytes(id).len() ==> #[trigger] id_stream_ref_bytes(id)[i]
                < 128,
{
    crate::digits::lemma_dec_digits_ascii(id.object_number as int);
    crate::digits::lemma_dec_digits_ascii(id.generation_number as int);
}

} // verus!
