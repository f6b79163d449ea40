//! The cross-reference table: byte offsets of every indirect object written.

use vstd::prelude::*;
use crate::digits::{dec_digits, dec_digits_fixed, push_u128_decimal, push_u128_fixed};

verus! {

/// An indirect object reference in the cross-reference table.
#[derive(Debug, Clone, Copy, PartialEq, Eq, Structural)]
pub struct CrossReferenceTableEntry {
    /// Byte offset within the body of the file.
    pub offset: usize,
    /// Generation number for the indirect object.
    pub generation: u16,
    /// Whether the indirect object is currently in use or deleted (free).
    pub in_use: bool,
}

/// Lists all indirect objects in the document by byte offset, with a free
/// sentinel as entry zero.
#[derive(Debug)]
pub struct CrossReferenceTable {
    total_bytes: usize,
    entries: Vec<CrossReferenceTableEntry>,
}

impl CrossReferenceTable {
    /// Total number of bytes written so far.
    pub closed spec fn total_spec(&self) -> nat {
        self.total_bytes as nat
    }

    /// The recorded entries.
    pub closed spec fn entries_spec(&self) -> Seq<CrossReferenceTableEntry> {
        self.entries@
    }

    /// Creates a table holding only the free-list sentinel.
    pub fn new() -> (r: CrossReferenceTable)
        ensures
            r.total_spec() == 0,
            r.entries_spec() == seq![
                CrossReferenceTableEntry { offset: 0, generation: 65535, in_use: false },
            ],
    {
        let mut entries: Vec<CrossReferenceTableEntry> = Vec::new();
        entries.push(CrossReferenceTableEntry { offset: 0, generation: 65535, in_use: false });
        let r = CrossReferenceTable { total_bytes: 0, entries };
        proof {
            assert(r.entries_spec() =~= seq![
                CrossReferenceTableEntry { offset: 0, generation: 65535, in_use: false },
            ]);
        }
        r
    }

    /// Total number of bytes written.
    pub fn total_bytes(&self) -> (r: usize)
        ensures
            r == self.total_spec(),
    {
        self.total_bytes
    }

    /// Adds bytes to the running offset.
    pub fn add_bytes(&mut self, bytes_added: usize)
        requires
            old(self).total_spec() + bytes_added <= usize::MAX,
        ensures
            final(self).total_spec() == old(self).total_spec() + bytes_added,
            final(self).entries_spec() == old(self).entries_spec(),
    {
        self.total_bytes = self.total_bytes + bytes_added;
    }

    /// Number of entries.
    pub fn num_entries(&self) -> (r: usize)
        ensures
            r == self.entries_spec().len(),
    {
        self.entries.len()
    }

    /// All entries.
    pub fn entries(&self) -> (r: &Vec<CrossReferenceTableEntry>)
        ensures
            r@ == self.entries_spec(),
    {
        &self.entries
    }

    /// Records an indirect object entry at one byte past the current total,
    /// matching the single leading newline of each object header.
    pub fn add_entry(&mut self, generation: u16, in_use: bool)
        requires
            old(self).total_spec() < usize::MAX,
        ensures
            final(self).total_spec() == old(self).total_spec(),
            final(self).entries_spec() == old(self).entries_spec().push(
                CrossReferenceTableEntry {
                    offset: (old(self).total_spec() + 1) as usize,
                    generation,
                    in_use,
                },
            ),
    {
        let offset = self.total_bytes + 1;
        self.entries.push(CrossReferenceTableEntry { offset, generation, in_use });
    }
}

/// One 20-byte table line: a 10-digit offset, a 5-digit generation, and the
/// in-use flag.
pub open spec fn xref_entry_bytes(e: CrossReferenceTableEntry) -> Seq<u8> {
    dec_digits_fixed(e.offset as int, 10) + seq![32u8] + dec_digits_fixed(e.generation as int, 5)
        + seq![32u8] + (if e.in_use {
        seq![110u8]
    } else {
        seq![102u8]
    }) + seq![32u8, 10u8]
}

/// The table lines of all entries, in order.
pub open spec fn xref_entries_bytes(s: Seq<CrossReferenceTableEntry>) -> Seq<u8>
    decreases s.len(),
{
    if s.len() == 0 {
        Seq::empty()
    } else {
        xref_entry_bytes(s.first()) + xref_entries_bytes(s.drop_first())
    }
}

/// The whole section: `xref`, one subsection covering every object from
/// zero, and the entry lines.
pub open spec fn xref_section_bytes(s: Seq<CrossReferenceTableEntry>) -> Seq<u8> {
    seq![120u8, 114u8, 101u8, 102u8, 10u8, 48u8, 32u8] + dec_digits(s.len() as int) + seq![10u8]
        + xref_entries_bytes(s)
}

/// Appending an entry extends the rendered lines by that entry's line.
proof fn lemma_xref_entries_snoc(s: Seq<CrossReferenceTableEntry>, e: CrossReferenceTableEntry)
    ensures
        xref_entries_bytes(s.push(e)) == xref_entries_bytes(s) + xref_entry_bytes(e),
    decreases s.len(),
{
    if s.len() == 0 {
        assert(s.push(e).len() == 1);
        assert(s.push(e).first() == e);
        assert(s.push(e).drop_first() =~= Seq::<CrossReferenceTableEntry>::empty());
        assert(xref_entries_bytes(Seq::<CrossReferenceTableEntry>::empty()) == Seq::<u8>::empty());
        assert(xref_entries_bytes(s.push(e)) =~= xref_entry_bytes(e));
        assert(xref_entries_bytes(s) + xref_entry_bytes(e) =~= xref_entry_bytes(e));
    } else {
        assert(s.push(e).drop_first() =~= s.drop_first().push(e));
        lemma_xref_entries_snoc(s.drop_first(), e);
        assert(xref_entries_bytes(s.push(e)) =~= xref_entries_bytes(s) + xref_entry_bytes(e));
    }
}

impl CrossReferenceTable {
    /// Writes the cross-reference section and returns its file offset, one
    /// byte past the bytes written so far.
    pub fn render(&self, writer: &mut Vec<u8>) -> (offset: usize)
        requires
            self.total_spec() < usize::MAX,
        ensures
            final(writer)@ == old(writer)@ + xref_section_bytes(self.entries_spec()),
            offset == self.total_spec() + 1,
    {
        writer.push(120);
        writer.push(114);
        writer.push(101);
        writer.push(102);
        writer.push(10);
        writer.push(48);
        writer.push(32);
        push_u128_decimal(writer, self.entries.len() as u128);
        writer.push(10);
        let ghost head = seq![120u8, 114u8, 101u8, 102u8, 10u8, 48u8, 32u8] + dec_digits(
            self.entries@.len() as int,
        ) + seq![10u8];
        proof {
            assert(writer@ =~= old(writer)@ + head);
            assert(xref_entries_bytes(self.entries@.take(0)) == Seq::<u8>::empty()) by {
                assert(self.entries@.take(0) =~= Seq::<CrossReferenceTableEntry>::empty());
            }
        }
        let mut i: usize = 0;
        while i < self.entries.len()
            invariant
                i <= self.entries@.len(),
                writer@ == old(writer)@ + head + xref_entries_bytes(self.entries@.take(i as int)),
                head == seq![120u8, 114u8, 101u8, 102u8, 10u8, 48u8, 32u8] + dec_digits(
                    self.entries@.len() as int,
                ) + seq![10u8],
            decreases self.entries@.len() - i,
        {
            let e = self.entries[i];
            push_u128_fixed(writer, e.offset as u128, 10);
            writer.push(32);
            push_u128_fixed(writer, e.generation as u128, 5);
            writer.push(32);
            if e.in_use {
                writer.push(110);
            } else {
                writer.push(102);
            }
            writer.push(32);
            writer.push(10);
            proof {
                lemma_xref_entries_snoc(self.entries@.take(i as int), e);
                assert(self.entries@.take(i as int + 1) =~= self.entries@.take(i as int).push(e));
                assert(writer@ =~= old(writer)@ + head + xref_entries_bytes(
                    self.entries@.take(i as int + 1),
                ));
            }
            i = i + 1;
        }
        proof {
            assert(self.entries@.take(self.entries@.len() as int) =~= self.entries@);
        }
        self.total_bytes + 1
    }
}

} // verus!
