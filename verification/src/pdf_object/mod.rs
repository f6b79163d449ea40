//! Native PDF values and their deterministic byte renderer.
//!
//! Every primitive the output format supports is a variant of [`PdfObject`].
//! Rendering is byte-exact: dictionary entries are kept sorted by key, string
//! and name escaping is fixed, and numbers use the canonical decimal form.

pub mod stream_data;

use vstd::prelude::*;
use vstd::string::StringSliceAdditionalSpecFns;
use crate::decimal::Decimal;
use crate::digits::decimal_bytes;
use crate::helpers::write_all_count;
use stream_data::StreamData;
use crate::geometry::rect::{lemma_rect_units_in_range, rect_in_range, Rect};
use crate::geometry::unit::{
    dec_of, same_tag, spec_add_m_of_units, to_inch_m2, unit_in_range, Unit,
};
use crate::decimal::{abs_int, pow10};

verus! {

/// The UTF-8 bytes of a key string; dictionary order is byte order.
pub open spec fn key_bytes(s: String) -> Seq<u8> {
    vstd::utf8::encode_utf8(s@)
}

/// Strict byte-lexicographic order.
pub open spec fn bytes_lt(a: Seq<u8>, b: Seq<u8>) -> bool
    decreases a.len(),
{
    if b.len() == 0 {
        false
    } else if a.len() == 0 {
        true
    } else if a[0] < b[0] {
        true
    } else if a[0] > b[0] {
        false
    } else {
        bytes_lt(a.drop_first(), b.drop_first())
    }
}

/// Byte order is transitive.
pub proof fn lemma_bytes_lt_trans(a: Seq<u8>, b: Seq<u8>, c: Seq<u8>)
    requires
        bytes_lt(a, b),
        bytes_lt(b, c),
    ensures
        bytes_lt(a, c),
    decreases a.len(),
{
    if a.len() != 0 && b.len() != 0 && c.len() != 0 {
        if a[0] == b[0] && b[0] == c[0] {
            lemma_bytes_lt_trans(a.drop_first(), b.drop_first(), c.drop_first());
        }
    }
}

/// Byte order is irreflexive.
pub proof fn lemma_bytes_lt_irrefl(a: Seq<u8>)
    ensures
        !bytes_lt(a, a),
    decreases a.len(),
{
    if a.len() != 0 {
        lemma_bytes_lt_irrefl(a.drop_first());
    }
}

/// Exactly one of `a < b`, `a == b`, `b < a` holds.
pub proof fn lemma_bytes_lt_trichotomy(a: Seq<u8>, b: Seq<u8>)
    ensures
        bytes_lt(a, b) || a == b || bytes_lt(b, a),
        bytes_lt(a, b) ==> a != b && !bytes_lt(b, a),
        bytes_lt(b, a) ==> a != b && !bytes_lt(a, b),
    decreases a.len(),
{
    if a.len() == 0 || b.len() == 0 {
        if a.len() == 0 && b.len() == 0 {
            assert(a =~= b);
        }
    } else if a[0] == b[0] {
        lemma_bytes_lt_trichotomy(a.drop_first(), b.drop_first());
        if a.drop_first() == b.drop_first() {
            assert(a.len() == b.len());
            assert forall|i: int| 0 <= i < a.len() implies a[i] == b[i] by {
                if i > 0 {
                    assert(a.drop_first()[i - 1] == a[i]);
                    assert(b.drop_first()[i - 1] == b[i]);
                }
            }
            assert(a =~= b);
        }
        if a == b {
            assert(a.drop_first() =~= b.drop_first());
        }
    } else {
        assert(a != b) by {
            assert(a[0] != b[0]);
        }
    }
}

/// Three-way comparison of byte strings in lexicographic order.
fn bytes_cmp(a: &[u8], b: &[u8]) -> (r: i8)
    ensures
        (r == -1) <==> bytes_lt(a@, b@),
        (r == 0) <==> (a@ == b@),
        (r == 1) <==> bytes_lt(b@, a@),
    decreases a@.len(),
{
    proof {
        lemma_bytes_lt_trichotomy(a@, b@);
    }
    if b.len() == 0 {
        if a.len() == 0 {
            proof {
                assert(a@ =~= b@);
            }
            0
        } else {
            1
        }
    } else if a.len() == 0 {
        -1
    } else if a[0] < b[0] {
        -1
    } else if a[0] > b[0] {
        1
    } else {
        let ra = vstd::slice::slice_subrange(a, 1, a.len());
        let rb = vstd::slice::slice_subrange(b, 1, b.len());
        proof {
            assert(ra@ =~= a@.drop_first());
            assert(rb@ =~= b@.drop_first());
        }
        let r = bytes_cmp(ra, rb);
        proof {
            lemma_bytes_lt_trichotomy(a@.drop_first(), b@.drop_first());
            if a@.drop_first() == b@.drop_first() {
                assert forall|i: int| 0 <= i < a@.len() implies a@[i] == b@[i] by {
                    if i > 0 {
                        assert(a@.drop_first()[i - 1] == a@[i]);
                        assert(b@.drop_first()[i - 1] == b@[i]);
                    }
                }
                assert(a@ =~= b@);
            }
            if a@ == b@ {
                assert(a@.drop_first() =~= b@.drop_first());
            }
        }
        r
    }
}

/// Three-way comparison of two strings by their UTF-8 bytes.
fn key_cmp(a: &str, b: &str) -> (r: i8)
    ensures
        (r == -1) <==> bytes_lt(a.spec_bytes(), b.spec_bytes()),
        (r == 0) <==> a.spec_bytes() == b.spec_bytes(),
        (r == 1) <==> bytes_lt(b.spec_bytes(), a.spec_bytes()),
{
    bytes_cmp(a.as_bytes(), b.as_bytes())
}

/// The abstract value of a PDF object: the same shape with all executable
/// containers replaced by their mathematical views.
pub enum PdfModel {
    Bool(bool),
    Number((int, nat)),
    Str(Seq<u8>),
    Hex(Seq<u8>),
    Name(Seq<u8>),
    Array(Seq<PdfModel>),
    Dict(Seq<(Seq<u8>, PdfModel)>),
    Stream(stream_data::StreamModel),
    Raw(Seq<u8>),
    Null,
}

/// PDF object values: every primitive the output format can carry.
#[derive(Debug)]
pub enum PdfObject {
    Bool(bool),
    Number(Decimal),
    String(String),
    HexString(String),
    Name(String),
    Array(Vec<PdfObject>),
    Dictionary(Dict),
    Stream(StreamData),
    Raw(Vec<u8>),
    Null,
}

/// A dictionary: entries kept strictly sorted by key bytes, so that the
/// stored order is the canonical render order and is independent of the
/// order in which keys were inserted.
#[derive(Debug)]
pub struct Dict {
    entries: Vec<(String, PdfObject)>,
}

impl PdfObject {
    /// The abstract value of this object.
    pub open spec fn model(&self) -> PdfModel
        decreases *self,
    {
        match *self {
            PdfObject::Bool(b) => PdfModel::Bool(b),
            PdfObject::Number(d) => PdfModel::Number(d.model()),
            PdfObject::String(ref s) => PdfModel::Str(key_bytes(*s)),
            PdfObject::HexString(ref s) => PdfModel::Hex(key_bytes(*s)),
            PdfObject::Name(ref s) => PdfModel::Name(key_bytes(*s)),
            PdfObject::Array(ref a) => PdfModel::Array(models_of(a@)),
            PdfObject::Dictionary(ref d) => PdfModel::Dict(d.model()),
            PdfObject::Stream(ref s) => PdfModel::Stream(s.model()),
            PdfObject::Raw(ref v) => PdfModel::Raw(v@),
            PdfObject::Null => PdfModel::Null,
        }
    }
}

/// The models of a sequence of objects, elementwise.
pub open spec fn models_of(s: Seq<PdfObject>) -> Seq<PdfModel>
    decreases s,
{
    if s.len() == 0 {
        Seq::empty()
    } else {
        seq![s.first().model()] + models_of(s.drop_first())
    }
}

/// The models of a sequence of dictionary entries, elementwise.
pub open spec fn entry_models_of(s: Seq<(String, PdfObject)>) -> Seq<(Seq<u8>, PdfModel)>
    decreases s,
{
    if s.len() == 0 {
        Seq::empty()
    } else {
        seq![(key_bytes(s.first().0), s.first().1.model())] + entry_models_of(s.drop_first())
    }
}

/// Model sequences are elementwise models.
pub proof fn lemma_models_of_index(s: Seq<PdfObject>)
    ensures
        models_of(s).len() == s.len(),
        forall|i: int| 0 <= i < s.len() ==> models_of(s)[i] == #[trigger] s[i].model(),
    decreases s,
{
    if s.len() > 0 {
        lemma_models_of_index(s.drop_first());
        assert forall|i: int| 0 <= i < s.len() implies models_of(s)[i] == #[trigger] s[i].model()
        by {
            if i > 0 {
                assert(s.drop_first()[i - 1] == s[i]);
            }
        }
    }
}

/// Entry model sequences are elementwise models.
pub proof fn lemma_entry_models_of_index(s: Seq<(String, PdfObject)>)
    ensures
        entry_models_of(s).len() == s.len(),
        forall|i: int|
            0 <= i < s.len() ==> entry_models_of(s)[i] == (
                key_bytes(#[trigger] s[i].0),
                s[i].1.model(),
            ),
    decreases s,
{
    if s.len() > 0 {
        lemma_entry_models_of_index(s.drop_first());
        assert forall|i: int|
            0 <= i < s.len() implies entry_models_of(s)[i] == (
            key_bytes(#[trigger] s[i].0),
            s[i].1.model(),
        ) by {
            if i > 0 {
                assert(s.drop_first()[i - 1] == s[i]);
            }
        }
    }
}

impl Dict {
    /// The abstract value: the entry sequence with keys as byte strings.
    pub closed spec fn model(&self) -> Seq<(Seq<u8>, PdfModel)>
        decreases *self,
    {
        entry_models_of(self.entries@)
    }
}

/// Entry keys are strictly ascending in byte order.
pub open spec fn entries_sorted(s: Seq<(Seq<u8>, PdfModel)>) -> bool {
    forall|i: int, j: int| 0 <= i < j < s.len() ==> bytes_lt(#[trigger] s[i].0, #[trigger] s[j].0)
}

/// The escape of one literal-string byte: `(`, `)` and `\` gain a backslash;
/// every other byte passes through unchanged.
pub open spec fn escape_string_byte(b: u8) -> Seq<u8> {
    if b == 40 || b == 41 || b == 92 {
        seq![92u8, b]
    } else {
        seq![b]
    }
}

/// Literal-string escaping applied to a whole byte string.
pub open spec fn escape_string_bytes(s: Seq<u8>) -> Seq<u8>
    decreases s.len(),
{
    if s.len() == 0 {
        Seq::empty()
    } else {
        escape_string_byte(s.first()) + escape_string_bytes(s.drop_first())
    }
}

/// The escape of one name byte: space, `(` and `)` are replaced by `#20`,
/// `#28` and `#29`; every other byte passes through unchanged.
pub open spec fn escape_name_byte(b: u8) -> Seq<u8> {
    if b == 32 {
        seq![35u8, 50u8, 48u8]
    } else if b == 40 {
        seq![35u8, 50u8, 56u8]
    } else if b == 41 {
        seq![35u8, 50u8, 57u8]
    } else {
        seq![b]
    }
}

/// Name escaping applied to a whole byte string.
pub open spec fn escape_name_bytes(s: Seq<u8>) -> Seq<u8>
    decreases s.len(),
{
    if s.len() == 0 {
        Seq::empty()
    } else {
        escape_name_byte(s.first()) + escape_name_bytes(s.drop_first())
    }
}

/// The exact bytes a value renders to.
pub open spec fn render_spec(m: PdfModel) -> Seq<u8>
    decreases m,
{
    match m {
        PdfModel::Bool(b) => if b {
            seq![116u8, 114u8, 117u8, 101u8]
        } else {
            seq![102u8, 97u8, 108u8, 115u8, 101u8]
        },
        PdfModel::Number(md) => decimal_bytes(md),
        PdfModel::Str(s) => seq![40u8] + escape_string_bytes(s) + seq![41u8],
        PdfModel::Hex(s) => seq![60u8] + s + seq![62u8],
        PdfModel::Name(s) => seq![47u8] + escape_name_bytes(s),
        PdfModel::Array(items) => seq![91u8] + render_items(items) + seq![93u8],
        PdfModel::Dict(entries) => seq![60u8, 60u8, 32u8] + render_entries(entries) + seq![
            32u8,
            62u8,
            62u8,
        ],
        PdfModel::Stream(_) => Seq::empty(),
        PdfModel::Raw(v) => v,
        PdfModel::Null => seq![110u8, 117u8, 108u8, 108u8],
    }
}

/// Array elements rendered with a single space between neighbours.
pub open spec fn render_items(items: Seq<PdfModel>) -> Seq<u8>
    decreases items,
{
    if items.len() == 0 {
        Seq::empty()
    } else if items.len() == 1 {
        render_spec(items.first())
    } else {
        render_spec(items.first()) + seq![32u8] + render_items(items.drop_first())
    }
}

/// One dictionary entry: `/Key value`.
pub open spec fn render_entry(e: (Seq<u8>, PdfModel)) -> Seq<u8>
    decreases e,
{
    seq![47u8] + escape_name_bytes(e.0) + seq![32u8] + render_spec(e.1)
}

/// Dictionary entries rendered with a single space between neighbours.
pub open spec fn render_entries(entries: Seq<(Seq<u8>, PdfModel)>) -> Seq<u8>
    decreases entries,
{
    if entries.len() == 0 {
        Seq::empty()
    } else if entries.len() == 1 {
        render_entry(entries.first())
    } else {
        render_entry(entries.first()) + seq![32u8] + render_entries(entries.drop_first())
    }
}

/// Appending one byte extends a string escape by that byte's escape.
pub proof fn lemma_escape_string_snoc(s: Seq<u8>, x: u8)
    ensures
        escape_string_bytes(s.push(x)) == escape_string_bytes(s) + escape_string_byte(x),
    decreases s.len(),
{
    if s.len() == 0 {
        assert(s.push(x).len() == 1);
        assert(s.push(x).first() == x);
        assert(s.push(x).drop_first() =~= Seq::<u8>::empty());
        assert(escape_string_bytes(Seq::<u8>::empty()) == Seq::<u8>::empty());
        assert(escape_string_bytes(s.push(x)) == escape_string_byte(x) + escape_string_bytes(
            Seq::<u8>::empty(),
        ));
        assert(escape_string_bytes(s.push(x)) =~= escape_string_byte(x));
        assert(escape_string_bytes(s) + escape_string_byte(x) =~= escape_string_byte(x));
    } else {
        assert(s.push(x).drop_first() =~= s.drop_first().push(x));
        lemma_escape_string_snoc(s.drop_first(), x);
        assert(escape_string_bytes(s.push(x)) == escape_string_byte(s.first())
            + escape_string_bytes(s.drop_first().push(x)));
        assert(escape_string_bytes(s.push(x)) =~= escape_string_bytes(s) + escape_string_byte(x));
    }
}

/// Appending one byte extends a name escape by that byte's escape.
pub proof fn lemma_escape_name_snoc(s: Seq<u8>, x: u8)
    ensures
        escape_name_bytes(s.push(x)) == escape_name_bytes(s) + escape_name_byte(x),
    decreases s.len(),
{
    if s.len() == 0 {
        assert(s.push(x).len() == 1);
        assert(s.push(x).first() == x);
        assert(s.push(x).drop_first() =~= Seq::<u8>::empty());
        assert(escape_name_bytes(Seq::<u8>::empty()) == Seq::<u8>::empty());
        assert(escape_name_bytes(s.push(x)) == escape_name_byte(x) + escape_name_bytes(
            Seq::<u8>::empty(),
        ));
        assert(escape_name_bytes(s.push(x)) =~= escape_name_byte(x));
        assert(escape_name_bytes(s) + escape_name_byte(x) =~= escape_name_byte(x));
    } else {
        assert(s.push(x).drop_first() =~= s.drop_first().push(x));
        lemma_escape_name_snoc(s.drop_first(), x);
        assert(escape_name_bytes(s.push(x)) =~= escape_name_bytes(s) + escape_name_byte(x));
    }
}

/// Appending one element extends a rendered item list by a separator and the
/// element's rendering.
pub proof fn lemma_render_items_snoc(items: Seq<PdfModel>, x: PdfModel)
    ensures
        render_items(items.push(x)) == if items.len() == 0 {
            render_spec(x)
        } else {
            render_items(items) + seq![32u8] + render_spec(x)
        },
    decreases items.len(),
{
    if items.len() == 0 {
        assert(items.push(x).len() == 1);
        assert(items.push(x).first() == x);
        assert(render_items(items.push(x)) == render_spec(x));
    } else {
        assert(items.push(x).drop_first() =~= items.drop_first().push(x));
        lemma_render_items_snoc(items.drop_first(), x);
        if items.len() == 1 {
            assert(render_items(items.push(x)) == render_spec(items.first()) + seq![32u8]
                + render_spec(x));
            assert(render_items(items) == render_spec(items.first()));
        } else {
            assert(render_items(items.push(x)) =~= render_items(items) + seq![32u8] + render_spec(
                x,
            ));
        }
    }
}

/// Appending one entry extends a rendered entry list by a separator and the
/// entry's rendering.
pub proof fn lemma_render_entries_snoc(entries: Seq<(Seq<u8>, PdfModel)>, x: (Seq<u8>, PdfModel))
    ensures
        render_entries(entries.push(x)) == if entries.len() == 0 {
            render_entry(x)
        } else {
            render_entries(entries) + seq![32u8] + render_entry(x)
        },
    decreases entries.len(),
{
    if entries.len() == 0 {
        assert(entries.push(x).len() == 1);
        assert(entries.push(x).first() == x);
        assert(render_entries(entries.push(x)) == render_entry(x));
    } else {
        assert(entries.push(x).drop_first() =~= entries.drop_first().push(x));
        lemma_render_entries_snoc(entries.drop_first(), x);
        if entries.len() == 1 {
            assert(render_entries(entries) == render_entry(entries.first()));
        } else {
            assert(render_entries(entries.push(x)) =~= render_entries(entries) + seq![32u8]
                + render_entry(x));
        }
    }
}

impl PdfObject {
    /// Appends the exact byte rendering of this value to the sink and
    /// returns the number of bytes written.  Stream values render nothing
    /// through this entry point; the dedicated stream writer handles them.
    pub fn render(&self, writer: &mut Vec<u8>) -> (count: usize)
        ensures
            final(writer)@ == old(writer)@ + render_spec(self.model()),
            count == render_spec(self.model()).len(),
        decreases *self,
    {
        let start = writer.len();
        match self {
            PdfObject::Bool(b) => {
                if *b {
                    writer.push(116);
                    writer.push(114);
                    writer.push(117);
                    writer.push(101);
                    proof {
                        assert(writer@ =~= old(writer)@ + render_spec(self.model()));
                    }
                } else {
                    writer.push(102);
                    writer.push(97);
                    writer.push(108);
                    writer.push(115);
                    writer.push(101);
                    proof {
                        assert(writer@ =~= old(writer)@ + render_spec(self.model()));
                    }
                }
            },
            PdfObject::Number(d) => {
                d.push_canonical(writer);
            },
            PdfObject::String(s) => {
                writer.push(40);
                let bytes = s.as_str().as_bytes();
                let ghost kb = key_bytes(*s);
                proof {
                    assert(bytes@ == kb);
                }
                let mut i: usize = 0;
                proof {
                    assert(kb.subrange(0, 0) =~= Seq::<u8>::empty());
                    assert(escape_string_bytes(Seq::<u8>::empty()) == Seq::<u8>::empty());
                    assert(writer@ =~= old(writer)@ + seq![40u8] + escape_string_bytes(
                        kb.subrange(0, 0),
                    ));
                }
                while i < bytes.len()
                    invariant
                        i <= kb.len(),
                        bytes@ == kb,
                        writer@ == old(writer)@ + seq![40u8] + escape_string_bytes(
                            kb.subrange(0, i as int),
                        ),
                    decreases kb.len() - i,
                {
                    let b = bytes[i];
                    if b == 40 || b == 41 || b == 92 {
                        writer.push(92);
                        writer.push(b);
                    } else {
                        writer.push(b);
                    }
                    proof {
                        lemma_escape_string_snoc(kb.subrange(0, i as int), b);
                        assert(kb.subrange(0, i as int + 1) =~= kb.subrange(0, i as int).push(b));
                        assert(writer@ =~= old(writer)@ + seq![40u8] + escape_string_bytes(
                            kb.subrange(0, i as int + 1),
                        ));
                    }
                    i = i + 1;
                }
                writer.push(41);
                proof {
                    assert(kb.subrange(0, kb.len() as int) =~= kb);
                    assert(writer@ =~= old(writer)@ + render_spec(self.model()));
                }
            },
            PdfObject::HexString(s) => {
                writer.push(60);
                write_all_count(writer, s.as_str().as_bytes());
                writer.push(62);
                proof {
                    assert(writer@ =~= old(writer)@ + render_spec(self.model()));
                }
            },
            PdfObject::Name(n) => {
                writer.push(47);
                push_name_escaped(writer, n.as_str());
                proof {
                    assert(writer@ =~= old(writer)@ + render_spec(self.model()));
                }
            },
            PdfObject::Array(a) => {
                writer.push(91);
                let ghost ms = models_of(a@);
                proof {
                    lemma_models_of_index(a@);
                    assert(ms.subrange(0, 0) =~= Seq::<PdfModel>::empty());
                    assert(render_items(Seq::<PdfModel>::empty()) == Seq::<u8>::empty());
                    assert(writer@ =~= old(writer)@ + seq![91u8] + render_items(
                        ms.subrange(0, 0),
                    ));
                }
                let mut i: usize = 0;
                while i < a.len()
                    invariant
                        *self == PdfObject::Array(*a),
                        i <= a@.len(),
                        ms == models_of(a@),
                        ms.len() == a@.len(),
                        forall|j: int| 0 <= j < a@.len() ==> ms[j] == #[trigger] a@[j].model(),
                        writer@ == old(writer)@ + seq![91u8] + render_items(
                            ms.subrange(0, i as int),
                        ),
                    decreases a@.len() - i,
                {
                    if i > 0 {
                        writer.push(32);
                    }
                    let ghost pre = writer@;
                    proof {
                        assert(decreases_to!(*self => self->Array_0));
                        assert(self->Array_0 == *a);
                        assert(decreases_to!(*a => a@));
                        assert(decreases_to!(a@ => a@[i as int]));
                    }
                    a[i].render(writer);
                    proof {
                        lemma_render_items_snoc(ms.subrange(0, i as int), ms[i as int]);
                        assert(ms.subrange(0, i as int + 1) =~= ms.subrange(0, i as int).push(
                            ms[i as int],
                        ));
                        assert(writer@ =~= old(writer)@ + seq![91u8] + render_items(
                            ms.subrange(0, i as int + 1),
                        ));
                    }
                    i = i + 1;
                }
                writer.push(93);
                proof {
                    assert(ms.subrange(0, ms.len() as int) =~= ms);
                    assert(writer@ =~= old(writer)@ + render_spec(self.model()));
                }
            },
            PdfObject::Dictionary(d) => {
                writer.push(60);
                writer.push(60);
                writer.push(32);
                let ghost ms = d.model();
                proof {
                    lemma_entry_models_of_index(d.entries@);
                    assert(ms.subrange(0, 0) =~= Seq::<(Seq<u8>, PdfModel)>::empty());
                    assert(render_entries(Seq::<(Seq<u8>, PdfModel)>::empty())
                        == Seq::<u8>::empty());
                    assert(writer@ =~= old(writer)@ + seq![60u8, 60u8, 32u8] + render_entries(
                        ms.subrange(0, 0),
                    ));
                }
                let mut i: usize = 0;
                while i < d.entries.len()
                    invariant
                        *self == PdfObject::Dictionary(*d),
                        i <= d.entries@.len(),
                        ms == d.model(),
                        ms.len() == d.entries@.len(),
                        forall|j: int|
                            0 <= j < d.entries@.len() ==> ms[j] == (
                                key_bytes(#[trigger] d.entries@[j].0),
                                d.entries@[j].1.model(),
                            ),
                        writer@ == old(writer)@ + seq![60u8, 60u8, 32u8] + render_entries(
                            ms.subrange(0, i as int),
                        ),
                    decreases d.entries@.len() - i,
                {
                    if i > 0 {
                        writer.push(32);
                    }
                    writer.push(47);
                    push_name_escaped(writer, d.entries[i].0.as_str());
                    writer.push(32);
                    proof {
                        assert(decreases_to!(*self => self->Dictionary_0));
                        assert(self->Dictionary_0 == *d);
                        assert(decreases_to!(*d => d.entries));
                        assert(decreases_to!(d.entries => d.entries@));
                        assert(decreases_to!(d.entries@ => d.entries@[i as int]));
                        assert(decreases_to!(d.entries@[i as int] => d.entries@[i as int].1));
                    }
                    d.entries[i].1.render(writer);
                    proof {
                        lemma_render_entries_snoc(ms.subrange(0, i as int), ms[i as int]);
                        assert(ms.subrange(0, i as int + 1) =~= ms.subrange(0, i as int).push(
                            ms[i as int],
                        ));
                        assert(writer@ =~= old(writer)@ + seq![60u8, 60u8, 32u8] + render_entries(
                            ms.subrange(0, i as int + 1),
                        ));
                    }
                    i = i + 1;
                }
                writer.push(32);
                writer.push(62);
                writer.push(62);
                proof {
                    assert(ms.subrange(0, ms.len() as int) =~= ms);
                    assert(writer@ =~= old(writer)@ + render_spec(self.model()));
                }
            },
            PdfObject::Stream(_) => {
                proof {
                    assert(writer@ =~= old(writer)@ + render_spec(self.model()));
                }
            },
            PdfObject::Raw(v) => {
                write_all_count(writer, v.as_slice());
                proof {
                    assert(writer@ =~= old(writer)@ + render_spec(self.model()));
                }
            },
            PdfObject::Null => {
                writer.push(110);
                writer.push(117);
                writer.push(108);
                writer.push(108);
                proof {
                    assert(writer@ =~= old(writer)@ + render_spec(self.model()));
                }
            },
        }
        proof {
            assert(writer@.len() == old(writer)@.len() + render_spec(self.model()).len());
        }
        writer.len() - start
    }
}

/// Appends the name-escaped bytes of a key.
fn push_name_escaped(writer: &mut Vec<u8>, s: &str) -> (count: usize)
    ensures
        final(writer)@ == old(writer)@ + escape_name_bytes(s.spec_bytes()),
        count == escape_name_bytes(s.spec_bytes()).len(),
{
    let bytes = s.as_bytes();
    let ghost kb = s.spec_bytes();
    let start = writer.len();
    let mut i: usize = 0;
    proof {
        assert(kb.subrange(0, 0) =~= Seq::<u8>::empty());
        assert(escape_name_bytes(Seq::<u8>::empty()) == Seq::<u8>::empty());
        assert(writer@ =~= old(writer)@ + escape_name_bytes(kb.subrange(0, 0)));
    }
    while i < bytes.len()
        invariant
            i <= kb.len(),
            bytes@ == kb,
            writer@ == old(writer)@ + escape_name_bytes(kb.subrange(0, i as int)),
        decreases kb.len() - i,
    {
        let b = bytes[i];
        if b == 32 {
            writer.push(35);
            writer.push(50);
            writer.push(48);
        } else if b == 40 {
            writer.push(35);
            writer.push(50);
            writer.push(56);
        } else if b == 41 {
            writer.push(35);
            writer.push(50);
            writer.push(57);
        } else {
            writer.push(b);
        }
        proof {
            lemma_escape_name_snoc(kb.subrange(0, i as int), b);
            assert(kb.subrange(0, i as int + 1) =~= kb.subrange(0, i as int).push(b));
            assert(writer@ =~= old(writer)@ + escape_name_bytes(kb.subrange(0, i as int + 1)));
        }
        i = i + 1;
    }
    proof {
        assert(kb.subrange(0, kb.len() as int) =~= kb);
    }
    writer.len() - start
}

/// Sorted insertion into an entry sequence: a new key lands at its ordered
/// position and an existing key has its value replaced in place.
pub open spec fn spec_dict_insert(
    s: Seq<(Seq<u8>, PdfModel)>,
    k: Seq<u8>,
    v: PdfModel,
) -> Seq<(Seq<u8>, PdfModel)>
    decreases s.len(),
{
    if s.len() == 0 {
        seq![(k, v)]
    } else if bytes_lt(k, s.first().0) {
        seq![(k, v)] + s
    } else if k == s.first().0 {
        seq![(k, v)] + s.drop_first()
    } else {
        seq![s.first()] + spec_dict_insert(s.drop_first(), k, v)
    }
}

/// The value stored at a key, if any.
pub open spec fn spec_dict_get(s: Seq<(Seq<u8>, PdfModel)>, k: Seq<u8>) -> Option<PdfModel>
    decreases s.len(),
{
    if s.len() == 0 {
        Option::None
    } else if s.first().0 == k {
        Option::Some(s.first().1)
    } else {
        spec_dict_get(s.drop_first(), k)
    }
}

/// At the ordered position `i`, sorted insertion is splice-in (new key) or
/// splice-over (existing key), and lookup reads entry `i` or nothing.
proof fn lemma_spec_insert_position(s: Seq<(Seq<u8>, PdfModel)>, k: Seq<u8>, v: PdfModel, i: int)
    requires
        entries_sorted(s),
        0 <= i <= s.len(),
        forall|j: int| 0 <= j < i ==> bytes_lt(#[trigger] s[j].0, k),
        i < s.len() ==> !bytes_lt(s[i].0, k),
    ensures
        i < s.len() && s[i].0 == k ==> spec_dict_insert(s, k, v) == s.take(i) + seq![(k, v)]
            + s.skip(i + 1) && spec_dict_get(s, k) == Option::Some(s[i].1),
        !(i < s.len() && s[i].0 == k) ==> spec_dict_insert(s, k, v) == s.take(i) + seq![(k, v)]
            + s.skip(i) && spec_dict_get(s, k) is None,
    decreases s.len(),
{
    lemma_bytes_lt_irrefl(k);
    if s.len() == 0 {
        assert(spec_dict_insert(s, k, v) =~= s.take(0) + seq![(k, v)] + s.skip(0));
    } else if i == 0 {
        lemma_bytes_lt_trichotomy(k, s.first().0);
        if s.first().0 == k {
            assert(spec_dict_insert(s, k, v) =~= s.take(0) + seq![(k, v)] + s.skip(1));
        } else {
            assert(bytes_lt(k, s.first().0));
            assert(spec_dict_insert(s, k, v) =~= s.take(0) + seq![(k, v)] + s.skip(0));
            assert(spec_dict_get(s, k) is None) by {
                lemma_get_none_when_lt(s, k);
            }
        }
    } else {
        assert(bytes_lt(s.first().0, k));
        lemma_bytes_lt_trichotomy(k, s.first().0);
        assert(s.first().0 != k);
        assert(!bytes_lt(k, s.first().0));
        let t = s.drop_first();
        assert(entries_sorted(t)) by {
            assert(forall|p: int, q: int|
                0 <= p < q < t.len() ==> t[p] == s[p + 1] && t[q] == s[q + 1]);
        }
        assert(forall|j: int| 0 <= j < i - 1 ==> bytes_lt(#[trigger] t[j].0, k)) by {
            assert(forall|j: int| 0 <= j < i - 1 ==> t[j] == s[j + 1]);
        }
        assert(i - 1 < t.len() ==> !bytes_lt(t[i - 1].0, k)) by {
            if i - 1 < t.len() {
                assert(t[i - 1] == s[i]);
            }
        }
        lemma_spec_insert_position(t, k, v, i - 1);
        if i < s.len() && s[i].0 == k {
            assert(t[i - 1] == s[i]);
            assert(spec_dict_insert(s, k, v) == seq![s.first()] + spec_dict_insert(t, k, v));
            assert(spec_dict_insert(t, k, v) == t.take(i - 1) + seq![(k, v)] + t.skip(i));
            assert(seq![s.first()] + (t.take(i - 1) + seq![(k, v)] + t.skip(i)) =~= s.take(i)
                + seq![(k, v)] + s.skip(i + 1));
        } else {
            assert(spec_dict_insert(t, k, v) == t.take(i - 1) + seq![(k, v)] + t.skip(i - 1));
            assert(seq![s.first()] + (t.take(i - 1) + seq![(k, v)] + t.skip(i - 1)) =~= s.take(i)
                + seq![(k, v)] + s.skip(i));
        }
    }
}

/// A key smaller than every entry is absent.
proof fn lemma_get_none_when_lt(s: Seq<(Seq<u8>, PdfModel)>, k: Seq<u8>)
    requires
        entries_sorted(s),
        s.len() > 0,
        bytes_lt(k, s.first().0),
    ensures
        spec_dict_get(s, k) is None,
    decreases s.len(),
{
    lemma_bytes_lt_trichotomy(k, s.first().0);
    assert(s.first().0 != k);
    if s.len() <= 1 {
        assert(s.drop_first().len() == 0);
        assert(spec_dict_get(s.drop_first(), k) is None);
    }
    if s.len() > 1 {
        let t = s.drop_first();
        assert(entries_sorted(t)) by {
            assert(forall|p: int, q: int|
                0 <= p < q < t.len() ==> t[p] == s[p + 1] && t[q] == s[q + 1]);
        }
        assert(bytes_lt(s[0].0, s[1].0));
        lemma_bytes_lt_trans(k, s.first().0, s[1].0);
        assert(t.first() == s[1]);
        lemma_get_none_when_lt(t, k);
    }
}

/// The spliced sequence around the ordered position stays strictly sorted.
proof fn lemma_splice_sorted(
    s: Seq<(Seq<u8>, PdfModel)>,
    k: Seq<u8>,
    v: PdfModel,
    i: int,
    replace: bool,
)
    requires
        entries_sorted(s),
        0 <= i <= s.len(),
        forall|j: int| 0 <= j < i ==> bytes_lt(#[trigger] s[j].0, k),
        replace ==> i < s.len() && s[i].0 == k,
        !replace && i < s.len() ==> bytes_lt(k, s[i].0),
    ensures
        replace ==> entries_sorted(s.take(i) + seq![(k, v)] + s.skip(i + 1)),
        !replace ==> entries_sorted(s.take(i) + seq![(k, v)] + s.skip(i)),
{
    if replace {
        let r = s.take(i) + seq![(k, v)] + s.skip(i + 1);
        assert forall|p: int, q: int| 0 <= p < q < r.len() implies bytes_lt(
            #[trigger] r[p].0,
            #[trigger] r[q].0,
        ) by {
            assert(r.len() == s.len());
            if p < i {
                assert(r[p] == s[p]);
            } else if p == i {
                assert(r[p].0 == k && k == s[i].0);
            } else {
                assert(r[p] == s[p]);
            }
            if q < i {
                assert(r[q] == s[q]);
            } else if q == i {
                assert(r[q].0 == k && k == s[i].0);
            } else {
                assert(r[q] == s[q]);
            }
            assert(bytes_lt(s[p].0, s[q].0));
        }
    } else {
        let r = s.take(i) + seq![(k, v)] + s.skip(i);
        assert forall|p: int, q: int| 0 <= p < q < r.len() implies bytes_lt(
            #[trigger] r[p].0,
            #[trigger] r[q].0,
        ) by {
            assert(r.len() == s.len() + 1);
            if p < i && q < i {
                assert(r[p] == s[p] && r[q] == s[q]);
            } else if p < i && q == i {
                assert(r[p] == s[p] && r[q].0 == k);
            } else if p < i && q > i {
                assert(r[p] == s[p] && r[q] == s[q - 1]);
                assert(p <= q - 1);
                if p < q - 1 {
                    assert(bytes_lt(s[p].0, s[q - 1].0));
                } else {
                    assert(bytes_lt(s[p].0, k));
                    assert(bytes_lt(k, s[q - 1].0) || q - 1 == i);
                    if q - 1 >= i + 0 {
                        if q - 1 == i {
                            assert(bytes_lt(k, s[i].0));
                            lemma_bytes_lt_trans(s[p].0, k, s[i].0);
                        } else {
                            assert(bytes_lt(s[p].0, s[q - 1].0));
                        }
                    }
                }
            } else if p == i && q > i {
                assert(r[p].0 == k && r[q] == s[q - 1]);
                if q - 1 == i {
                    assert(bytes_lt(k, s[i].0));
                } else {
                    assert(bytes_lt(k, s[i].0));
                    assert(bytes_lt(s[i].0, s[q - 1].0));
                    lemma_bytes_lt_trans(k, s[i].0, s[q - 1].0);
                }
            } else {
                assert(p > i && q > i);
                assert(r[p] == s[p - 1] && r[q] == s[q - 1]);
                assert(bytes_lt(s[p - 1].0, s[q - 1].0));
            }
        }
    }
}

impl Dict {
    /// Keys are strictly ascending: the canonical, insertion-order-free form.
    pub open spec fn wf(&self) -> bool {
        entries_sorted(self.model())
    }

    /// Creates an empty dictionary.
    pub fn new() -> (r: Dict)
        ensures
            r.wf(),
            r.model() == Seq::<(Seq<u8>, PdfModel)>::empty(),
    {
        let r = Dict { entries: Vec::new() };
        proof {
            assert(r.model() =~= Seq::<(Seq<u8>, PdfModel)>::empty());
        }
        r
    }

    /// The number of entries.
    pub fn len(&self) -> (n: usize)
        ensures
            n == self.model().len(),
    {
        proof {
            lemma_entry_models_of_index(self.entries@);
        }
        self.entries.len()
    }

    /// Inserts a key/value pair at its ordered position, replacing and
    /// returning the previous value if the key was already present.
    pub fn insert(&mut self, key: String, value: PdfObject) -> (prev: Option<PdfObject>)
        requires
            old(self).wf(),
        ensures
            final(self).wf(),
            final(self).model() == spec_dict_insert(
                old(self).model(),
                key_bytes(key),
                value.model(),
            ),
            match prev {
                Option::Some(p) => spec_dict_get(old(self).model(), key_bytes(key))
                    == Option::Some(p.model()),
                Option::None => spec_dict_get(old(self).model(), key_bytes(key)) is None,
            },
    {
        let ghost m0 = self.model();
        let ghost kb = key_bytes(key);
        let ghost vm = value.model();
        proof {
            lemma_entry_models_of_index(self.entries@);
        }
        let mut i: usize = 0;
        let mut stopped = false;
        while i < self.entries.len() && !stopped
            invariant
                kb == key_bytes(key),
                i <= self.entries@.len(),
                *self == *old(self),
                m0 == self.model(),
                m0.len() == self.entries@.len(),
                forall|j: int|
                    0 <= j < self.entries@.len() ==> m0[j] == (
                        key_bytes(#[trigger] self.entries@[j].0),
                        self.entries@[j].1.model(),
                    ),
                forall|j: int| 0 <= j < i ==> bytes_lt(#[trigger] m0[j].0, kb),
                stopped ==> i < self.entries@.len() && !bytes_lt(m0[i as int].0, kb),
            decreases self.entries@.len() - i + (if stopped {
                0int
            } else {
                1int
            }),
        {
            proof {
                assert(key_bytes(self.entries@[i as int].0) == m0[i as int].0);
            }
            let es = self.entries[i].0.as_str();
            let ks = key.as_str();
            let c = key_cmp(es, ks);
            proof {
                assert(es@ == self.entries@[i as int].0@);
                assert(es.spec_bytes() == vstd::utf8::encode_utf8(es@));
                assert(es.spec_bytes() == m0[i as int].0);
                assert(ks.spec_bytes() == vstd::utf8::encode_utf8(ks@));
                assert(ks.spec_bytes() == kb);
            }
            if c == -1 {
                i = i + 1;
            } else {
                stopped = true;
            }
        }
        proof {
            assert(i < self.entries@.len() ==> stopped);
        }
        let is_replace: bool = if i < self.entries.len() {
            let es = self.entries[i].0.as_str();
            let ks = key.as_str();
            let c = key_cmp(es, ks);
            proof {
                assert(es.spec_bytes() == vstd::utf8::encode_utf8(es@));
                assert(es.spec_bytes() == m0[i as int].0);
                assert(ks.spec_bytes() == vstd::utf8::encode_utf8(ks@));
                assert(ks.spec_bytes() == kb);
            }
            c == 0
        } else {
            false
        };
        proof {
            assert(is_replace == ((i as int) < m0.len() && m0[i as int].0 == kb));
            lemma_spec_insert_position(m0, kb, vm, i as int);
            if !is_replace && (i as int) < m0.len() {
                lemma_bytes_lt_trichotomy(kb, m0[i as int].0);
            }
            lemma_splice_sorted(m0, kb, vm, i as int, is_replace);
        }
        let ghost old_entries = self.entries@;
        if is_replace {
            let old_pair = self.entries.remove(i);
            self.entries.insert(i, (key, value));
            proof {
                lemma_entry_models_of_index(self.entries@);
                let t = m0.take(i as int) + seq![(kb, vm)] + m0.skip(i as int + 1);
                assert(self.entries@.len() == old_entries.len());
                assert forall|j: int| 0 <= j < self.entries@.len() implies entry_models_of(
                    self.entries@,
                )[j] == t[j] by {
                    assert(entry_models_of(self.entries@)[j] == (
                        key_bytes(self.entries@[j].0),
                        self.entries@[j].1.model(),
                    ));
                    if j < i as int {
                        assert(self.entries@[j] == old_entries[j]);
                        assert(m0[j] == (key_bytes(old_entries[j].0), old_entries[j].1.model()));
                        assert(t[j] == m0[j]);
                    } else if j == i as int {
                        assert(self.entries@[j] == (key, value));
                        assert(t[j] == (kb, vm));
                    } else {
                        assert(self.entries@[j] == old_entries[j]);
                        assert(m0[j] == (key_bytes(old_entries[j].0), old_entries[j].1.model()));
                        assert(t[j] == m0[j]);
                    }
                }
                assert(self.model() =~= t);
            }
            Option::Some(old_pair.1)
        } else {
            self.entries.insert(i, (key, value));
            proof {
                lemma_entry_models_of_index(self.entries@);
                let t = m0.take(i as int) + seq![(kb, vm)] + m0.skip(i as int);
                assert(self.entries@.len() == old_entries.len() + 1);
                assert forall|j: int| 0 <= j < self.entries@.len() implies entry_models_of(
                    self.entries@,
                )[j] == t[j] by {
                    assert(entry_models_of(self.entries@)[j] == (
                        key_bytes(self.entries@[j].0),
                        self.entries@[j].1.model(),
                    ));
                    if j < i as int {
                        assert(self.entries@[j] == old_entries[j]);
                        assert(m0[j] == (key_bytes(old_entries[j].0), old_entries[j].1.model()));
                        assert(t[j] == m0[j]);
                    } else if j == i as int {
                        assert(self.entries@[j] == (key, value));
                        assert(t[j] == (kb, vm));
                    } else {
                        assert(self.entries@[j] == old_entries[j - 1]);
                        assert(m0[j - 1] == (
                            key_bytes(old_entries[j - 1].0),
                            old_entries[j - 1].1.model(),
                        ));
                        assert(t[j] == m0[j - 1]);
                    }
                }
                assert(self.model() =~= t);
            }
            Option::None
        }
    }

    /// A deep copy with the same abstract value.
    pub fn duplicate(&self) -> (r: Dict)
        ensures
            r.model() == self.model(),
        decreases *self,
    {
        let mut entries: Vec<(String, PdfObject)> = Vec::new();
        let mut i: usize = 0;
        proof {
            lemma_entry_models_of_index(self.entries@);
        }
        while i < self.entries.len()
            invariant
                i <= self.entries@.len(),
                entry_models_of(entries@) == entry_models_of(self.entries@).take(i as int),
                forall|j: int|
                    0 <= j < self.entries@.len() ==> entry_models_of(self.entries@)[j] == (
                        key_bytes(#[trigger] self.entries@[j].0),
                        self.entries@[j].1.model(),
                    ),
                entry_models_of(self.entries@).len() == self.entries@.len(),
            decreases self.entries@.len() - i,
        {
            let ghost pre = entries@;
            proof {
                assert(decreases_to!(*self => self.entries));
                assert(decreases_to!(self.entries => self.entries@));
                assert(decreases_to!(self.entries@ => self.entries@[i as int]));
                assert(decreases_to!(self.entries@[i as int] => self.entries@[i as int].1));
            }
            let k2 = self.entries[i].0.clone();
            let v2 = self.entries[i].1.duplicate();
            entries.push((k2, v2));
            proof {
                lemma_entry_models_of_index(entries@);
                lemma_entry_models_of_index(pre);
                assert(entries@ == pre.push((k2, v2)));
                let t = entry_models_of(self.entries@).take(i as int + 1);
                assert forall|j: int| 0 <= j < entries@.len() implies entry_models_of(entries@)[j]
                    == t[j] by {
                    assert(entry_models_of(entries@)[j] == (
                        key_bytes(entries@[j].0),
                        entries@[j].1.model(),
                    ));
                    if j < i as int {
                        assert(entries@[j] == pre[j]);
                        assert(entry_models_of(pre)[j] == (
                            key_bytes(pre[j].0),
                            pre[j].1.model(),
                        ));
                        assert(entry_models_of(pre)[j] == entry_models_of(self.entries@).take(
                            i as int,
                        )[j]);
                        assert(t[j] == entry_models_of(self.entries@)[j]);
                    } else {
                        assert(entries@[j] == (k2, v2));
                        assert(key_bytes(k2) == key_bytes(self.entries@[i as int].0));
                        assert(t[j] == entry_models_of(self.entries@)[i as int]);
                        assert(entry_models_of(self.entries@)[i as int] == (
                            key_bytes(self.entries@[i as int].0),
                            self.entries@[i as int].1.model(),
                        ));
                    }
                }
                assert(entry_models_of(entries@) =~= t);
            }
            i = i + 1;
        }
        let r = Dict { entries };
        proof {
            assert(entry_models_of(self.entries@).take(self.entries@.len() as int)
                =~= entry_models_of(self.entries@));
        }
        r
    }
}

impl PdfObject {
    /// A deep copy with the same abstract value.
    pub fn duplicate(&self) -> (r: PdfObject)
        ensures
            r.model() == self.model(),
        decreases *self,
    {
        match self {
            PdfObject::Bool(b) => PdfObject::Bool(*b),
            PdfObject::Number(d) => PdfObject::Number(*d),
            PdfObject::String(s) => PdfObject::String(s.clone()),
            PdfObject::HexString(s) => PdfObject::HexString(s.clone()),
            PdfObject::Name(s) => PdfObject::Name(s.clone()),
            PdfObject::Array(a) => {
                let mut items: Vec<PdfObject> = Vec::new();
                let mut i: usize = 0;
                proof {
                    lemma_models_of_index(a@);
                }
                while i < a.len()
                    invariant
                        *self == PdfObject::Array(*a),
                        i <= a@.len(),
                        models_of(items@) == models_of(a@).take(i as int),
                        forall|j: int|
                            0 <= j < a@.len() ==> models_of(a@)[j] == #[trigger] a@[j].model(),
                        models_of(a@).len() == a@.len(),
                    decreases a@.len() - i,
                {
                    let ghost pre = items@;
                    proof {
                        assert(decreases_to!(*self => self->Array_0));
                        assert(self->Array_0 == *a);
                        assert(decreases_to!(*a => a@));
                        assert(decreases_to!(a@ => a@[i as int]));
                    }
                    let v2 = a[i].duplicate();
                    items.push(v2);
                    proof {
                        lemma_models_of_index(items@);
                        lemma_models_of_index(pre);
                        assert(items@ == pre.push(v2));
                        let t = models_of(a@).take(i as int + 1);
                        assert forall|j: int| 0 <= j < items@.len() implies models_of(items@)[j]
                            == t[j] by {
                            assert(models_of(items@)[j] == items@[j].model());
                            if j < i as int {
                                assert(items@[j] == pre[j]);
                                assert(models_of(pre)[j] == pre[j].model());
                                assert(models_of(pre)[j] == models_of(a@).take(i as int)[j]);
                                assert(t[j] == models_of(a@)[j]);
                            } else {
                                assert(items@[j] == v2);
                                assert(t[j] == models_of(a@)[i as int]);
                                assert(models_of(a@)[i as int] == a@[i as int].model());
                            }
                        }
                        assert(models_of(items@) =~= t);
                    }
                    i = i + 1;
                }
                proof {
                    assert(models_of(a@).take(a@.len() as int) =~= models_of(a@));
                }
                PdfObject::Array(items)
            },
            PdfObject::Dictionary(d) => {
                proof {
                    assert(decreases_to!(*self => self->Dictionary_0));
                    assert(self->Dictionary_0 == *d);
                }
                PdfObject::Dictionary(d.duplicate())
            },
            PdfObject::Stream(s) => {
                proof {
                    assert(decreases_to!(*self => self->Stream_0));
                    assert(self->Stream_0 == *s);
                }
                PdfObject::Stream(s.duplicate())
            },
            PdfObject::Raw(v) => {
                let mut bytes: Vec<u8> = Vec::new();
                let mut i: usize = 0;
                while i < v.len()
                    invariant
                        i <= v@.len(),
                        bytes@ == v@.subrange(0, i as int),
                    decreases v@.len() - i,
                {
                    bytes.push(v[i]);
                    proof {
                        assert(bytes@ =~= v@.subrange(0, i as int + 1));
                    }
                    i = i + 1;
                }
                proof {
                    assert(v@.subrange(0, v@.len() as int) =~= v@);
                }
                PdfObject::Raw(bytes)
            },
            PdfObject::Null => PdfObject::Null,
        }
    }
}

impl From<bool> for PdfObject {
    fn from(b: bool) -> (r: PdfObject) {
        PdfObject::Bool(b)
    }
}

impl vstd::std_specs::convert::FromSpecImpl<bool> for PdfObject {
    open spec fn obeys_from_spec() -> bool {
        true
    }

    open spec fn from_spec(b: bool) -> PdfObject {
        PdfObject::Bool(b)
    }
}

impl PdfObject {
    /// An integer-valued number object.
    pub fn from_int(n: i64) -> (r: PdfObject)
        ensures
            r.model() == PdfModel::Number((n as int, 0nat)),
    {
        PdfObject::Number(Decimal::from(n))
    }

    /// A non-negative integer-valued number object.
    pub fn from_usize(n: usize) -> (r: PdfObject)
        ensures
            r.model() == PdfModel::Number((n as int, 0nat)),
    {
        proof {
            crate::decimal::lemma_pow10_constants();
            assert(u64::MAX < crate::decimal::MANT_LIM) by {
                reveal_with_fuel(crate::decimal::pow10, 30);
            }
        }
        PdfObject::Number(Decimal::from_parts(n as i128, 0))
    }

    /// A literal string object.
    pub fn from_str_lit(s: &str) -> (r: PdfObject)
        ensures
            r.model() == PdfModel::Str(s.spec_bytes()),
    {
        PdfObject::String(s.to_owned())
    }

    /// Renders the value to a fresh byte vector and decodes it as text.
    pub fn to_string(&self) -> (r: String)
        ensures
            vstd::utf8::valid_utf8(render_spec(self.model())) ==> vstd::utf8::encode_utf8(r@)
                == render_spec(self.model()),
    {
        let mut bytes: Vec<u8> = Vec::new();
        self.render(&mut bytes);
        proof {
            assert(bytes@ =~= render_spec(self.model()));
        }
        crate::helpers::string_from_utf8_bytes(bytes)
    }
}

/// The number model a unit renders as: convert to points and keep exactly
/// five decimal places, normalized.
pub open spec fn pdf_num_m(tag_u: Unit, dm: (int, nat)) -> (int, nat) {
    crate::decimal::spec_normalize_m(
        crate::decimal::spec_rescale_m(
            crate::decimal::spec_mul_m(to_inch_m2(tag_u, dm), (72, 0nat)),
            5,
        ),
    )
}

/// The number model only depends on the value and the unit tag.
pub proof fn lemma_pdf_num_tag(a: Unit, b: Unit, dm: (int, nat))
    requires
        same_tag(a, b),
    ensures
        pdf_num_m(a, dm) == pdf_num_m(b, dm),
{
}

impl PdfObject {
    /// Converts the unit to a number object in points.
    pub fn from_unit(u: Unit) -> (r: PdfObject)
        requires
            unit_in_range(u),
        ensures
            r.model() == PdfModel::Number(pdf_num_m(u, dec_of(u).model())),
    {
        let pt = u.point();
        proof {
            crate::decimal::lemma_pow10_add(46, 4);
            crate::decimal::lemma_pow10_pos(4);
            assert(abs_int(dec_of(pt).val28()) <= pow10(50)) by (nonlinear_arith)
                requires
                    abs_int(dec_of(pt).val28()) <= abs_int(dec_of(u).val28()) * pow10(4),
                    0 <= abs_int(dec_of(u).val28()) <= pow10(46),
                    pow10(4) >= 1,
                    pow10(46) * pow10(4) == pow10(50),
            ;
        }
        PdfObject::Number(pt.real_value())
    }

    /// Converts the rectangle to an array of its lower-left and upper-right
    /// corners, in points.
    pub fn from_rect(rc: &Rect) -> (r: PdfObject)
        requires
            rect_in_range(*rc),
        ensures
            r.model() == PdfModel::Array(
                seq![
                    PdfModel::Number(pdf_num_m(rc.origin.x, dec_of(rc.origin.x).model())),
                    PdfModel::Number(pdf_num_m(rc.origin.y, dec_of(rc.origin.y).model())),
                    PdfModel::Number(
                        pdf_num_m(rc.origin.x, spec_add_m_of_units(rc.origin.x, rc.size.width)),
                    ),
                    PdfModel::Number(
                        pdf_num_m(rc.origin.y, spec_add_m_of_units(rc.origin.y, rc.size.height)),
                    ),
                ],
            ),
    {
        proof {
            lemma_rect_units_in_range(*rc);
        }
        let e1 = PdfObject::from_unit(rc.min_x());
        let e2 = PdfObject::from_unit(rc.min_y());
        let mx = rc.max_x();
        let my = rc.max_y();
        let e3 = PdfObject::from_unit(mx);
        let e4 = PdfObject::from_unit(my);
        proof {
            lemma_pdf_num_tag(mx, rc.origin.x, dec_of(mx).model());
            lemma_pdf_num_tag(my, rc.origin.y, dec_of(my).model());
        }
        let mut items: Vec<PdfObject> = Vec::new();
        items.push(e1);
        items.push(e2);
        items.push(e3);
        items.push(e4);
        let r = PdfObject::Array(items);
        proof {
            lemma_models_of_index(items@);
            assert(models_of(items@) =~= seq![
                items@[0].model(),
                items@[1].model(),
                items@[2].model(),
                items@[3].model(),
            ]);
        }
        r
    }
}

/// Byte string equality.
pub fn bytes_eq(a: &[u8], b: &[u8]) -> (r: bool)
    ensures
        r == (a@ == b@),
{
    let c = bytes_cmp(a, b);
    c == 0
}

/// Appends a literal string: `(` + escaped bytes + `)`.
pub fn push_literal_string(writer: &mut Vec<u8>, s: &str) -> (count: usize)
    ensures
        final(writer)@ == old(writer)@ + seq![40u8] + escape_string_bytes(s.spec_bytes()) + seq![
            41u8,
        ],
{
    let start = writer.len();
    writer.push(40);
    let bytes = s.as_bytes();
    let ghost kb = s.spec_bytes();
    let mut i: usize = 0;
    proof {
        assert(kb.subrange(0, 0) =~= Seq::<u8>::empty());
        assert(escape_string_bytes(Seq::<u8>::empty()) == Seq::<u8>::empty());
        assert(writer@ =~= old(writer)@ + seq![40u8] + escape_string_bytes(kb.subrange(0, 0)));
    }
    while i < bytes.len()
        invariant
            i <= kb.len(),
            bytes@ == kb,
            writer@ == old(writer)@ + seq![40u8] + escape_string_bytes(kb.subrange(0, i as int)),
        decreases kb.len() - i,
    {
        let b = bytes[i];
        if b == 40 || b == 41 || b == 92 {
            writer.push(92);
            writer.push(b);
        } else {
            writer.push(b);
        }
        proof {
            lemma_escape_string_snoc(kb.subrange(0, i as int), b);
            assert(kb.subrange(0, i as int + 1) =~= kb.subrange(0, i as int).push(b));
            assert(writer@ =~= old(writer)@ + seq![40u8] + escape_string_bytes(
                kb.subrange(0, i as int + 1),
            ));
        }
        i = i + 1;
    }
    writer.push(41);
    proof {
        assert(kb.subrange(0, kb.len() as int) =~= kb);
        assert(writer@ =~= old(writer)@ + seq![40u8] + escape_string_bytes(kb) + seq![41u8]);
    }
    writer.len() - start
}

/// Appending an object extends the model sequence by its model.
pub proof fn lemma_models_of_snoc(s: Seq<PdfObject>, x: PdfObject)
    ensures
        models_of(s.push(x)) == models_of(s) + seq![x.model()],
    decreases s.len(),
{
    if s.len() == 0 {
        assert(s.push(x).first() == x);
        assert(s.push(x).drop_first() =~= Seq::<PdfObject>::empty());
        assert(models_of(Seq::<PdfObject>::empty()) == Seq::<PdfModel>::empty());
        assert(models_of(s.push(x)) =~= models_of(s) + seq![x.model()]);
    } else {
        assert(s.push(x).drop_first() =~= s.drop_first().push(x));
        lemma_models_of_snoc(s.drop_first(), x);
        assert(models_of(s.push(x)) =~= models_of(s) + seq![x.model()]);
    }
}

/// Builds a key string from its ASCII bytes.
pub(crate) fn ascii_key(bytes: &[u8]) -> (r: String)
    requires
        forall|i: int| 0 <= i < bytes@.len() ==> #[trigger] bytes@[i] < 128,
    ensures
        key_bytes(r) == bytes@,
{
    let mut kv: Vec<u8> = Vec::new();
    crate::helpers::write_all_count(&mut kv, bytes);
    proof {
        assert(kv@ =~= bytes@);
        crate::helpers::lemma_ascii_valid_utf8(kv@);
    }
    crate::helpers::string_from_utf8_bytes(kv)
}

/// Dictionary building is key-order-independent: inserting two distinct
/// keys in either order yields the same canonical entry sequence, and
/// therefore identical rendered bytes, always ascending by key.
pub proof fn lemma_dict_insert_commutes(
    s: Seq<(Seq<u8>, PdfModel)>,
    k1: Seq<u8>,
    v1: PdfModel,
    k2: Seq<u8>,
    v2: PdfModel,
)
    requires
        k1 != k2,
    ensures
        spec_dict_insert(spec_dict_insert(s, k1, v1), k2, v2) == spec_dict_insert(
            spec_dict_insert(s, k2, v2),
            k1,
            v1,
        ),
    decreases s.len(),
{
    lemma_bytes_lt_trichotomy(k1, k2);
    if s.len() == 0 {
        lemma_insert_commutes_base(k1, v1, k2, v2);
    } else {
        let f = s.first();
        lemma_bytes_lt_trichotomy(k1, f.0);
        lemma_bytes_lt_trichotomy(k2, f.0);
        if !bytes_lt(k1, f.0) && k1 != f.0 && !bytes_lt(k2, f.0) && k2 != f.0 {
            lemma_dict_insert_commutes(s.drop_first(), k1, v1, k2, v2);
            assert(spec_dict_insert(s, k1, v1) == seq![f] + spec_dict_insert(
                s.drop_first(),
                k1,
                v1,
            ));
            assert(spec_dict_insert(s, k2, v2) == seq![f] + spec_dict_insert(
                s.drop_first(),
                k2,
                v2,
            ));
            assert((seq![f] + spec_dict_insert(s.drop_first(), k1, v1)).drop_first()
                =~= spec_dict_insert(s.drop_first(), k1, v1));
            assert((seq![f] + spec_dict_insert(s.drop_first(), k2, v2)).drop_first()
                =~= spec_dict_insert(s.drop_first(), k2, v2));
            assert((seq![f] + spec_dict_insert(s.drop_first(), k1, v1)).first() == f);
            assert((seq![f] + spec_dict_insert(s.drop_first(), k2, v2)).first() == f);
            assert(spec_dict_insert(spec_dict_insert(s, k1, v1), k2, v2) =~= seq![f]
                + spec_dict_insert(spec_dict_insert(s.drop_first(), k1, v1), k2, v2));
            assert(spec_dict_insert(spec_dict_insert(s, k2, v2), k1, v1) =~= seq![f]
                + spec_dict_insert(spec_dict_insert(s.drop_first(), k2, v2), k1, v1));
        } else if bytes_lt(k1, f.0) || k1 == f.0 {
            lemma_insert_two_small(s, k1, v1, k2, v2);
        } else {
            lemma_insert_two_small(s, k2, v2, k1, v1);
        }
    }
}

/// Both insertion orders into an empty dictionary agree.
proof fn lemma_insert_commutes_base(k1: Seq<u8>, v1: PdfModel, k2: Seq<u8>, v2: PdfModel)
    requires
        k1 != k2,
    ensures
        spec_dict_insert(spec_dict_insert(Seq::empty(), k1, v1), k2, v2) == spec_dict_insert(
            spec_dict_insert(Seq::empty(), k2, v2),
            k1,
            v1,
        ),
{
    lemma_bytes_lt_trichotomy(k1, k2);
    let e = Seq::<(Seq<u8>, PdfModel)>::empty();
    let s1 = spec_dict_insert(e, k1, v1);
    let s2 = spec_dict_insert(e, k2, v2);
    assert(s1 =~= seq![(k1, v1)]);
    assert(s2 =~= seq![(k2, v2)]);
    assert(s1.first() == (k1, v1));
    assert(s2.first() == (k2, v2));
    assert(s1.drop_first() =~= e);
    assert(s2.drop_first() =~= e);
    let a = spec_dict_insert(s1, k2, v2);
    let b = spec_dict_insert(s2, k1, v1);
    if bytes_lt(k1, k2) {
        assert(a == seq![s1.first()] + spec_dict_insert(s1.drop_first(), k2, v2));
        assert(spec_dict_insert(s1.drop_first(), k2, v2) =~= seq![(k2, v2)]);
        assert(a =~= seq![(k1, v1), (k2, v2)]);
        assert(b == seq![(k1, v1)] + s2);
        assert(b =~= seq![(k1, v1), (k2, v2)]);
    } else {
        assert(bytes_lt(k2, k1));
        assert(b == seq![s2.first()] + spec_dict_insert(s2.drop_first(), k1, v1));
        assert(spec_dict_insert(s2.drop_first(), k1, v1) =~= seq![(k1, v1)]);
        assert(b =~= seq![(k2, v2), (k1, v1)]);
        assert(a == seq![(k2, v2)] + s1);
        assert(a =~= seq![(k2, v2), (k1, v1)]);
    }
}

/// When one of the keys lands at or before the head, both orders agree.
proof fn lemma_insert_two_small(
    s: Seq<(Seq<u8>, PdfModel)>,
    ka: Seq<u8>,
    va: PdfModel,
    kb: Seq<u8>,
    vb: PdfModel,
)
    requires
        ka != kb,
        s.len() > 0,
        bytes_lt(ka, s.first().0) || ka == s.first().0,
    ensures
        spec_dict_insert(spec_dict_insert(s, ka, va), kb, vb) == spec_dict_insert(
            spec_dict_insert(s, kb, vb),
            ka,
            va,
        ),
    decreases s.len(),
{
    let f = s.first();
    lemma_bytes_lt_trichotomy(ka, kb);
    lemma_bytes_lt_trichotomy(ka, f.0);
    lemma_bytes_lt_trichotomy(kb, f.0);
    if bytes_lt(ka, f.0) {
        let a1 = seq![(ka, va)] + s;
        assert(spec_dict_insert(s, ka, va) == a1);
        assert(a1.first() == (ka, va));
        assert(a1.drop_first() =~= s);
        if bytes_lt(kb, ka) {
            assert(spec_dict_insert(a1, kb, vb) =~= seq![(kb, vb)] + a1);
            let b1 = spec_dict_insert(s, kb, vb);
            lemma_bytes_lt_trans(kb, ka, f.0);
            assert(b1 == seq![(kb, vb)] + s);
            assert(spec_dict_insert(b1, ka, va) =~= seq![(kb, vb)] + (seq![(ka, va)] + s)) by {
                assert(b1.first() == (kb, vb));
                assert(b1.drop_first() =~= s);
                assert(!bytes_lt(ka, kb));
                assert(spec_dict_insert(b1, ka, va) == seq![b1.first()] + spec_dict_insert(
                    b1.drop_first(),
                    ka,
                    va,
                ));
            }
            assert(seq![(kb, vb)] + a1 =~= seq![(kb, vb)] + (seq![(ka, va)] + s));
        } else if kb == ka {
        } else {
            assert(bytes_lt(ka, kb));
            assert(spec_dict_insert(a1, kb, vb) == seq![(ka, va)] + spec_dict_insert(s, kb, vb));
            let b1 = spec_dict_insert(s, kb, vb);
            if bytes_lt(kb, f.0) || kb == f.0 {
                assert(b1.first() == (kb, vb) || b1.first() == f);
            }
            assert(spec_dict_insert(b1, ka, va) =~= seq![(ka, va)] + b1) by {
                lemma_insert_head_key(s, kb, vb, ka, va);
            }
            assert(seq![(ka, va)] + spec_dict_insert(s, kb, vb) =~= seq![(ka, va)] + b1);
        }
    } else {
        assert(ka == f.0);
        let a1 = seq![(ka, va)] + s.drop_first();
        assert(spec_dict_insert(s, ka, va) == a1);
        assert(a1.first() == (ka, va));
        assert(a1.drop_first() =~= s.drop_first());
        if bytes_lt(kb, ka) {
            assert(spec_dict_insert(a1, kb, vb) =~= seq![(kb, vb)] + a1);
            let b1 = spec_dict_insert(s, kb, vb);
            assert(b1 == seq![(kb, vb)] + s);
            assert(b1.first() == (kb, vb));
            assert(b1.drop_first() =~= s);
            assert(spec_dict_insert(b1, ka, va) == seq![(kb, vb)] + spec_dict_insert(s, ka, va));
            assert(spec_dict_insert(b1, ka, va) =~= seq![(kb, vb)] + a1);
        } else {
            assert(bytes_lt(ka, kb));
            assert(spec_dict_insert(a1, kb, vb) == seq![(ka, va)] + spec_dict_insert(
                a1.drop_first(),
                kb,
                vb,
            ));
            assert(spec_dict_insert(s, kb, vb) == seq![f] + spec_dict_insert(
                s.drop_first(),
                kb,
                vb,
            ));
            let b1 = seq![f] + spec_dict_insert(s.drop_first(), kb, vb);
            assert(b1.first() == f);
            assert(b1.drop_first() =~= spec_dict_insert(s.drop_first(), kb, vb));
            assert(spec_dict_insert(b1, ka, va) == seq![(ka, va)] + spec_dict_insert(
                s.drop_first(),
                kb,
                vb,
            ));
            assert(spec_dict_insert(a1, kb, vb) =~= spec_dict_insert(b1, ka, va));
        }
    }
}

/// Inserting a strictly smaller key in front of an inserted list prepends.
proof fn lemma_insert_head_key(
    s: Seq<(Seq<u8>, PdfModel)>,
    kb: Seq<u8>,
    vb: PdfModel,
    ka: Seq<u8>,
    va: PdfModel,
)
    requires
        s.len() > 0,
        bytes_lt(ka, s.first().0),
        bytes_lt(ka, kb),
    ensures
        spec_dict_insert(spec_dict_insert(s, kb, vb), ka, va) == seq![(ka, va)] + spec_dict_insert(
            s,
            kb,
            vb,
        ),
{
    let b1 = spec_dict_insert(s, kb, vb);
    lemma_insert_first_ge(s, kb, vb);
    assert(b1.len() > 0);
    assert(b1.first().0 == kb || b1.first().0 == s.first().0);
    assert(bytes_lt(ka, b1.first().0));
    assert(spec_dict_insert(b1, ka, va) == seq![(ka, va)] + b1);
}

/// The head of an inserted list is the new key or the old head.
proof fn lemma_insert_first_ge(s: Seq<(Seq<u8>, PdfModel)>, kb: Seq<u8>, vb: PdfModel)
    requires
        s.len() > 0,
    ensures
        spec_dict_insert(s, kb, vb).len() > 0,
        spec_dict_insert(s, kb, vb).first().0 == kb || spec_dict_insert(s, kb, vb).first().0
            == s.first().0,
{
    lemma_bytes_lt_trichotomy(kb, s.first().0);
}

} // verus!
