//! Stream objects: a binary payload with the filter chain a reader must
//! apply to decode it, plus the dictionary entries describing the payload.

use vstd::prelude::*;
use super::{render_spec, spec_dict_insert, Dict, PdfModel, PdfObject};
use crate::error::PdfError;

verus! {

/// Standard filters for stream data.
#[derive(Debug, Clone, Copy, PartialEq, Eq, Structural)]
pub enum Filter {
    ASCIIHexDecode,
    ASCII85Decode,
    LZWDecode,
    FlateDecode,
    RunLengthDecode,
    CCITTFaxDecode,
    JBIG2Decode,
    DCTDecode,
    JPXDecode,
    Crypt,
}

/// One filter together with the parameter dictionary its decoder needs.
#[derive(Debug)]
pub struct FilterData {
    pub filter: Filter,
    pub decode_params: Dict,
}

/// The abstract value of one filter entry.
pub struct FilterModel {
    pub filter: Filter,
    pub decode_params: Seq<(Seq<u8>, PdfModel)>,
}

impl FilterData {
    /// The abstract value of this filter entry.
    pub open spec fn model(&self) -> FilterModel
        decreases *self,
    {
        FilterModel { filter: self.filter, decode_params: self.decode_params.model() }
    }
}

/// The models of a sequence of filter entries, elementwise.
pub open spec fn filter_models_of(s: Seq<FilterData>) -> Seq<FilterModel>
    decreases s,
{
    if s.len() == 0 {
        Seq::empty()
    } else {
        seq![s.first().model()] + filter_models_of(s.drop_first())
    }
}

/// A stream: binary payload, its declared length, the dictionary entries
/// describing it, and the filter chain needed to decode the payload.
#[derive(Debug)]
pub struct StreamData {
    pub length: usize,
    pub dict: Dict,
    pub filter_data: Vec<FilterData>,
    pub data: Vec<u8>,
}

/// The abstract value of a stream.
pub struct StreamModel {
    pub length: nat,
    pub dict: Seq<(Seq<u8>, PdfModel)>,
    pub filters: Seq<FilterModel>,
    pub data: Seq<u8>,
}

impl StreamData {
    /// The abstract value of this stream.
    pub open spec fn model(&self) -> StreamModel
        decreases *self,
    {
        StreamModel {
            length: self.length as nat,
            dict: self.dict.model(),
            filters: filter_models_of(self.filter_data@),
            data: self.data@,
        }
    }
}

impl FilterData {
    /// A deep copy with the same abstract value.
    pub fn duplicate(&self) -> (r: FilterData)
        ensures
            r.model() == self.model(),
        decreases *self,
    {
        FilterData { filter: self.filter, decode_params: self.decode_params.duplicate() }
    }
}

impl StreamData {
    /// A deep copy with the same abstract value.
    pub fn duplicate(&self) -> (r: StreamData)
        ensures
            r.model() == self.model(),
        decreases *self,
    {
        let mut filters: Vec<FilterData> = Vec::new();
        let mut i: usize = 0;
        proof {
            lemma_filter_models_of_index(self.filter_data@);
        }
        while i < self.filter_data.len()
            invariant
                i <= self.filter_data@.len(),
                filter_models_of(filters@) == filter_models_of(self.filter_data@).take(i as int),
                forall|j: int|
                    0 <= j < self.filter_data@.len() ==> filter_models_of(self.filter_data@)[j]
                        == #[trigger] self.filter_data@[j].model(),
                filter_models_of(self.filter_data@).len() == self.filter_data@.len(),
            decreases self.filter_data@.len() - i,
        {
            let ghost pre = filters@;
            proof {
                assert(decreases_to!(*self => self.filter_data));
                assert(decreases_to!(self.filter_data => self.filter_data@));
                assert(decreases_to!(self.filter_data@ => self.filter_data@[i as int]));
            }
            let f2 = self.filter_data[i].duplicate();
            filters.push(f2);
            proof {
                lemma_filter_models_of_index(filters@);
                lemma_filter_models_of_index(pre);
                assert(filters@ == pre.push(f2));
                let t = filter_models_of(self.filter_data@).take(i as int + 1);
                assert forall|j: int| 0 <= j < filters@.len() implies filter_models_of(filters@)[j]
                    == t[j] by {
                    assert(filter_models_of(filters@)[j] == filters@[j].model());
                    if j < i as int {
                        assert(filters@[j] == pre[j]);
                        assert(filter_models_of(pre)[j] == pre[j].model());
                        assert(filter_models_of(pre)[j] == filter_models_of(
                            self.filter_data@,
                        ).take(i as int)[j]);
                        assert(t[j] == filter_models_of(self.filter_data@)[j]);
                    } else {
                        assert(filters@[j] == f2);
                        assert(t[j] == filter_models_of(self.filter_data@)[i as int]);
                        assert(filter_models_of(self.filter_data@)[i as int] == self.filter_data@[
                            i as int
                        ].model());
                    }
                }
                assert(filter_models_of(filters@) =~= t);
            }
            i = i + 1;
        }
        let mut data: Vec<u8> = Vec::new();
        let mut j: usize = 0;
        while j < self.data.len()
            invariant
                j <= self.data@.len(),
                data@ == self.data@.subrange(0, j as int),
            decreases self.data@.len() - j,
        {
            data.push(self.data[j]);
            proof {
                assert(data@ =~= self.data@.subrange(0, j as int + 1));
            }
            j = j + 1;
        }
        proof {
            assert(self.data@.subrange(0, self.data@.len() as int) =~= self.data@);
            assert(filter_models_of(self.filter_data@).take(self.filter_data@.len() as int)
                =~= filter_models_of(self.filter_data@));
        }
        StreamData {
            length: self.length,
            dict: self.dict.duplicate(),
            filter_data: filters,
            data,
        }
    }
}

/// Filter model sequences are elementwise models.
pub proof fn lemma_filter_models_of_index(s: Seq<FilterData>)
    ensures
        filter_models_of(s).len() == s.len(),
        forall|i: int| 0 <= i < s.len() ==> filter_models_of(s)[i] == #[trigger] s[i].model(),
    decreases s,
{
    if s.len() > 0 {
        lemma_filter_models_of_index(s.drop_first());
        assert forall|i: int|
            0 <= i < s.len() implies filter_models_of(s)[i] == #[trigger] s[i].model() by {
            if i > 0 {
                assert(s.drop_first()[i - 1] == s[i]);
            }
        }
    }
}

/// The textual name of a filter.
pub open spec fn filter_name_bytes(f: Filter) -> Seq<u8> {
    match f {
        Filter::ASCIIHexDecode => seq![
            65u8, 83u8, 67u8, 73u8, 73u8, 72u8, 101u8, 120u8, 68u8, 101u8, 99u8, 111u8, 100u8,
            101u8,
        ],
        Filter::ASCII85Decode => seq![
            65u8, 83u8, 67u8, 73u8, 73u8, 56u8, 53u8, 68u8, 101u8, 99u8, 111u8, 100u8, 101u8,
        ],
        Filter::LZWDecode => seq![76u8, 90u8, 87u8, 68u8, 101u8, 99u8, 111u8, 100u8, 101u8],
        Filter::FlateDecode => seq![
            70u8, 108u8, 97u8, 116u8, 101u8, 68u8, 101u8, 99u8, 111u8, 100u8, 101u8,
        ],
        Filter::RunLengthDecode => seq![
            82u8, 117u8, 110u8, 76u8, 101u8, 110u8, 103u8, 116u8, 104u8, 68u8, 101u8, 99u8, 111u8,
            100u8, 101u8,
        ],
        Filter::CCITTFaxDecode => seq![
            67u8, 67u8, 73u8, 84u8, 84u8, 70u8, 97u8, 120u8, 68u8, 101u8, 99u8, 111u8, 100u8,
            101u8,
        ],
        Filter::JBIG2Decode => seq![
            74u8, 66u8, 73u8, 71u8, 50u8, 68u8, 101u8, 99u8, 111u8, 100u8, 101u8,
        ],
        Filter::DCTDecode => seq![68u8, 67u8, 84u8, 68u8, 101u8, 99u8, 111u8, 100u8, 101u8],
        Filter::JPXDecode => seq![74u8, 80u8, 88u8, 68u8, 101u8, 99u8, 111u8, 100u8, 101u8],
        Filter::Crypt => seq![67u8, 114u8, 121u8, 112u8, 116u8],
    }
}

impl Filter {
    /// Appends the filter's name bytes.
    pub fn push_name(&self, out: &mut Vec<u8>) -> (count: usize)
        ensures
            final(out)@ == old(out)@ + filter_name_bytes(*self),
            count == filter_name_bytes(*self).len(),
    {
        let start = out.len();
        let g: &[u8] = match self {
            Filter::ASCIIHexDecode => &[65, 83, 67, 73, 73, 72, 101, 120, 68, 101, 99, 111, 100, 101],
            Filter::ASCII85Decode => &[65, 83, 67, 73, 73, 56, 53, 68, 101, 99, 111, 100, 101],
            Filter::LZWDecode => &[76, 90, 87, 68, 101, 99, 111, 100, 101],
            Filter::FlateDecode => &[70, 108, 97, 116, 101, 68, 101, 99, 111, 100, 101],
            Filter::RunLengthDecode => &[
                82, 117, 110, 76, 101, 110, 103, 116, 104, 68, 101, 99, 111, 100, 101,
            ],
            Filter::CCITTFaxDecode => &[67, 67, 73, 84, 84, 70, 97, 120, 68, 101, 99, 111, 100, 101],
            Filter::JBIG2Decode => &[74, 66, 73, 71, 50, 68, 101, 99, 111, 100, 101],
            Filter::DCTDecode => &[68, 67, 84, 68, 101, 99, 111, 100, 101],
            Filter::JPXDecode => &[74, 80, 88, 68, 101, 99, 111, 100, 101],
            Filter::Crypt => &[67, 114, 121, 112, 116],
        };
        crate::helpers::write_all_count(out, g);
        proof {
            assert(out@ =~= old(out)@ + filter_name_bytes(*self));
        }
        out.len() - start
    }

    /// The filter's name as text.
    pub fn to_string(&self) -> (r: String)
        ensures
            vstd::utf8::encode_utf8(r@) == filter_name_bytes(*self),
    {
        let mut bytes: Vec<u8> = Vec::new();
        self.push_name(&mut bytes);
        proof {
            assert(forall|i: int|
                0 <= i < filter_name_bytes(*self).len() ==> #[trigger] filter_name_bytes(*self)[i]
                    < 128);
            crate::helpers::lemma_ascii_valid_utf8(bytes@);
        }
        crate::helpers::string_from_utf8_bytes(bytes)
    }
}

impl FilterData {
    /// A bare ASCII-85 filter entry with no parameters.
    pub fn new_ascii85() -> (r: FilterData)
        ensures
            r.model().filter == Filter::ASCII85Decode,
            r.model().decode_params == Seq::<(Seq<u8>, PdfModel)>::empty(),
    {
        FilterData { filter: Filter::ASCII85Decode, decode_params: Dict::new() }
    }

    /// A filter entry for image data with an empty parameter dictionary.
    pub fn new_image(filter: Filter) -> (r: FilterData)
        ensures
            r.model().filter == filter,
            r.model().decode_params == Seq::<(Seq<u8>, PdfModel)>::empty(),
    {
        FilterData { filter, decode_params: Dict::new() }
    }
}

/// The `Length` key bytes.
pub open spec fn length_key() -> Seq<u8> {
    seq![76u8, 101u8, 110u8, 103u8, 116u8, 104u8]
}

/// The `Filter` key bytes.
pub open spec fn filter_key() -> Seq<u8> {
    seq![70u8, 105u8, 108u8, 116u8, 101u8, 114u8]
}

/// The `DecodeParms` key bytes.
pub open spec fn decode_parms_key() -> Seq<u8> {
    seq![68u8, 101u8, 99u8, 111u8, 100u8, 101u8, 80u8, 97u8, 114u8, 109u8, 115u8]
}

/// The filter chain as an array of name values.
pub open spec fn filter_names_m(fs: Seq<FilterModel>) -> Seq<PdfModel>
    decreases fs.len(),
{
    if fs.len() == 0 {
        Seq::empty()
    } else {
        seq![PdfModel::Name(filter_name_bytes(fs.first().filter))] + filter_names_m(
            fs.drop_first(),
        )
    }
}

/// The filter parameters as an array of dictionary values.
pub open spec fn filter_params_m(fs: Seq<FilterModel>) -> Seq<PdfModel>
    decreases fs.len(),
{
    if fs.len() == 0 {
        Seq::empty()
    } else {
        seq![PdfModel::Dict(fs.first().decode_params)] + filter_params_m(fs.drop_first())
    }
}

/// The dictionary a stream writes: the base entries plus its declared
/// length, filter chain and decode parameters.
pub open spec fn stream_dict_m(s: StreamModel) -> Seq<(Seq<u8>, PdfModel)> {
    let d1 = spec_dict_insert(s.dict, length_key(), PdfModel::Number((s.length as int, 0nat)));
    let d2 = spec_dict_insert(d1, filter_key(), PdfModel::Array(filter_names_m(s.filters)));
    spec_dict_insert(d2, decode_parms_key(), PdfModel::Array(filter_params_m(s.filters)))
}

/// The exact bytes a stream renders as: its dictionary, then the payload
/// between the stream delimiters.
pub open spec fn stream_bytes(s: StreamModel) -> Seq<u8> {
    render_spec(PdfModel::Dict(stream_dict_m(s))) + seq![
        10u8, 115u8, 116u8, 114u8, 101u8, 97u8, 109u8, 10u8,
    ] + s.data + seq![10u8, 101u8, 110u8, 100u8, 115u8, 116u8, 114u8, 101u8, 97u8, 109u8]
}

/// Appending a filter extends the name array by its name.
proof fn lemma_filter_names_snoc(fs: Seq<FilterModel>, x: FilterModel)
    ensures
        filter_names_m(fs.push(x)) == filter_names_m(fs) + seq![
            PdfModel::Name(filter_name_bytes(x.filter)),
        ],
    decreases fs.len(),
{
    if fs.len() == 0 {
        assert(fs.push(x).first() == x);
        assert(fs.push(x).drop_first() =~= Seq::<FilterModel>::empty());
        assert(filter_names_m(Seq::<FilterModel>::empty()) == Seq::<PdfModel>::empty());
        assert(filter_names_m(fs.push(x)) =~= filter_names_m(fs) + seq![
            PdfModel::Name(filter_name_bytes(x.filter)),
        ]);
    } else {
        assert(fs.push(x).drop_first() =~= fs.drop_first().push(x));
        lemma_filter_names_snoc(fs.drop_first(), x);
        assert(filter_names_m(fs.push(x)) =~= filter_names_m(fs) + seq![
            PdfModel::Name(filter_name_bytes(x.filter)),
        ]);
    }
}

/// Appending a filter extends the parameter array by its dictionary.
proof fn lemma_filter_params_snoc(fs: Seq<FilterModel>, x: FilterModel)
    ensures
        filter_params_m(fs.push(x)) == filter_params_m(fs) + seq![
            PdfModel::Dict(x.decode_params),
        ],
    decreases fs.len(),
{
    if fs.len() == 0 {
        assert(fs.push(x).first() == x);
        assert(fs.push(x).drop_first() =~= Seq::<FilterModel>::empty());
        assert(filter_params_m(Seq::<FilterModel>::empty()) == Seq::<PdfModel>::empty());
        assert(filter_params_m(fs.push(x)) =~= filter_params_m(fs) + seq![
            PdfModel::Dict(x.decode_params),
        ]);
    } else {
        assert(fs.push(x).drop_first() =~= fs.drop_first().push(x));
        lemma_filter_params_snoc(fs.drop_first(), x);
        assert(filter_params_m(fs.push(x)) =~= filter_params_m(fs) + seq![
            PdfModel::Dict(x.decode_params),
        ]);
    }
}

impl StreamData {
    /// Writes the stream: its dictionary augmented with `Length`, `Filter`
    /// and `DecodeParms`, then the payload between the stream delimiters.
    #[verifier::rlimit(100)]
    pub fn render_stream(&self, writer: &mut Vec<u8>) -> (count: usize)
        requires
            super::entries_sorted(self.dict.model()),
        ensures
            final(writer)@ == old(writer)@ + stream_bytes(self.model()),
            count == stream_bytes(self.model()).len(),
    {
        let start = writer.len();
        let mut dict = self.dict.duplicate();
        let mut names: Vec<PdfObject> = Vec::new();
        let mut parms: Vec<PdfObject> = Vec::new();
        let ghost fsm = self.model().filters;
        proof {
            lemma_filter_models_of_index(self.filter_data@);
            assert(fsm.take(0) =~= Seq::<FilterModel>::empty());
        }
        let mut i: usize = 0;
        while i < self.filter_data.len()
            invariant
                i <= self.filter_data@.len(),
                fsm == filter_models_of(self.filter_data@),
                fsm.len() == self.filter_data@.len(),
                forall|j: int|
                    0 <= j < fsm.len() ==> fsm[j] == #[trigger] self.filter_data@[j].model(),
                super::models_of(names@) == filter_names_m(fsm.take(i as int)),
                super::models_of(parms@) == filter_params_m(fsm.take(i as int)),
            decreases self.filter_data@.len() - i,
        {
            let ghost pre_n = names@;
            let ghost pre_p = parms@;
            let n_s = self.filter_data[i].filter.to_string();
            proof {
                assert(super::key_bytes(n_s) == filter_name_bytes(
                    self.filter_data@[i as int].filter,
                ));
            }
            let n_obj = PdfObject::Name(n_s);
            let p_obj = PdfObject::Dictionary(self.filter_data[i].decode_params.duplicate());
            names.push(n_obj);
            parms.push(p_obj);
            proof {
                super::lemma_models_of_snoc(pre_n, n_obj);
                super::lemma_models_of_snoc(pre_p, p_obj);
                lemma_filter_names_snoc(fsm.take(i as int), fsm[i as int]);
                lemma_filter_params_snoc(fsm.take(i as int), fsm[i as int]);
                assert(fsm.take(i as int + 1) =~= fsm.take(i as int).push(fsm[i as int]));
                assert(names@ == pre_n.push(n_obj));
                assert(parms@ == pre_p.push(p_obj));
                assert(fsm[i as int] == self.filter_data@[i as int].model());
                assert(n_obj.model() == PdfModel::Name(filter_name_bytes(fsm[i as int].filter)));
                assert(p_obj.model() == PdfModel::Dict(fsm[i as int].decode_params));
                assert(super::models_of(names@) =~= filter_names_m(fsm.take(i as int + 1)));
                assert(super::models_of(parms@) =~= filter_params_m(fsm.take(i as int + 1)));
            }
            i = i + 1;
        }
        proof {
            assert(fsm.take(fsm.len() as int) =~= fsm);
        }
        let lkb: &[u8] = &[76, 101, 110, 103, 116, 104];
        let fkb: &[u8] = &[70, 105, 108, 116, 101, 114];
        let dkb: &[u8] = &[68, 101, 99, 111, 100, 101, 80, 97, 114, 109, 115];
        proof {
            assert(lkb@ =~= length_key());
            assert(fkb@ =~= filter_key());
            assert(dkb@ =~= decode_parms_key());
        }
        let lk = super::ascii_key(lkb);
        let fk = super::ascii_key(fkb);
        let dk = super::ascii_key(dkb);
        dict.insert(lk, PdfObject::from_usize(self.length));
        dict.insert(fk, PdfObject::Array(names));
        dict.insert(dk, PdfObject::Array(parms));
        proof {
            assert(dict.model() == stream_dict_m(self.model()));
        }
        let d_obj = PdfObject::Dictionary(dict);
        d_obj.render(writer);
        proof {
            assert(writer@ == old(writer)@ + render_spec(
                PdfModel::Dict(stream_dict_m(self.model())),
            ));
        }
        let g1: &[u8] = &[10, 115, 116, 114, 101, 97, 109, 10];
        crate::helpers::write_all_count(writer, g1);
        crate::helpers::write_all_count(writer, self.data.as_slice());
        let g2: &[u8] = &[10, 101, 110, 100, 115, 116, 114, 101, 97, 109];
        crate::helpers::write_all_count(writer, g2);
        proof {
            assert(g1@ =~= seq![10u8, 115u8, 116u8, 114u8, 101u8, 97u8, 109u8, 10u8]);
            assert(g2@ =~= seq![
                10u8, 101u8, 110u8, 100u8, 115u8, 116u8, 114u8, 101u8, 97u8, 109u8,
            ]);
            assert(writer@ =~= old(writer)@ + stream_bytes(self.model()));
        }
        writer.len() - start
    }
}

/// The source formats the pipeline can branch on.
#[derive(Debug, Clone, Copy, PartialEq, Eq, Structural)]
pub enum ImageKind {
    Png,
    Jpeg,
    Other,
}

/// The pixel layouts the pipeline can map.
#[derive(Debug, Clone, Copy, PartialEq, Eq, Structural)]
pub enum ColorKind {
    L8,
    La8,
    Rgb8,
    Rgba8,
    L16,
    La16,
    Rgb16,
    Rgba16,
    Rgb32F,
    Rgba32F,
    Other,
}

/// What an ASCII-85 encoder returns for the given bytes.
pub uninterp spec fn ascii85_of(data: Seq<u8>) -> Seq<u8>;

/// Relies on `ascii85::encode`: frames the input between `<~` and `~>`,
/// five ASCII characters per four input bytes and a shortened final group;
/// the result depends on the input bytes alone.
#[verifier::external_body]
fn ascii85_encode(data: &[u8]) -> (r: Vec<u8>)
    ensures
        r@ == ascii85_of(data@),
        r@.len() == 4 + 5 * (data@.len() / 4) + (if data@.len() % 4 == 0 {
            0int
        } else {
            data@.len() % 4 + 1int
        }),
        forall|i: int| 0 <= i < r@.len() ==> 33 <= #[trigger] r@[i] <= 126,
{
    ascii85::encode(data).into_bytes()
}

/// What a zlib compressor at the default level returns for the given bytes.
pub uninterp spec fn zlib_of(data: Seq<u8>) -> Seq<u8>;

/// Relies on flate2's `ZlibEncoder` at the default compression level: the
/// compressed stream depends on the input bytes alone.
#[verifier::external_body]
fn zlib_compress(data: &[u8]) -> (r: Vec<u8>)
    ensures
        r@ == zlib_of(data@),
{
    let mut encoder = flate2::write::ZlibEncoder::new(Vec::new(), flate2::Compression::default());
    let _ = std::io::Write::write_all(&mut encoder, data);
    encoder.finish().unwrap_or_default()
}

/// The format `image::guess_format` reports for the given magic bytes,
/// mapped onto the pipeline's closed set.
pub uninterp spec fn sniffed_kind(data: Seq<u8>) -> ImageKind;

/// Relies on `image::guess_format`: inspects the magic bytes only, so the
/// report is a function of the input bytes alone.
#[verifier::external_body]
fn sniff_format(data: &[u8]) -> (r: ImageKind)
    ensures
        r == sniffed_kind(data@),
{
    match image::guess_format(data) {
        Ok(image::ImageFormat::Png) => ImageKind::Png,
        Ok(image::ImageFormat::Jpeg) => ImageKind::Jpeg,
        _ => ImageKind::Other,
    }
}

/// Whether `image::load_from_memory` decodes the given bytes.
pub uninterp spec fn decodable(data: Seq<u8>) -> bool;

/// The pixel width of the decoded image.
pub uninterp spec fn decoded_width(data: Seq<u8>) -> u32;

/// The pixel height of the decoded image.
pub uninterp spec fn decoded_height(data: Seq<u8>) -> u32;

/// The pixel layout of the decoded image, on the pipeline's closed set.
pub uninterp spec fn color_kind_of(data: Seq<u8>) -> ColorKind;

/// The decoded image re-expressed as row-major bytes, three per pixel.
pub uninterp spec fn decoded_rgb(data: Seq<u8>) -> Seq<u8>;

/// Relies on `image::load_from_memory` and `DynamicImage`'s `width`,
/// `height`, `color` and `to_rgb8` with `ImageBuffer::into_raw`: decoding
/// is a function of the input bytes alone; a decoder-built buffer holds
/// exactly width times height times three bytes.
#[verifier::external_body]
fn decode_rgb(data: &[u8]) -> (r: Option<(u32, u32, ColorKind, Vec<u8>)>)
    ensures
        (r is Some) == decodable(data@),
        r matches Option::Some(t) ==> t.0 == decoded_width(data@) && t.1 == decoded_height(
            data@,
        ) && t.2 == color_kind_of(data@) && t.3@ == decoded_rgb(data@) && t.3@.len() == 3 * (
        t.0 as int) * (t.1 as int),
{
    match image::load_from_memory(data) {
        Ok(img) => {
            let kind = to_color_kind(img.color());
            Some((img.width(), img.height(), kind, img.to_rgb8().into_raw()))
        },
        Err(_) => None,
    }
}

/// The pixel layout enum carried through decoding.
#[verifier::external_type_specification]
#[verifier::external_body]
pub struct ExColorType(image::ColorType);

/// Relies on matching `image::ColorType` variant for variant, moving
/// nothing.
#[verifier::external_body]
fn to_color_kind(c: image::ColorType) -> ColorKind {
    match c {
        image::ColorType::L8 => ColorKind::L8,
        image::ColorType::La8 => ColorKind::La8,
        image::ColorType::Rgb8 => ColorKind::Rgb8,
        image::ColorType::Rgba8 => ColorKind::Rgba8,
        image::ColorType::L16 => ColorKind::L16,
        image::ColorType::La16 => ColorKind::La16,
        image::ColorType::Rgb16 => ColorKind::Rgb16,
        image::ColorType::Rgba16 => ColorKind::Rgba16,
        image::ColorType::Rgb32F => ColorKind::Rgb32F,
        image::ColorType::Rgba32F => ColorKind::Rgba32F,
        _ => ColorKind::Other,
    }
}

/// The raw pixel rows with a leading zero predictor byte per row.
pub open spec fn predictor_rows(buf: Seq<u8>, w: nat, h: nat) -> Seq<u8>
    decreases h,
{
    if h == 0 {
        Seq::empty()
    } else {
        seq![0u8] + buf.take(3 * w as int) + predictor_rows(buf.skip(3 * w as int), w, (h - 1) as nat)
    }
}

/// The colorspace name and component depth of a mappable pixel layout.
pub open spec fn color_space_of(c: ColorKind) -> Option<(Seq<u8>, int)> {
    let gray = seq![
        68u8, 101u8, 118u8, 105u8, 99u8, 101u8, 71u8, 114u8, 97u8, 121u8,
    ];
    let rgb = seq![68u8, 101u8, 118u8, 105u8, 99u8, 101u8, 82u8, 71u8, 66u8];
    match c {
        ColorKind::L8 => Option::Some((gray, 8)),
        ColorKind::La8 => Option::Some((gray, 8)),
        ColorKind::Rgb8 => Option::Some((rgb, 8)),
        ColorKind::Rgba8 => Option::Some((rgb, 8)),
        ColorKind::L16 => Option::Some((gray, 16)),
        ColorKind::La16 => Option::Some((gray, 16)),
        ColorKind::Rgb16 => Option::Some((rgb, 16)),
        ColorKind::Rgba16 => Option::Some((rgb, 16)),
        ColorKind::Rgb32F => Option::Some((rgb, 32)),
        ColorKind::Rgba32F => Option::Some((rgb, 32)),
        ColorKind::Other => Option::None,
    }
}

/// The decode parameters of the deflate filter for a re-encoded image.
pub open spec fn png_params_m(w: nat) -> Seq<(Seq<u8>, PdfModel)> {
    let d1 = spec_dict_insert(
        Seq::empty(),
        seq![80u8, 114u8, 101u8, 100u8, 105u8, 99u8, 116u8, 111u8, 114u8],
        PdfModel::Number((15, 0nat)),
    );
    let d2 = spec_dict_insert(
        d1,
        seq![67u8, 111u8, 108u8, 111u8, 114u8, 115u8],
        PdfModel::Number((3, 0nat)),
    );
    let d3 = spec_dict_insert(
        d2,
        seq![
            66u8, 105u8, 116u8, 115u8, 80u8, 101u8, 114u8, 67u8, 111u8, 109u8, 112u8, 111u8,
            110u8, 101u8, 110u8, 116u8,
        ],
        PdfModel::Number((8, 0nat)),
    );
    spec_dict_insert(
        d3,
        seq![67u8, 111u8, 108u8, 117u8, 109u8, 110u8, 115u8],
        PdfModel::Number((w as int, 0nat)),
    )
}

impl StreamData {
    /// Re-encodes decoded pixel rows for the deflate/ASCII-85 filter pair.
    #[verifier::rlimit(100)]
    fn encode_png_parts(w: u32, h: u32, rgb: Vec<u8>) -> (r: StreamData)
        requires
            rgb@.len() == 3 * (w as int) * (h as int),
        ensures
            r.model().filters == seq![
                FilterModel {
                    filter: Filter::ASCII85Decode,
                    decode_params: Seq::<(Seq<u8>, PdfModel)>::empty(),
                },
                FilterModel { filter: Filter::FlateDecode, decode_params: png_params_m(w as nat) },
            ],
            r.model().data == ascii85_of(zlib_of(predictor_rows(rgb@, w as nat, h as nat))),
            r.model().length == r.model().data.len(),
            r.model().dict == Seq::<(Seq<u8>, PdfModel)>::empty(),
    {
        let mut raw: Vec<u8> = Vec::new();
        let mut y: u32 = 0;
        let ghost whole = rgb@;
        let _rgb_len = rgb.len();
        let row_len: usize = if h == 0 {
            0
        } else {
            proof {
                assert(1 * (3 * (w as int)) <= (h as int) * (3 * (w as int))) by (nonlinear_arith)
                    requires
                        h >= 1,
                        w >= 0,
                ;
                assert((h as int) * (3 * (w as int)) == 3 * (w as int) * (h as int))
                    by (nonlinear_arith);
            }
            3 * (w as usize)
        };
        let mut off: usize = 0;
        proof {
            assert(whole.skip(0) =~= whole);
            assert(predictor_rows(whole, w as nat, 0nat) == Seq::<u8>::empty());
            assert(raw@ + predictor_rows(whole.skip(0), w as nat, h as nat) =~= predictor_rows(
                whole,
                w as nat,
                h as nat,
            ));
            assert((h as int) * (3 * (w as int)) == 3 * (w as int) * (h as int))
                by (nonlinear_arith);
        }
        while y < h
            invariant
                y <= h,
                rgb@ == whole,
                whole.len() == 3 * (w as int) * (h as int),
                h > 0 ==> row_len == 3 * (w as int),
                h == 0 ==> row_len == 0,
                off == y as int * row_len,
                off + (h as int - y as int) * row_len == whole.len(),
                whole.len() <= usize::MAX,
                raw@ + predictor_rows(whole.skip(off as int), w as nat, (h - y) as nat)
                    == predictor_rows(whole, w as nat, h as nat),
            decreases h - y,
        {
            proof {
                assert((h as int - y as int) * row_len >= 1 * row_len) by (nonlinear_arith)
                    requires
                        h as int - y as int >= 1,
                        row_len >= 0,
                ;
                assert(off + row_len <= whole.len());
            }
            let ghost raw0 = raw@;
            raw.push(0);
            push_slice_range(&mut raw, &rgb, off, row_len);
            proof {
                let tail = whole.skip(off as int);
                assert(tail.take(3 * w as int) =~= whole.subrange(
                    off as int,
                    off as int + row_len,
                ));
                assert(tail.skip(3 * w as int) =~= whole.skip(off as int + row_len));
                assert(predictor_rows(tail, w as nat, (h - y) as nat) == seq![0u8] + tail.take(
                    3 * w as int,
                ) + predictor_rows(tail.skip(3 * w as int), w as nat, (h - y - 1) as nat));
                assert(raw@ =~= raw0 + seq![0u8] + whole.subrange(
                    off as int,
                    off as int + row_len,
                ));
                assert(raw@ + predictor_rows(
                    whole.skip(off as int + row_len),
                    w as nat,
                    (h - y - 1) as nat,
                ) =~= predictor_rows(whole, w as nat, h as nat));
                assert((y as int + 1) * row_len == y as int * row_len + row_len)
                    by (nonlinear_arith);
                assert((h as int - y as int - 1) * row_len == (h as int - y as int) * row_len
                    - row_len) by (nonlinear_arith);
            }
            y = y + 1;
            off = off + row_len;
        }
        proof {
            assert((h as int - h as int) * row_len == 0) by (nonlinear_arith);
            assert(off == whole.len());
            assert(whole.skip(whole.len() as int).len() == 0);
            assert(predictor_rows(whole.skip(whole.len() as int), w as nat, 0nat)
                == Seq::<u8>::empty());
            assert(raw@ =~= predictor_rows(whole, w as nat, h as nat));
        }
        let compressed = zlib_compress(raw.as_slice());
        let encoded = ascii85_encode(compressed.as_slice());
        let mut filters: Vec<FilterData> = Vec::new();
        let f0 = FilterData::new_ascii85();
        filters.push(f0);
        let mut params = Dict::new();
        let k1: &[u8] = &[80, 114, 101, 100, 105, 99, 116, 111, 114];
        let k2: &[u8] = &[67, 111, 108, 111, 114, 115];
        let k3: &[u8] = &[
            66, 105, 116, 115, 80, 101, 114, 67, 111, 109, 112, 111, 110, 101, 110, 116,
        ];
        let k4: &[u8] = &[67, 111, 108, 117, 109, 110, 115];
        proof {
            assert(k1@ =~= seq![80u8, 114u8, 101u8, 100u8, 105u8, 99u8, 116u8, 111u8, 114u8]);
            assert(k2@ =~= seq![67u8, 111u8, 108u8, 111u8, 114u8, 115u8]);
            assert(k3@ =~= seq![
                66u8, 105u8, 116u8, 115u8, 80u8, 101u8, 114u8, 67u8, 111u8, 109u8, 112u8, 111u8,
                110u8, 101u8, 110u8, 116u8,
            ]);
            assert(k4@ =~= seq![67u8, 111u8, 108u8, 117u8, 109u8, 110u8, 115u8]);
        }
        params.insert(super::ascii_key(k1), PdfObject::from_int(15));
        params.insert(super::ascii_key(k2), PdfObject::from_int(3));
        params.insert(super::ascii_key(k3), PdfObject::from_int(8));
        params.insert(super::ascii_key(k4), PdfObject::from_usize(w as usize));
        proof {
            assert(params.model() == png_params_m(w as nat));
        }
        let f1 = FilterData { filter: Filter::FlateDecode, decode_params: params };
        filters.push(f1);
        let length = encoded.len();
        let r = StreamData { length, dict: Dict::new(), filter_data: filters, data: encoded };
        proof {
            lemma_filter_models_of_index(r.filter_data@);
            assert(r.model().filters =~= seq![f0.model(), f1.model()]);
        }
        r
    }

    /// ASCII-85 encodes already-compressed data for the DCT filter pair.
    fn encode_jpeg_parts(bytes: &[u8]) -> (r: StreamData)
        ensures
            r.model().filters == seq![
                FilterModel {
                    filter: Filter::ASCII85Decode,
                    decode_params: Seq::<(Seq<u8>, PdfModel)>::empty(),
                },
                FilterModel {
                    filter: Filter::DCTDecode,
                    decode_params: Seq::<(Seq<u8>, PdfModel)>::empty(),
                },
            ],
            r.model().data == ascii85_of(bytes@),
            r.model().length == r.model().data.len(),
            r.model().dict == Seq::<(Seq<u8>, PdfModel)>::empty(),
    {
        let encoded = ascii85_encode(bytes);
        let mut filters: Vec<FilterData> = Vec::new();
        let f0 = FilterData::new_ascii85();
        filters.push(f0);
        let f1 = FilterData::new_image(Filter::DCTDecode);
        filters.push(f1);
        let length = encoded.len();
        let r = StreamData { length, dict: Dict::new(), filter_data: filters, data: encoded };
        proof {
            lemma_filter_models_of_index(r.filter_data@);
            assert(r.model().filters =~= seq![f0.model(), f1.model()]);
        }
        r
    }
}

/// Appends one row of pixel bytes.
fn push_slice_range(raw: &mut Vec<u8>, rgb: &Vec<u8>, off: usize, len: usize) -> (count: usize)
    requires
        off + len <= rgb@.len(),
        rgb@.len() <= usize::MAX,
    ensures
        final(raw)@ == old(raw)@ + rgb@.subrange(off as int, off as int + len as int),
        count == len,
{
    let mut j: usize = 0;
    while j < len
        invariant
            j <= len,
            off + len <= rgb@.len(),
            rgb@.len() <= usize::MAX,
            raw@ == old(raw)@ + rgb@.subrange(off as int, off as int + j as int),
        decreases len - j,
    {
        raw.push(rgb[off + j]);
        proof {
            assert(raw@ =~= old(raw)@ + rgb@.subrange(off as int, off as int + j as int + 1));
        }
        j = j + 1;
    }
    proof {
        assert(raw@ =~= old(raw)@ + rgb@.subrange(off as int, off as int + len as int));
    }
    len
}

/// The filter chain of a re-encoded source: ASCII-85 over deflate with
/// the predictor parameters.
pub open spec fn png_chain(w: nat) -> Seq<FilterModel> {
    seq![
        FilterModel {
            filter: Filter::ASCII85Decode,
            decode_params: Seq::<(Seq<u8>, PdfModel)>::empty(),
        },
        FilterModel { filter: Filter::FlateDecode, decode_params: png_params_m(w) },
    ]
}

/// The filter chain of a pass-through DCT source.
pub open spec fn jpeg_chain() -> Seq<FilterModel> {
    seq![
        FilterModel {
            filter: Filter::ASCII85Decode,
            decode_params: Seq::<(Seq<u8>, PdfModel)>::empty(),
        },
        FilterModel {
            filter: Filter::DCTDecode,
            decode_params: Seq::<(Seq<u8>, PdfModel)>::empty(),
        },
    ]
}

/// The image description entries added to a stream's dictionary: type and
/// subtype tags, the pixel dimensions, and the colorspace with its
/// component depth.
pub open spec fn image_dict_m(
    base: Seq<(Seq<u8>, PdfModel)>,
    w: nat,
    h: nat,
    cs: Seq<u8>,
    bits: int,
) -> Seq<(Seq<u8>, PdfModel)> {
    let d1 = spec_dict_insert(
        base,
        seq![84u8, 121u8, 112u8, 101u8],
        PdfModel::Name(seq![88u8, 79u8, 98u8, 106u8, 101u8, 99u8, 116u8]),
    );
    let d2 = spec_dict_insert(
        d1,
        seq![83u8, 117u8, 98u8, 116u8, 121u8, 112u8, 101u8],
        PdfModel::Name(seq![73u8, 109u8, 97u8, 103u8, 101u8]),
    );
    let d3 = spec_dict_insert(
        d2,
        seq![87u8, 105u8, 100u8, 116u8, 104u8],
        PdfModel::Number((w as int, 0nat)),
    );
    let d4 = spec_dict_insert(
        d3,
        seq![72u8, 101u8, 105u8, 103u8, 104u8, 116u8],
        PdfModel::Number((h as int, 0nat)),
    );
    let d5 = spec_dict_insert(d4, seq![67u8, 111u8, 108u8, 111u8, 114u8, 83u8, 112u8, 97u8, 99u8, 101u8], PdfModel::Name(cs));
    spec_dict_insert(
        d5,
        seq![
            66u8, 105u8, 116u8, 115u8, 80u8, 101u8, 114u8, 67u8, 111u8, 109u8, 112u8, 111u8,
            110u8, 101u8, 110u8, 116u8,
        ],
        PdfModel::Number((bits, 0nat)),
    )
}

/// The colorspace name and depth a pixel layout maps to, or nothing for a
/// layout the pipeline rejects.
fn color_space_parts(c: ColorKind) -> (r: Option<(&'static [u8], i64)>)
    ensures
        (r is Some) == (color_space_of(c) is Some),
        r matches Option::Some(p) ==> color_space_of(c) == Option::Some((p.0@, p.1 as int)),
{
    let gray: &'static [u8] = &[68, 101, 118, 105, 99, 101, 71, 114, 97, 121];
    let rgb: &'static [u8] = &[68, 101, 118, 105, 99, 101, 82, 71, 66];
    proof {
        assert(gray@ =~= seq![68u8, 101u8, 118u8, 105u8, 99u8, 101u8, 71u8, 114u8, 97u8, 121u8]);
        assert(rgb@ =~= seq![68u8, 101u8, 118u8, 105u8, 99u8, 101u8, 82u8, 71u8, 66u8]);
    }
    match c {
        ColorKind::L8 => Option::Some((gray, 8)),
        ColorKind::La8 => Option::Some((gray, 8)),
        ColorKind::Rgb8 => Option::Some((rgb, 8)),
        ColorKind::Rgba8 => Option::Some((rgb, 8)),
        ColorKind::L16 => Option::Some((gray, 16)),
        ColorKind::La16 => Option::Some((gray, 16)),
        ColorKind::Rgb16 => Option::Some((rgb, 16)),
        ColorKind::Rgba16 => Option::Some((rgb, 16)),
        ColorKind::Rgb32F => Option::Some((rgb, 32)),
        ColorKind::Rgba32F => Option::Some((rgb, 32)),
        ColorKind::Other => Option::None,
    }
}

impl StreamData {
    /// Adds the image description entries to the stream's dictionary.
    #[verifier::rlimit(100)]
    #[verifier::spinoff_prover]
    fn add_image_entries(&mut self, w: u32, h: u32, cs: &[u8], bits: i64)
        requires
            super::entries_sorted(old(self).dict.model()),
            forall|i: int| 0 <= i < cs@.len() ==> #[trigger] cs@[i] < 128,
        ensures
            super::entries_sorted(final(self).dict.model()),
            final(self).dict.model() == image_dict_m(
                old(self).dict.model(),
                w as nat,
                h as nat,
                cs@,
                bits as int,
            ),
            final(self).length == old(self).length,
            final(self).data == old(self).data,
            final(self).filter_data == old(self).filter_data,
    {
        let tk: &[u8] = &[84, 121, 112, 101];
        let tv: &[u8] = &[88, 79, 98, 106, 101, 99, 116];
        let sk: &[u8] = &[83, 117, 98, 116, 121, 112, 101];
        let sv: &[u8] = &[73, 109, 97, 103, 101];
        let wk: &[u8] = &[87, 105, 100, 116, 104];
        let hk: &[u8] = &[72, 101, 105, 103, 104, 116];
        let ck: &[u8] = &[67, 111, 108, 111, 114, 83, 112, 97, 99, 101];
        let bk: &[u8] = &[
            66, 105, 116, 115, 80, 101, 114, 67, 111, 109, 112, 111, 110, 101, 110, 116,
        ];
        proof {
            assert(tk@ =~= seq![84u8, 121u8, 112u8, 101u8]);
            assert(tv@ =~= seq![88u8, 79u8, 98u8, 106u8, 101u8, 99u8, 116u8]);
            assert(sk@ =~= seq![83u8, 117u8, 98u8, 116u8, 121u8, 112u8, 101u8]);
            assert(sv@ =~= seq![73u8, 109u8, 97u8, 103u8, 101u8]);
            assert(wk@ =~= seq![87u8, 105u8, 100u8, 116u8, 104u8]);
            assert(hk@ =~= seq![72u8, 101u8, 105u8, 103u8, 104u8, 116u8]);
            assert(ck@ =~= seq![67u8, 111u8, 108u8, 111u8, 114u8, 83u8, 112u8, 97u8, 99u8, 101u8]);
            assert(bk@ =~= seq![
                66u8, 105u8, 116u8, 115u8, 80u8, 101u8, 114u8, 67u8, 111u8, 109u8, 112u8, 111u8,
                110u8, 101u8, 110u8, 116u8,
            ]);
        }
        self.dict.insert(super::ascii_key(tk), PdfObject::Name(super::ascii_key(tv)));
        self.dict.insert(super::ascii_key(sk), PdfObject::Name(super::ascii_key(sv)));
        self.dict.insert(super::ascii_key(wk), PdfObject::from_usize(w as usize));
        self.dict.insert(super::ascii_key(hk), PdfObject::from_usize(h as usize));
        self.dict.insert(super::ascii_key(ck), PdfObject::Name(super::ascii_key(cs)));
        self.dict.insert(super::ascii_key(bk), PdfObject::from_int(bits));
    }

    /// Encodes stream data for an image: re-encode and deflate decoded rows
    /// for a source that needs it, or pass DCT-compressed bytes through,
    /// ASCII-85 encode the result, and describe the pixels in the stream's
    /// dictionary.  An unrecognised format, undecodable bytes, or an
    /// unmappable pixel layout is rejected with its own error, exactly when
    /// it occurs; no best-effort fallback is attempted.
    pub fn encode_image(image_bytes: &[u8]) -> (r: Result<StreamData, PdfError>)
        ensures
            r is Ok <==> sniffed_kind(image_bytes@) != ImageKind::Other && decodable(
                image_bytes@,
            ) && color_space_of(color_kind_of(image_bytes@)) is Some,
            ({
                match r {
                    Result::Ok(sd) => {
                        &&& super::entries_sorted(sd.model().dict)
                        &&& sd.model().dict == image_dict_m(
                            Seq::empty(),
                            decoded_width(image_bytes@) as nat,
                            decoded_height(image_bytes@) as nat,
                            color_space_of(color_kind_of(image_bytes@))->Some_0.0,
                            color_space_of(color_kind_of(image_bytes@))->Some_0.1,
                        )
                        &&& (sniffed_kind(image_bytes@) == ImageKind::Png ==> sd.model().filters
                            == png_chain(decoded_width(image_bytes@) as nat) && sd.model().data
                            == ascii85_of(
                            zlib_of(
                                predictor_rows(
                                    decoded_rgb(image_bytes@),
                                    decoded_width(image_bytes@) as nat,
                                    decoded_height(image_bytes@) as nat,
                                ),
                            ),
                        ))
                        &&& (sniffed_kind(image_bytes@) == ImageKind::Jpeg ==> sd.model().filters
                            == jpeg_chain() && sd.model().data == ascii85_of(image_bytes@))
                        &&& sd.model().length == sd.model().data.len()
                    },
                    Result::Err(e) => {
                        &&& (e == PdfError::UnsupportedFormat || e == PdfError::ImageDecode || e
                            == PdfError::UnsupportedColorType)
                        &&& (e == PdfError::UnsupportedFormat <==> sniffed_kind(image_bytes@)
                            == ImageKind::Other)
                        &&& (e == PdfError::ImageDecode <==> sniffed_kind(image_bytes@)
                            != ImageKind::Other && !decodable(image_bytes@))
                        &&& (e == PdfError::UnsupportedColorType <==> sniffed_kind(image_bytes@)
                            != ImageKind::Other && decodable(image_bytes@) && color_space_of(
                            color_kind_of(image_bytes@),
                        ) is None)
                    },
                }
            }),
    {
        let kind = sniff_format(image_bytes);
        if let ImageKind::Other = kind {
            return Result::Err(PdfError::UnsupportedFormat);
        }
        let (w, h, color, rgb) = match decode_rgb(image_bytes) {
            Option::Some(t) => t,
            Option::None => {
                return Result::Err(PdfError::ImageDecode);
            },
        };
        let (cs, bits): (&[u8], i64) = match color_space_parts(color) {
            Option::Some(p) => p,
            Option::None => {
                return Result::Err(PdfError::UnsupportedColorType);
            },
        };
        proof {
            assert(forall|i: int| 0 <= i < cs@.len() ==> #[trigger] cs@[i] < 128) by {
                assert(color_space_of(color_kind_of(image_bytes@)) == Option::Some((
                    cs@,
                    bits as int,
                )));
            }
        }
        let mut sd = match kind {
            ImageKind::Png => StreamData::encode_png_parts(w, h, rgb),
            ImageKind::Jpeg => StreamData::encode_jpeg_parts(image_bytes),
            ImageKind::Other => {
                return Result::Err(PdfError::UnsupportedFormat);
            },
        };
        sd.add_image_entries(w, h, cs, bits);
        Result::Ok(sd)
    }
}

} // verus!
