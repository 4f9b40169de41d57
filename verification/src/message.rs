//! Data model for the wire values of the relay protocol: the tagged sum type
//! of wire values, the columnar hdata container, tri-state strings, messages,
//! and the well-formedness conditions that the decoder guarantees and the
//! reference encoder requires.
//!
//! Textual wire data is kept as raw bytes (`Vec<u8>`); every `str` value on
//! the wire is UTF-8, which the decoder checks, but the byte form is what the
//! protocol is exact about.
use vstd::pervasive::arbitrary;
use vstd::prelude::*;
use vstd::string::StringSliceAdditionalSpecFns;
use vstd::utf8::valid_utf8;

verus! {

/// The twelve wire type tags, each written as three ASCII bytes on the wire.
#[derive(Clone, Copy, PartialEq, Eq, Structural, Debug)]
pub enum Tag {
    Chr,
    Int,
    Lon,
    Str,
    Buf,
    Ptr,
    Tim,
    Htb,
    Hda,
    Inf,
    Inl,
    Arr,
}

/// The three wire bytes of a tag.
pub open spec fn tag_bytes(t: Tag) -> Seq<u8> {
    match t {
        Tag::Chr => seq!['c' as u8, 'h' as u8, 'r' as u8],
        Tag::Int => seq!['i' as u8, 'n' as u8, 't' as u8],
        Tag::Lon => seq!['l' as u8, 'o' as u8, 'n' as u8],
        Tag::Str => seq!['s' as u8, 't' as u8, 'r' as u8],
        Tag::Buf => seq!['b' as u8, 'u' as u8, 'f' as u8],
        Tag::Ptr => seq!['p' as u8, 't' as u8, 'r' as u8],
        Tag::Tim => seq!['t' as u8, 'i' as u8, 'm' as u8],
        Tag::Htb => seq!['h' as u8, 't' as u8, 'b' as u8],
        Tag::Hda => seq!['h' as u8, 'd' as u8, 'a' as u8],
        Tag::Inf => seq!['i' as u8, 'n' as u8, 'f' as u8],
        Tag::Inl => seq!['i' as u8, 'n' as u8, 'l' as u8],
        Tag::Arr => seq!['a' as u8, 'r' as u8, 'r' as u8],
    }
}

/// The tag named by three wire bytes, if any.
pub open spec fn tag_of_bytes(b0: u8, b1: u8, b2: u8) -> Option<Tag> {
    if b0 == 'c' as u8 && b1 == 'h' as u8 && b2 == 'r' as u8 {
        Some(Tag::Chr)
    } else if b0 == 'i' as u8 && b1 == 'n' as u8 && b2 == 't' as u8 {
        Some(Tag::Int)
    } else if b0 == 'l' as u8 && b1 == 'o' as u8 && b2 == 'n' as u8 {
        Some(Tag::Lon)
    } else if b0 == 's' as u8 && b1 == 't' as u8 && b2 == 'r' as u8 {
        Some(Tag::Str)
    } else if b0 == 'b' as u8 && b1 == 'u' as u8 && b2 == 'f' as u8 {
        Some(Tag::Buf)
    } else if b0 == 'p' as u8 && b1 == 't' as u8 && b2 == 'r' as u8 {
        Some(Tag::Ptr)
    } else if b0 == 't' as u8 && b1 == 'i' as u8 && b2 == 'm' as u8 {
        Some(Tag::Tim)
    } else if b0 == 'h' as u8 && b1 == 't' as u8 && b2 == 'b' as u8 {
        Some(Tag::Htb)
    } else if b0 == 'h' as u8 && b1 == 'd' as u8 && b2 == 'a' as u8 {
        Some(Tag::Hda)
    } else if b0 == 'i' as u8 && b1 == 'n' as u8 && b2 == 'f' as u8 {
        Some(Tag::Inf)
    } else if b0 == 'i' as u8 && b1 == 'n' as u8 && b2 == 'l' as u8 {
        Some(Tag::Inl)
    } else if b0 == 'a' as u8 && b1 == 'r' as u8 && b2 == 'r' as u8 {
        Some(Tag::Arr)
    } else {
        None
    }
}

/// Reading back the three bytes of a tag yields that tag.
pub proof fn lemma_tag_bytes_roundtrip(t: Tag)
    ensures
        tag_of_bytes(tag_bytes(t)[0], tag_bytes(t)[1], tag_bytes(t)[2]) == Some(t),
        tag_bytes(t).len() == 3,
{
}

/// Parses the three bytes at `pos` as a type tag.
pub fn read_tag(bytes: &[u8], pos: usize) -> (r: Option<Tag>)
    requires
        pos + 3 <= bytes@.len(),
    ensures
        r == tag_of_bytes(bytes@[pos as int], bytes@[pos + 1], bytes@[pos + 2]),
{
    let b0 = bytes[pos];
    let b1 = bytes[pos + 1];
    let b2 = bytes[pos + 2];
    if b0 == 'c' as u8 && b1 == 'h' as u8 && b2 == 'r' as u8 {
        Some(Tag::Chr)
    } else if b0 == 'i' as u8 && b1 == 'n' as u8 && b2 == 't' as u8 {
        Some(Tag::Int)
    } else if b0 == 'l' as u8 && b1 == 'o' as u8 && b2 == 'n' as u8 {
        Some(Tag::Lon)
    } else if b0 == 's' as u8 && b1 == 't' as u8 && b2 == 'r' as u8 {
        Some(Tag::Str)
    } else if b0 == 'b' as u8 && b1 == 'u' as u8 && b2 == 'f' as u8 {
        Some(Tag::Buf)
    } else if b0 == 'p' as u8 && b1 == 't' as u8 && b2 == 'r' as u8 {
        Some(Tag::Ptr)
    } else if b0 == 't' as u8 && b1 == 'i' as u8 && b2 == 'm' as u8 {
        Some(Tag::Tim)
    } else if b0 == 'h' as u8 && b1 == 't' as u8 && b2 == 'b' as u8 {
        Some(Tag::Htb)
    } else if b0 == 'h' as u8 && b1 == 'd' as u8 && b2 == 'a' as u8 {
        Some(Tag::Hda)
    } else if b0 == 'i' as u8 && b1 == 'n' as u8 && b2 == 'f' as u8 {
        Some(Tag::Inf)
    } else if b0 == 'i' as u8 && b1 == 'n' as u8 && b2 == 'l' as u8 {
        Some(Tag::Inl)
    } else if b0 == 'a' as u8 && b1 == 'r' as u8 && b2 == 'r' as u8 {
        Some(Tag::Arr)
    } else {
        None
    }
}

/// A tri-state wire string: absent (`Null`) or UTF-8 text kept as bytes.
#[derive(Debug, PartialEq, Eq)]
pub enum WeechatString {
    Null,
    Str(Vec<u8>),
}

/// Mathematical form of a tri-state string.
pub enum WeechatStringView {
    Null,
    Str(Seq<u8>),
}

impl View for WeechatString {
    type V = WeechatStringView;

    open spec fn view(&self) -> WeechatStringView {
        match self {
            WeechatString::Null => WeechatStringView::Null,
            WeechatString::Str(b) => WeechatStringView::Str(b@),
        }
    }
}

impl DeepView for WeechatString {
    type V = WeechatStringView;

    open spec fn deep_view(&self) -> WeechatStringView {
        self.view()
    }
}

impl WeechatString {
    /// Structural copy.
    pub fn duplicate(&self) -> (r: WeechatString)
        ensures
            r@ == self@,
    {
        match self {
            WeechatString::Null => WeechatString::Null,
            WeechatString::Str(b) => WeechatString::Str(copy_bytes(b)),
        }
    }

    /// Applies `func` to the text of a non-null string.
    pub fn map<T, F: FnOnce(Vec<u8>) -> T>(self, func: F) -> (r: Option<T>)
        requires
            self matches WeechatString::Str(s) ==> func.requires((s,)),
        ensures
            self matches WeechatString::Null ==> r is None,
            self matches WeechatString::Str(s) ==> (r matches Some(t) && func.ensures((s,), t)),
    {
        match self {
            WeechatString::Null => None,
            WeechatString::Str(s) => Some(func(s)),
        }
    }

    /// The text of the string, with a placeholder for `Null`.
    pub fn to_str(&self) -> (r: Vec<u8>)
        ensures
            match self@ {
                WeechatStringView::Null => r@ == "(null)".spec_bytes(),
                WeechatStringView::Str(b) => r@ == b,
            },
    {
        match self {
            WeechatString::Null => str_bytes("(null)"),
            WeechatString::Str(b) => copy_bytes(b),
        }
    }
}

/// The byte vector that an exec `Vec<u8>` wraps, copied.
pub fn copy_bytes(b: &Vec<u8>) -> (r: Vec<u8>)
    ensures
        r@ == b@,
{
    let mut out: Vec<u8> = Vec::new();
    let mut i: usize = 0;
    while i < b.len()
        invariant
            i <= b@.len(),
            out@ == b@.subrange(0, i as int),
        decreases b@.len() - i,
    {
        out.push(b[i]);
        i = i + 1;
    }
    proof {
        assert(out@ =~= b@);
    }
    out
}

/// The bytes of a string literal as a vector.
pub fn str_bytes(s: &str) -> (r: Vec<u8>)
    ensures
        r@ == s.spec_bytes(),
{
    let sl = s.as_bytes();
    let mut out: Vec<u8> = Vec::new();
    let mut i: usize = 0;
    while i < sl.len()
        invariant
            i <= sl@.len(),
            out@ == sl@.subrange(0, i as int),
            sl@ == s.spec_bytes(),
        decreases sl@.len() - i,
    {
        out.push(sl[i]);
        i = i + 1;
    }
    proof {
        assert(out@ =~= s.spec_bytes());
    }
    out
}

/// One hdata record: a pointer path (one pointer per path segment) and the
/// column values, keyed by column name in declared order.
#[derive(Debug, PartialEq, Eq)]
pub struct HdataRecord {
    pub p_path: Vec<u128>,
    pub fields: Vec<(Vec<u8>, WeechatType)>,
}

/// A columnar record container: a path of object kinds, a column schema
/// (name and declared tag per column), and the records.
#[derive(Debug, PartialEq, Eq)]
pub struct Hdata {
    pub h_path: Vec<Vec<u8>>,
    pub keys: Vec<(Vec<u8>, Tag)>,
    pub values: Vec<HdataRecord>,
}

/// A wire value: exactly one variant per wire type tag.
#[derive(Debug, PartialEq, Eq)]
pub enum WeechatType {
    Char(i8),
    Int(i32),
    Long(i128),
    Str(WeechatString),
    Buffer(Option<Vec<u8>>),
    Pointer(u128),
    Time(u128),
    HashTable(Tag, Tag, Vec<(WeechatType, WeechatType)>),
    Hdata(Hdata),
    Info(WeechatString, WeechatString),
    InfoList(WeechatString, Vec<(Vec<u8>, WeechatType)>),
    Array(Tag, Vec<WeechatType>),
}

/// Mathematical form of one hdata record.
pub struct HdataRecordView {
    pub p_path: Seq<u128>,
    pub fields: Seq<(Seq<u8>, WeechatTypeView)>,
}

/// Mathematical form of an hdata container.
pub struct HdataView {
    pub h_path: Seq<Seq<u8>>,
    pub keys: Seq<(Seq<u8>, Tag)>,
    pub records: Seq<HdataRecordView>,
}

/// Mathematical form of a wire value.
pub enum WeechatTypeView {
    Char(i8),
    Int(i32),
    Long(i128),
    Str(WeechatStringView),
    Buffer(Option<Seq<u8>>),
    Pointer(u128),
    Time(u128),
    HashTable(Tag, Tag, Seq<(WeechatTypeView, WeechatTypeView)>),
    Hdata(HdataView),
    Info(WeechatStringView, WeechatStringView),
    InfoList(WeechatStringView, Seq<(Seq<u8>, WeechatTypeView)>),
    Array(Tag, Seq<WeechatTypeView>),
}

/// Mathematical form of a wire value.
pub open spec fn view_value(v: WeechatType) -> WeechatTypeView
    decreases v,
        via view_value_decreases
{
    match v {
        WeechatType::Char(c) => WeechatTypeView::Char(c),
        WeechatType::Int(i) => WeechatTypeView::Int(i),
        WeechatType::Long(l) => WeechatTypeView::Long(l),
        WeechatType::Str(s) => WeechatTypeView::Str(s@),
        WeechatType::Buffer(b) => WeechatTypeView::Buffer(
            match b {
                Some(bb) => Some(bb@),
                None => None,
            },
        ),
        WeechatType::Pointer(p) => WeechatTypeView::Pointer(p),
        WeechatType::Time(t) => WeechatTypeView::Time(t),
        WeechatType::HashTable(kt, vt, pairs) => WeechatTypeView::HashTable(
            kt,
            vt,
            Seq::new(
                pairs@.len(),
                |i: int|
                    if 0 <= i < pairs@.len() {
                        (view_value(pairs@[i].0), view_value(pairs@[i].1))
                    } else {
                        arbitrary()
                    },
            ),
        ),
        WeechatType::Hdata(h) => WeechatTypeView::Hdata(view_hdata(h)),
        WeechatType::Info(n, w) => WeechatTypeView::Info(n@, w@),
        WeechatType::InfoList(n, items) => WeechatTypeView::InfoList(
            n@,
            Seq::new(
                items@.len(),
                |i: int|
                    if 0 <= i < items@.len() {
                        (items@[i].0@, view_value(items@[i].1))
                    } else {
                        arbitrary()
                    },
            ),
        ),
        WeechatType::Array(t, elems) => WeechatTypeView::Array(
            t,
            Seq::new(
                elems@.len(),
                |i: int|
                    if 0 <= i < elems@.len() {
                        view_value(elems@[i])
                    } else {
                        arbitrary()
                    },
            ),
        ),
    }
}

#[via_fn]
proof fn view_value_decreases(v: WeechatType) {
    match v {
        WeechatType::HashTable(kt, vt, pairs) => {
            assert forall|i: int| 0 <= i < pairs@.len() implies decreases_to!(v => pairs@[i].0)
                && decreases_to!(v => pairs@[i].1) by {
                assert(decreases_to!(v => pairs));
                assert(decreases_to!(pairs => pairs@));
                assert(decreases_to!(pairs@ => pairs@[i]));
                assert(decreases_to!(pairs@[i] => pairs@[i].0));
                assert(decreases_to!(pairs@[i] => pairs@[i].1));
            }
        },
        WeechatType::Hdata(h) => {},
        WeechatType::InfoList(n, items) => {
            assert forall|i: int| 0 <= i < items@.len() implies decreases_to!(v => items@[i].1) by {
                assert(decreases_to!(v => items));
                assert(decreases_to!(items => items@));
                assert(decreases_to!(items@ => items@[i]));
                assert(decreases_to!(items@[i] => items@[i].1));
            }
        },
        WeechatType::Array(t, elems) => {
            assert forall|i: int| 0 <= i < elems@.len() implies decreases_to!(v => elems@[i]) by {
                assert(decreases_to!(v => elems));
                assert(decreases_to!(elems => elems@));
                assert(decreases_to!(elems@ => elems@[i]));
            }
        },
        _ => {},
    }
}

/// Mathematical form of one hdata record.
pub open spec fn view_record(r: HdataRecord) -> HdataRecordView
    decreases r,
        via view_record_decreases
{
    HdataRecordView {
        p_path: r.p_path@,
        fields: Seq::new(
            r.fields@.len(),
            |i: int|
                if 0 <= i < r.fields@.len() {
                    (r.fields@[i].0@, view_value(r.fields@[i].1))
                } else {
                    arbitrary()
                },
        ),
    }
}

#[via_fn]
proof fn view_record_decreases(r: HdataRecord) {
    assert forall|i: int| 0 <= i < r.fields@.len() implies decreases_to!(r => r.fields@[i].1) by {
        assert(decreases_to!(r => r.fields));
        assert(decreases_to!(r.fields => r.fields@));
        assert(decreases_to!(r.fields@ => r.fields@[i]));
        assert(decreases_to!(r.fields@[i] => r.fields@[i].1));
    }
}

/// Mathematical form of an hdata container.
pub open spec fn view_hdata(h: Hdata) -> HdataView
    decreases h,
        via view_hdata_decreases
{
    HdataView {
        h_path: Seq::new(h.h_path@.len(), |i: int| h.h_path@[i]@),
        keys: Seq::new(h.keys@.len(), |i: int| (h.keys@[i].0@, h.keys@[i].1)),
        records: Seq::new(
            h.values@.len(),
            |i: int|
                if 0 <= i < h.values@.len() {
                    view_record(h.values@[i])
                } else {
                    arbitrary()
                },
        ),
    }
}

#[via_fn]
proof fn view_hdata_decreases(h: Hdata) {
    assert forall|i: int| 0 <= i < h.values@.len() implies decreases_to!(h => h.values@[i]) by {
        assert(decreases_to!(h => h.values));
        assert(decreases_to!(h.values => h.values@));
        assert(decreases_to!(h.values@ => h.values@[i]));
    }
}

impl View for WeechatType {
    type V = WeechatTypeView;

    open spec fn view(&self) -> WeechatTypeView {
        view_value(*self)
    }
}

impl DeepView for WeechatType {
    type V = WeechatTypeView;

    open spec fn deep_view(&self) -> WeechatTypeView {
        view_value(*self)
    }
}

impl View for HdataRecord {
    type V = HdataRecordView;

    open spec fn view(&self) -> HdataRecordView {
        view_record(*self)
    }
}

impl View for Hdata {
    type V = HdataView;

    open spec fn view(&self) -> HdataView {
        view_hdata(*self)
    }
}

impl DeepView for Tag {
    type V = Tag;

    open spec fn deep_view(&self) -> Tag {
        *self
    }
}

impl DeepView for HdataRecord {
    type V = HdataRecordView;

    open spec fn deep_view(&self) -> HdataRecordView {
        view_record(*self)
    }
}

impl DeepView for Hdata {
    type V = HdataView;

    open spec fn deep_view(&self) -> HdataView {
        view_hdata(*self)
    }
}

/// A byte vector's deep view is its view.
pub broadcast proof fn lemma_bytes_deep_view(v: Vec<u8>)
    ensures
        #[trigger] v.deep_view() == v@,
{
    assert(v.deep_view() =~= v@);
}

/// The views of a value vector are its deep view.
pub proof fn lemma_deep_values(v: Vec<WeechatType>)
    ensures
        v.deep_view() == view_values(v@),
{
    assert(v.deep_view() =~= view_values(v@));
}

/// The view of a hash-table value, over its pair vector's deep view.
pub proof fn lemma_view_hashtable(kt: Tag, vt: Tag, pairs: Vec<(WeechatType, WeechatType)>)
    ensures
        view_value(WeechatType::HashTable(kt, vt, pairs)) == WeechatTypeView::HashTable(
            kt,
            vt,
            pairs.deep_view(),
        ),
{
    let a = match view_value(WeechatType::HashTable(kt, vt, pairs)) {
        WeechatTypeView::HashTable(_, _, ps) => ps,
        _ => arbitrary(),
    };
    assert(a =~= pairs.deep_view());
}

/// The view of an array value, over its element vector's deep view.
pub proof fn lemma_view_array(t: Tag, elems: Vec<WeechatType>)
    ensures
        view_value(WeechatType::Array(t, elems)) == WeechatTypeView::Array(t, elems.deep_view()),
{
    let a = match view_value(WeechatType::Array(t, elems)) {
        WeechatTypeView::Array(_, es) => es,
        _ => arbitrary(),
    };
    assert(a =~= elems.deep_view());
}

/// The view of an info-list value, over its item vector's deep view.
pub proof fn lemma_view_infolist(n: WeechatString, items: Vec<(Vec<u8>, WeechatType)>)
    ensures
        view_value(WeechatType::InfoList(n, items)) == WeechatTypeView::InfoList(
            n@,
            items.deep_view(),
        ),
{
    let a = match view_value(WeechatType::InfoList(n, items)) {
        WeechatTypeView::InfoList(_, its) => its,
        _ => arbitrary(),
    };
    assert(a =~~= items.deep_view());
}

/// The view of an hdata record, over its field vector's deep view.
pub proof fn lemma_view_record(r: &HdataRecord)
    ensures
        view_record(*r) == (HdataRecordView { p_path: r.p_path@, fields: r.fields.deep_view() }),
{
    assert(view_record(*r).fields =~~= r.fields.deep_view());
}

/// The view of an hdata container, over its vectors' deep views.
pub proof fn lemma_view_hdata(h: &Hdata)
    ensures
        view_hdata(*h) == (HdataView {
            h_path: h.h_path.deep_view(),
            keys: h.keys.deep_view(),
            records: h.values.deep_view(),
        }),
{
    assert(view_hdata(*h).h_path =~~= h.h_path.deep_view());
    assert(view_hdata(*h).keys =~~= h.keys.deep_view());
    assert(view_hdata(*h).records =~~= h.values.deep_view());
}

impl Hdata {
    /// Number of records.
    pub fn len(&self) -> (r: usize)
        ensures
            r == self@.records.len(),
    {
        self.values.len()
    }

    /// True when the container has no records.
    pub fn is_empty(&self) -> (r: bool)
        ensures
            r == (self@.records.len() == 0),
    {
        self.values.is_empty()
    }
}

/// The wire tag of a value.
pub open spec fn tag_of_value(v: WeechatTypeView) -> Tag {
    match v {
        WeechatTypeView::Char(_) => Tag::Chr,
        WeechatTypeView::Int(_) => Tag::Int,
        WeechatTypeView::Long(_) => Tag::Lon,
        WeechatTypeView::Str(_) => Tag::Str,
        WeechatTypeView::Buffer(_) => Tag::Buf,
        WeechatTypeView::Pointer(_) => Tag::Ptr,
        WeechatTypeView::Time(_) => Tag::Tim,
        WeechatTypeView::HashTable(_, _, _) => Tag::Htb,
        WeechatTypeView::Hdata(_) => Tag::Hda,
        WeechatTypeView::Info(_, _) => Tag::Inf,
        WeechatTypeView::InfoList(_, _) => Tag::Inl,
        WeechatTypeView::Array(_, _) => Tag::Arr,
    }
}

/// Frame header: total frame length in bytes (header included) and the
/// compression flag (0 = none, 1 = zlib).
#[derive(Clone, Copy, PartialEq, Eq, Structural, Debug)]
pub struct MessageHeader {
    pub length: u32,
    pub compression: u8,
}

/// One decoded server message: its frame header, the message id (a `Null`
/// wire id is normalized to the empty text), and the top-level values.
#[derive(Debug, PartialEq, Eq)]
pub struct Message {
    pub header: MessageHeader,
    pub id: Vec<u8>,
    pub data: Vec<WeechatType>,
}

/// Mathematical form of a message body: the id and the top-level values.
pub struct MessageView {
    pub id: Seq<u8>,
    pub data: Seq<WeechatTypeView>,
}

/// Mathematical form of a sequence of wire values.
pub open spec fn view_values(l: Seq<WeechatType>) -> Seq<WeechatTypeView> {
    Seq::new(l.len(), |i: int| if 0 <= i < l.len() { view_value(l[i]) } else { arbitrary() })
}

impl View for Message {
    type V = MessageView;

    open spec fn view(&self) -> MessageView {
        MessageView { id: self.id@, data: view_values(self.data@) }
    }
}

impl DeepView for Message {
    type V = MessageView;

    open spec fn deep_view(&self) -> MessageView {
        self.view()
    }
}

/// Text that fits in one wire `str` value: UTF-8, and shorter than the
/// reserved null-marker length.
pub open spec fn wf_text(b: Seq<u8>) -> bool {
    valid_utf8(b) && b.len() < 0xFFFFFFFF
}

/// Well-formed tri-state string.
pub open spec fn wf_wstring(s: WeechatStringView) -> bool {
    match s {
        WeechatStringView::Null => true,
        WeechatStringView::Str(b) => wf_text(b),
    }
}

/// The wire path string of an hdata: the segments joined with `/`.
pub open spec fn join_path(segs: Seq<Seq<u8>>) -> Seq<u8>
    decreases segs.len(),
{
    if segs.len() == 0 {
        Seq::empty()
    } else if segs.len() == 1 {
        segs[0]
    } else {
        segs[0] + seq!['/' as u8] + join_path(segs.drop_first())
    }
}

/// The wire keys string of an hdata: `name:tag` pairs joined with `,`.
pub open spec fn join_keys(keys: Seq<(Seq<u8>, Tag)>) -> Seq<u8>
    decreases keys.len(),
{
    if keys.len() == 0 {
        Seq::empty()
    } else if keys.len() == 1 {
        keys[0].0 + seq![':' as u8] + tag_bytes(keys[0].1)
    } else {
        (keys[0].0 + seq![':' as u8] + tag_bytes(keys[0].1)) + seq![',' as u8] + join_keys(
            keys.drop_first(),
        )
    }
}

/// Well-formed hdata record against a path length and a column schema: the
/// pointer prefix has one pointer per path segment, and the fields carry the
/// declared names, in declared order, with values of the declared tags.
pub open spec fn wf_record(r: HdataRecordView, path_len: int, keys: Seq<(Seq<u8>, Tag)>) -> bool
    decreases r,
{
    &&& r.p_path.len() == path_len
    &&& r.fields.len() == keys.len()
    &&& forall|j: int|
        0 <= j < keys.len() ==> {
            &&& (#[trigger] r.fields[j]).0 == keys[j].0
            &&& tag_of_value(r.fields[j].1) == keys[j].1
            &&& wf_value(r.fields[j].1)
        }
}

/// Well-formed hdata: non-empty path of `/`-free UTF-8 segments, a non-empty
/// schema of `,`- and `:`-free UTF-8 column names, and records that all match
/// the schema.
pub open spec fn wf_hdata(h: HdataView) -> bool
    decreases h,
{
    &&& 1 <= h.h_path.len()
    &&& forall|i: int|
        0 <= i < h.h_path.len() ==> valid_utf8(#[trigger] h.h_path[i]) && !h.h_path[i].contains(
            '/' as u8,
        )
    &&& join_path(h.h_path).len() < 0xFFFFFFFF
    &&& 1 <= h.keys.len()
    &&& forall|i: int|
        0 <= i < h.keys.len() ==> {
            &&& valid_utf8((#[trigger] h.keys[i]).0)
            &&& !h.keys[i].0.contains(',' as u8)
            &&& !h.keys[i].0.contains(':' as u8)
        }
    &&& join_keys(h.keys).len() < 0xFFFFFFFF
    &&& h.records.len() < 0x1_0000_0000
    &&& forall|i: int|
        0 <= i < h.records.len() ==> wf_record(#[trigger] h.records[i], h.h_path.len() as int, h.keys)
}

/// Well-formed wire value: every container declares the tags its contents
/// carry, every count fits the wire's 32-bit fields, and all text is UTF-8.
pub open spec fn wf_value(v: WeechatTypeView) -> bool
    decreases v,
{
    match v {
        WeechatTypeView::Char(_) => true,
        WeechatTypeView::Int(_) => true,
        WeechatTypeView::Long(_) => true,
        WeechatTypeView::Str(s) => wf_wstring(s),
        WeechatTypeView::Buffer(b) => b matches Some(bb) ==> bb.len() < 0xFFFFFFFF,
        WeechatTypeView::Pointer(_) => true,
        WeechatTypeView::Time(_) => true,
        WeechatTypeView::HashTable(kt, vt, pairs) => {
            &&& pairs.len() < 0x1_0000_0000
            &&& forall|i: int|
                0 <= i < pairs.len() ==> {
                    &&& tag_of_value((#[trigger] pairs[i]).0) == kt
                    &&& tag_of_value(pairs[i].1) == vt
                    &&& wf_value(pairs[i].0)
                    &&& wf_value(pairs[i].1)
                }
        },
        WeechatTypeView::Hdata(h) => wf_hdata(h),
        WeechatTypeView::Info(n, w) => wf_wstring(n) && wf_wstring(w),
        WeechatTypeView::InfoList(n, items) => {
            &&& wf_wstring(n)
            &&& items.len() < 0x1_0000_0000
            &&& forall|i: int|
                0 <= i < items.len() ==> wf_text((#[trigger] items[i]).0) && wf_value(items[i].1)
        },
        WeechatTypeView::Array(t, elems) => {
            &&& elems.len() < 0x1_0000_0000
            &&& forall|i: int|
                0 <= i < elems.len() ==> tag_of_value(#[trigger] elems[i]) == t && wf_value(
                    elems[i],
                )
        },
    }
}

/// Well-formed message body: a UTF-8 id and well-formed top-level values.
pub open spec fn wf_message(m: MessageView) -> bool {
    &&& wf_text(m.id)
    &&& forall|i: int| 0 <= i < m.data.len() ==> wf_value(#[trigger] m.data[i])
}

} // verus!
