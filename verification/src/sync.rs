//! Typed projection of pushed events: each known event id names a record
//! schema, and the matching hdata records are coerced field by field into
//! fixed-shape event values. A missing or mis-shaped field fails the whole
//! projection.
use crate::message::{
    copy_bytes,
    str_bytes,
    Hdata,
    HdataView,
    Message,
    view_record,
    view_value,
    WeechatString,
    WeechatStringView,
    WeechatType,
    WeechatTypeView,
};
use vstd::prelude::*;
use vstd::string::StringSliceAdditionalSpecFns;

verus! {

broadcast use crate::message::lemma_bytes_deep_view;

/// Errors of the projection layer.
#[derive(PartialEq, Eq, Debug)]
pub enum SyncErrorType {
    /// The named schema field is missing or of the wrong shape.
    InvalidField(Vec<u8>),
    /// The payload is not the value shape the event calls for.
    UnexpectedShape,
    /// The event id names no known schema.
    UnknownEventId,
}

/// The first value stored under `name`, scanning the fields in order.
pub open spec fn lookup(fields: Seq<(Seq<u8>, WeechatTypeView)>, name: Seq<u8>) -> Option<
    WeechatTypeView,
>
    decreases fields.len(),
{
    if fields.len() == 0 {
        None
    } else if fields[0].0 == name {
        Some(fields[0].1)
    } else {
        lookup(fields.drop_first(), name)
    }
}

/// The value stored under `name` in record `i`.
pub open spec fn field_of(h: HdataView, i: int, name: Seq<u8>) -> Option<WeechatTypeView> {
    if 0 <= i < h.records.len() {
        lookup(h.records[i].fields, name)
    } else {
        None
    }
}

/// Coerces to a signed byte.
pub open spec fn as_char(v: WeechatTypeView) -> Option<i8> {
    match v {
        WeechatTypeView::Char(c) => Some(c),
        _ => None,
    }
}

/// Coerces to a 32-bit integer.
pub open spec fn as_int(v: WeechatTypeView) -> Option<i32> {
    match v {
        WeechatTypeView::Int(i) => Some(i),
        _ => None,
    }
}

/// Coerces to a long integer.
pub open spec fn as_long(v: WeechatTypeView) -> Option<i128> {
    match v {
        WeechatTypeView::Long(l) => Some(l),
        _ => None,
    }
}

/// Coerces to a pointer or a time, both unsigned.
pub open spec fn as_pointer(v: WeechatTypeView) -> Option<u128> {
    match v {
        WeechatTypeView::Pointer(p) => Some(p),
        WeechatTypeView::Time(t) => Some(t),
        _ => None,
    }
}

/// Coerces to a tri-state string.
pub open spec fn as_wstring(v: WeechatTypeView) -> Option<WeechatStringView> {
    match v {
        WeechatTypeView::Str(s) => Some(s),
        _ => None,
    }
}

/// Coerces to a buffer payload.
pub open spec fn as_buffer(v: WeechatTypeView) -> Option<Option<Seq<u8>>> {
    match v {
        WeechatTypeView::Buffer(b) => Some(b),
        _ => None,
    }
}

/// Coerces to a boolean: a `chr` that is true exactly on 1.
pub open spec fn as_bool(v: WeechatTypeView) -> Option<bool> {
    match v {
        WeechatTypeView::Char(c) => Some(c == 1),
        _ => None,
    }
}

/// Coerces every element of a sequence to a tri-state string.
pub open spec fn strings_of(elems: Seq<WeechatTypeView>) -> Option<Seq<WeechatStringView>>
    decreases elems.len(),
{
    if elems.len() == 0 {
        Some(Seq::empty())
    } else {
        match elems[0] {
            WeechatTypeView::Str(s) => match strings_of(elems.drop_first()) {
                Some(rest) => Some(seq![s] + rest),
                None => None,
            },
            _ => None,
        }
    }
}

/// Coerces to a sequence of tri-state strings (an array of `str`).
pub open spec fn as_string_list(v: WeechatTypeView) -> Option<Seq<WeechatStringView>> {
    match v {
        WeechatTypeView::Array(_, elems) => strings_of(elems),
        _ => None,
    }
}

/// Coerces every pair of a sequence to tri-state strings.
pub open spec fn string_pairs_of(pairs: Seq<(WeechatTypeView, WeechatTypeView)>) -> Option<
    Seq<(WeechatStringView, WeechatStringView)>,
>
    decreases pairs.len(),
{
    if pairs.len() == 0 {
        Some(Seq::empty())
    } else {
        match (pairs[0].0, pairs[0].1) {
            (WeechatTypeView::Str(k), WeechatTypeView::Str(w)) => match string_pairs_of(
                pairs.drop_first(),
            ) {
                Some(rest) => Some(seq![(k, w)] + rest),
                None => None,
            },
            _ => None,
        }
    }
}

/// Coerces to an ordered string-to-string mapping (a hash table of `str`).
pub open spec fn as_string_map(v: WeechatTypeView) -> Option<
    Seq<(WeechatStringView, WeechatStringView)>,
> {
    match v {
        WeechatTypeView::HashTable(_, _, pairs) => string_pairs_of(pairs),
        _ => None,
    }
}

/// The `name` field of record `i`, as a signed byte.
pub open spec fn field_char(h: HdataView, i: int, name: Seq<u8>) -> Option<i8> {
    match field_of(h, i, name) {
        Some(v) => as_char(v),
        None => None,
    }
}

/// The `name` field of record `i`, as a 32-bit integer.
pub open spec fn field_int(h: HdataView, i: int, name: Seq<u8>) -> Option<i32> {
    match field_of(h, i, name) {
        Some(v) => as_int(v),
        None => None,
    }
}

/// The `name` field of record `i`, as a long integer.
pub open spec fn field_long(h: HdataView, i: int, name: Seq<u8>) -> Option<i128> {
    match field_of(h, i, name) {
        Some(v) => as_long(v),
        None => None,
    }
}

/// The `name` field of record `i`, as a pointer or time.
pub open spec fn field_pointer(h: HdataView, i: int, name: Seq<u8>) -> Option<u128> {
    match field_of(h, i, name) {
        Some(v) => as_pointer(v),
        None => None,
    }
}

/// The `name` field of record `i`, as a tri-state string.
pub open spec fn field_wstring(h: HdataView, i: int, name: Seq<u8>) -> Option<WeechatStringView> {
    match field_of(h, i, name) {
        Some(v) => as_wstring(v),
        None => None,
    }
}

/// The `name` field of record `i`, as a buffer payload.
pub open spec fn field_buffer(h: HdataView, i: int, name: Seq<u8>) -> Option<Option<Seq<u8>>> {
    match field_of(h, i, name) {
        Some(v) => as_buffer(v),
        None => None,
    }
}

/// The `name` field of record `i`, as a boolean.
pub open spec fn field_bool(h: HdataView, i: int, name: Seq<u8>) -> Option<bool> {
    match field_of(h, i, name) {
        Some(v) => as_bool(v),
        None => None,
    }
}

/// The `name` field of record `i`, as a sequence of tri-state strings.
pub open spec fn field_string_list(h: HdataView, i: int, name: Seq<u8>) -> Option<
    Seq<WeechatStringView>,
> {
    match field_of(h, i, name) {
        Some(v) => as_string_list(v),
        None => None,
    }
}

/// The `name` field of record `i`, as an ordered string mapping.
pub open spec fn field_string_map(h: HdataView, i: int, name: Seq<u8>) -> Option<
    Seq<(WeechatStringView, WeechatStringView)>,
> {
    match field_of(h, i, name) {
        Some(v) => as_string_map(v),
        None => None,
    }
}

/// Whether a byte vector holds the same bytes as a slice.
fn vec_eq_slice(a: &Vec<u8>, b: &[u8]) -> (r: bool)
    ensures
        r == (a@ == b@),
{
    if a.len() != b.len() {
        return false;
    }
    let mut i: usize = 0;
    while i < a.len()
        invariant
            a@.len() == b@.len(),
            i <= a@.len(),
            forall|k: int| 0 <= k < i ==> a@[k] == b@[k],
        decreases a@.len() - i,
    {
        if a[i] != b[i] {
            return false;
        }
        i = i + 1;
    }
    proof {
        assert(a@ =~= b@);
    }
    true
}

impl Hdata {
    /// The value stored under `key` in record `index`, if any.
    pub fn get<'a>(&'a self, index: usize, key: &str) -> (r: Option<&'a WeechatType>)
        ensures
            match r {
                Some(v) => field_of(self@, index as int, key.spec_bytes()) == Some(view_value(*v)),
                None => field_of(self@, index as int, key.spec_bytes()) is None,
            },
    {
        if index >= self.values.len() {
            return None;
        }
        let rec = &self.values[index];
        let ghost fv = self@.records[index as int].fields;
        proof {
            assert(self@.records[index as int] == view_record(self.values@[index as int]));
        }
        let kb = key.as_bytes();
        proof {
            assert(fv.skip(0) =~= fv);
        }
        let mut j: usize = 0;
        while j < rec.fields.len()
            invariant
                j <= rec.fields@.len(),
                fv == view_record(*rec).fields,
                index < self@.records.len(),
                self@.records[index as int].fields == fv,
                kb@ == key.spec_bytes(),
                lookup(fv, kb@) == lookup(fv.skip(j as int), kb@),
            decreases rec.fields@.len() - j,
        {
            proof {
                assert(fv.skip(j as int)[0] == fv[j as int]);
                assert(fv[j as int] == (rec.fields@[j as int].0@, view_value(
                    rec.fields@[j as int].1,
                )));
                assert(fv.skip(j as int).drop_first() =~= fv.skip(j + 1));
            }
            if vec_eq_slice(&rec.fields[j].0, kb) {
                return Some(&rec.fields[j].1);
            }
            j = j + 1;
        }
        proof {
            assert(fv.skip(rec.fields@.len() as int).len() == 0);
        }
        None
    }

    /// The `key` field of record `index`, as a signed byte.
    pub fn get_char(&self, index: usize, key: &str) -> (r: Option<i8>)
        ensures
            r == field_char(self@, index as int, key.spec_bytes()),
    {
        match self.get(index, key) {
            Some(WeechatType::Char(c)) => Some(*c),
            _ => None,
        }
    }

    /// The `key` field of record `index`, as a 32-bit integer.
    pub fn get_int(&self, index: usize, key: &str) -> (r: Option<i32>)
        ensures
            r == field_int(self@, index as int, key.spec_bytes()),
    {
        match self.get(index, key) {
            Some(WeechatType::Int(i)) => Some(*i),
            _ => None,
        }
    }

    /// The `key` field of record `index`, as a long integer.
    pub fn get_long(&self, index: usize, key: &str) -> (r: Option<i128>)
        ensures
            r == field_long(self@, index as int, key.spec_bytes()),
    {
        match self.get(index, key) {
            Some(WeechatType::Long(l)) => Some(*l),
            _ => None,
        }
    }

    /// The `key` field of record `index`, as a pointer or time.
    pub fn get_pointer(&self, index: usize, key: &str) -> (r: Option<u128>)
        ensures
            r == field_pointer(self@, index as int, key.spec_bytes()),
    {
        match self.get(index, key) {
            Some(WeechatType::Pointer(p)) => Some(*p),
            Some(WeechatType::Time(t)) => Some(*t),
            _ => None,
        }
    }

    /// The `key` field of record `index`, as a tri-state string.
    pub fn get_string(&self, index: usize, key: &str) -> (r: Option<WeechatString>)
        ensures
            r.deep_view() == field_wstring(self@, index as int, key.spec_bytes()),
    {
        match self.get(index, key) {
            Some(WeechatType::Str(s)) => Some(s.duplicate()),
            _ => None,
        }
    }

    /// The `key` field of record `index`, as a buffer payload.
    pub fn get_buffer(&self, index: usize, key: &str) -> (r: Option<Option<Vec<u8>>>)
        ensures
            r.deep_view() == field_buffer(self@, index as int, key.spec_bytes()),
    {
        match self.get(index, key) {
            Some(WeechatType::Buffer(Some(b))) => Some(Some(copy_bytes(b))),
            Some(WeechatType::Buffer(None)) => Some(None),
            _ => None,
        }
    }

    /// The `key` field of record `index`, as a boolean.
    pub fn get_bool(&self, index: usize, key: &str) -> (r: Option<bool>)
        ensures
            r == field_bool(self@, index as int, key.spec_bytes()),
    {
        match self.get(index, key) {
            Some(WeechatType::Char(c)) => Some(*c == 1),
            _ => None,
        }
    }

    /// The `key` field of record `index`, as a vector of tri-state strings.
    pub fn get_string_array(&self, index: usize, key: &str) -> (r: Option<Vec<WeechatString>>)
        ensures
            r.deep_view() == field_string_list(self@, index as int, key.spec_bytes()),
    {
        match self.get(index, key) {
            Some(v) => match v {
                WeechatType::Array(_, elems) => {
                    proof {
                        let es = match view_value(*v) {
                            WeechatTypeView::Array(_, es) => es,
                            _ => vstd::pervasive::arbitrary(),
                        };
                        assert(es =~= elems.deep_view());
                        assert(elems.deep_view().skip(0) =~= elems.deep_view());
                    }
                    collect_strings(elems, 0)
                },
                _ => None,
            },
            None => None,
        }
    }

    /// The `key` field of record `index`, as an ordered string mapping.
    pub fn get_string_map(&self, index: usize, key: &str) -> (r: Option<
        Vec<(WeechatString, WeechatString)>,
    >)
        ensures
            r.deep_view() == field_string_map(self@, index as int, key.spec_bytes()),
    {
        match self.get(index, key) {
            Some(v) => match v {
                WeechatType::HashTable(_, _, pairs) => {
                    proof {
                        let pv = match view_value(*v) {
                            WeechatTypeView::HashTable(_, _, ps) => ps,
                            _ => vstd::pervasive::arbitrary(),
                        };
                        assert(pv =~= pairs.deep_view());
                        assert(pairs.deep_view().skip(0) =~= pairs.deep_view());
                    }
                    collect_string_pairs(pairs, 0)
                },
                _ => None,
            },
            None => None,
        }
    }
}

/// Coerces the elements from `j` on to tri-state strings.
fn collect_strings(elems: &Vec<WeechatType>, j: usize) -> (r: Option<Vec<WeechatString>>)
    requires
        j <= elems@.len(),
    ensures
        r.deep_view() == strings_of(elems.deep_view().skip(j as int)),
    decreases elems@.len() - j,
{
    let ghost es = elems.deep_view().skip(j as int);
    if j >= elems.len() {
        let out: Vec<WeechatString> = Vec::new();
        proof {
            assert(out.deep_view() =~= Seq::<WeechatStringView>::empty());
        }
        Some(out)
    } else {
        proof {
            assert(es[0] == elems.deep_view()[j as int]);
            assert(es.drop_first() =~= elems.deep_view().skip(j + 1));
        }
        match &elems[j] {
            WeechatType::Str(s) => match collect_strings(elems, j + 1) {
                Some(mut rest) => {
                    let ghost rd = rest.deep_view();
                    rest.insert(0, s.duplicate());
                    proof {
                        assert(rest.deep_view() =~= seq![s@] + rd);
                    }
                    Some(rest)
                },
                None => None,
            },
            _ => None,
        }
    }
}

/// Coerces the pairs from `j` on to tri-state string pairs.
fn collect_string_pairs(pairs: &Vec<(WeechatType, WeechatType)>, j: usize) -> (r: Option<
    Vec<(WeechatString, WeechatString)>,
>)
    requires
        j <= pairs@.len(),
    ensures
        r.deep_view() == string_pairs_of(pairs.deep_view().skip(j as int)),
    decreases pairs@.len() - j,
{
    let ghost ps = pairs.deep_view().skip(j as int);
    if j >= pairs.len() {
        let out: Vec<(WeechatString, WeechatString)> = Vec::new();
        proof {
            assert(out.deep_view() =~= Seq::<(WeechatStringView, WeechatStringView)>::empty());
        }
        Some(out)
    } else {
        proof {
            assert(ps[0] == pairs.deep_view()[j as int]);
            assert(ps.drop_first() =~= pairs.deep_view().skip(j + 1));
        }
        match (&pairs[j].0, &pairs[j].1) {
            (WeechatType::Str(k), WeechatType::Str(w)) => match collect_string_pairs(
                pairs,
                j + 1,
            ) {
                Some(mut rest) => {
                    let ghost rd = rest.deep_view();
                    rest.insert(0, (k.duplicate(), w.duplicate()));
                    proof {
                        assert(rest.deep_view() =~= seq![(k@, w@)] + rd);
                    }
                    Some(rest)
                },
                None => None,
            },
            _ => None,
        }
    }
}

/// Event record carried by `_buffer_opened` frames.
#[derive(Debug, PartialEq)]
pub struct BufferOpened {
    pub number: i32,
    pub full_name: WeechatString,
    pub short_name: WeechatString,
    pub nicklist: i32,
    pub title: WeechatString,
    pub local_variables: Vec<(WeechatString, WeechatString)>,
    pub prev_buffer: u128,
    pub next_buffer: u128,
}

impl BufferOpened {
    /// Every schema field of record `i` is present with its declared shape.
    pub open spec fn ok_at(h: HdataView, i: int) -> bool {
        &&& field_int(h, i, "number".spec_bytes()) is Some
        &&& field_wstring(h, i, "full_name".spec_bytes()) is Some
        &&& field_wstring(h, i, "short_name".spec_bytes()) is Some
        &&& field_int(h, i, "nicklist".spec_bytes()) is Some
        &&& field_wstring(h, i, "title".spec_bytes()) is Some
        &&& field_string_map(h, i, "local_variables".spec_bytes()) is Some
        &&& field_pointer(h, i, "prev_buffer".spec_bytes()) is Some
        &&& field_pointer(h, i, "next_buffer".spec_bytes()) is Some
    }

    /// This value is the projection of record `i`.
    pub open spec fn projected_from(self, h: HdataView, i: int) -> bool {
        &&& field_int(h, i, "number".spec_bytes()) == Some(self.number)
        &&& field_wstring(h, i, "full_name".spec_bytes()) == Some(self.full_name@)
        &&& field_wstring(h, i, "short_name".spec_bytes()) == Some(self.short_name@)
        &&& field_int(h, i, "nicklist".spec_bytes()) == Some(self.nicklist)
        &&& field_wstring(h, i, "title".spec_bytes()) == Some(self.title@)
        &&& field_string_map(h, i, "local_variables".spec_bytes()) == Some(self.local_variables.deep_view())
        &&& field_pointer(h, i, "prev_buffer".spec_bytes()) == Some(self.prev_buffer)
        &&& field_pointer(h, i, "next_buffer".spec_bytes()) == Some(self.next_buffer)
    }

    /// The payload projects whole: an hdata whose every record carries the
    /// schema's fields.
    pub open spec fn projectable(item: WeechatTypeView) -> bool {
        &&& item is Hdata
        &&& forall|i: int|
            0 <= i < item->Hdata_0.records.len() ==> #[trigger] Self::ok_at(item->Hdata_0, i)
    }

    /// A record that misses a field refutes the whole projection.
    proof fn not_projectable_witness(h: HdataView, i: int)
        requires
            0 <= i < h.records.len(),
            !Self::ok_at(h, i),
        ensures
            !Self::projectable(WeechatTypeView::Hdata(h)),
    {
        assert(WeechatTypeView::Hdata(h)->Hdata_0 == h);
        if Self::projectable(WeechatTypeView::Hdata(h)) {
            assert(Self::ok_at(h, i));
        }
    }

    /// Projects record `index`; any missing or mis-shaped field fails.
    pub fn parse_one(data: &Hdata, index: usize) -> (r: Result<BufferOpened, SyncErrorType>)
        ensures
            match r {
                Ok(rec) => Self::ok_at(data@, index as int) && rec.projected_from(
                    data@,
                    index as int,
                ),
                Err(_) => !Self::ok_at(data@, index as int),
            },
    {
        let number = match data.get_int(index, "number") {
            Some(v) => v,
            None => {
                return Err(SyncErrorType::InvalidField(str_bytes("number")));
            },
        };
        let full_name = match data.get_string(index, "full_name") {
            Some(v) => v,
            None => {
                return Err(SyncErrorType::InvalidField(str_bytes("full_name")));
            },
        };
        let short_name = match data.get_string(index, "short_name") {
            Some(v) => v,
            None => {
                return Err(SyncErrorType::InvalidField(str_bytes("short_name")));
            },
        };
        let nicklist = match data.get_int(index, "nicklist") {
            Some(v) => v,
            None => {
                return Err(SyncErrorType::InvalidField(str_bytes("nicklist")));
            },
        };
        let title = match data.get_string(index, "title") {
            Some(v) => v,
            None => {
                return Err(SyncErrorType::InvalidField(str_bytes("title")));
            },
        };
        let local_variables = match data.get_string_map(index, "local_variables") {
            Some(v) => v,
            None => {
                return Err(SyncErrorType::InvalidField(str_bytes("local_variables")));
            },
        };
        let prev_buffer = match data.get_pointer(index, "prev_buffer") {
            Some(v) => v,
            None => {
                return Err(SyncErrorType::InvalidField(str_bytes("prev_buffer")));
            },
        };
        let next_buffer = match data.get_pointer(index, "next_buffer") {
            Some(v) => v,
            None => {
                return Err(SyncErrorType::InvalidField(str_bytes("next_buffer")));
            },
        };
        Ok(BufferOpened { number, full_name, short_name, nicklist, title, local_variables, prev_buffer, next_buffer })
    }

    /// Projects every record of a pushed payload.
    pub fn parse(item: &WeechatType) -> (r: Result<Vec<BufferOpened>, SyncErrorType>)
        ensures
            r is Ok <==> Self::projectable(view_value(*item)),
            match r {
                Ok(v) => *item matches WeechatType::Hdata(h) && v@.len()
                    == h@.records.len() && forall|i: int|
                    0 <= i < v@.len() ==> (#[trigger] v@[i]).projected_from(h@, i),
                Err(_) => true,
            },
    {
        match item {
            WeechatType::Hdata(h) => {
                let n = h.len();
                proof {
                    assert(view_value(*item) == WeechatTypeView::Hdata(h@));
                }
                let mut out: Vec<BufferOpened> = Vec::new();
                let mut i: usize = 0;
                while i < n
                    invariant
                        view_value(*item) == WeechatTypeView::Hdata(h@),
                        n == h@.records.len(),
                        i <= n,
                        out@.len() == i,
                        forall|k: int| 0 <= k < i ==> (#[trigger] out@[k]).projected_from(h@, k),
                        forall|k: int| 0 <= k < i ==> Self::ok_at(h@, k),
                    decreases n - i,
                {
                    match Self::parse_one(h, i) {
                        Ok(rec) => {
                            out.push(rec);
                        },
                        Err(e) => {
                            proof {
                                assert(view_value(*item) == WeechatTypeView::Hdata(h@));
                                assert(!Self::ok_at(h@, i as int));
                                Self::not_projectable_witness(h@, i as int);
                                assert(!Self::projectable(view_value(*item)));
                            }
                            return Err(e);
                        },
                    }
                    i = i + 1;
                }
                proof {
                    assert(view_value(*item) == WeechatTypeView::Hdata(h@));
                    assert(view_value(*item)->Hdata_0 == h@);
                    assert(Self::projectable(view_value(*item)));
                }
                Ok(out)
            },
            _ => Err(SyncErrorType::UnexpectedShape),
        }
    }
}

/// Event record carried by `_buffer_moved` frames.
#[derive(Debug, PartialEq)]
pub struct BufferMoved {
    pub number: i32,
    pub full_name: WeechatString,
    pub prev_buffer: u128,
    pub next_buffer: u128,
}

impl BufferMoved {
    /// Every schema field of record `i` is present with its declared shape.
    pub open spec fn ok_at(h: HdataView, i: int) -> bool {
        &&& field_int(h, i, "number".spec_bytes()) is Some
        &&& field_wstring(h, i, "full_name".spec_bytes()) is Some
        &&& field_pointer(h, i, "prev_buffer".spec_bytes()) is Some
        &&& field_pointer(h, i, "next_buffer".spec_bytes()) is Some
    }

    /// This value is the projection of record `i`.
    pub open spec fn projected_from(self, h: HdataView, i: int) -> bool {
        &&& field_int(h, i, "number".spec_bytes()) == Some(self.number)
        &&& field_wstring(h, i, "full_name".spec_bytes()) == Some(self.full_name@)
        &&& field_pointer(h, i, "prev_buffer".spec_bytes()) == Some(self.prev_buffer)
        &&& field_pointer(h, i, "next_buffer".spec_bytes()) == Some(self.next_buffer)
    }

    /// The payload projects whole: an hdata whose every record carries the
    /// schema's fields.
    pub open spec fn projectable(item: WeechatTypeView) -> bool {
        &&& item is Hdata
        &&& forall|i: int|
            0 <= i < item->Hdata_0.records.len() ==> #[trigger] Self::ok_at(item->Hdata_0, i)
    }

    /// A record that misses a field refutes the whole projection.
    proof fn not_projectable_witness(h: HdataView, i: int)
        requires
            0 <= i < h.records.len(),
            !Self::ok_at(h, i),
        ensures
            !Self::projectable(WeechatTypeView::Hdata(h)),
    {
        assert(WeechatTypeView::Hdata(h)->Hdata_0 == h);
        if Self::projectable(WeechatTypeView::Hdata(h)) {
            assert(Self::ok_at(h, i));
        }
    }

    /// Projects record `index`; any missing or mis-shaped field fails.
    pub fn parse_one(data: &Hdata, index: usize) -> (r: Result<BufferMoved, SyncErrorType>)
        ensures
            match r {
                Ok(rec) => Self::ok_at(data@, index as int) && rec.projected_from(
                    data@,
                    index as int,
                ),
                Err(_) => !Self::ok_at(data@, index as int),
            },
    {
        let number = match data.get_int(index, "number") {
            Some(v) => v,
            None => {
                return Err(SyncErrorType::InvalidField(str_bytes("number")));
            },
        };
        let full_name = match data.get_string(index, "full_name") {
            Some(v) => v,
            None => {
                return Err(SyncErrorType::InvalidField(str_bytes("full_name")));
            },
        };
        let prev_buffer = match data.get_pointer(index, "prev_buffer") {
            Some(v) => v,
            None => {
                return Err(SyncErrorType::InvalidField(str_bytes("prev_buffer")));
            },
        };
        let next_buffer = match data.get_pointer(index, "next_buffer") {
            Some(v) => v,
            None => {
                return Err(SyncErrorType::InvalidField(str_bytes("next_buffer")));
            },
        };
        Ok(BufferMoved { number, full_name, prev_buffer, next_buffer })
    }

    /// Projects every record of a pushed payload.
    pub fn parse(item: &WeechatType) -> (r: Result<Vec<BufferMoved>, SyncErrorType>)
        ensures
            r is Ok <==> Self::projectable(view_value(*item)),
            match r {
                Ok(v) => *item matches WeechatType::Hdata(h) && v@.len()
                    == h@.records.len() && forall|i: int|
                    0 <= i < v@.len() ==> (#[trigger] v@[i]).projected_from(h@, i),
                Err(_) => true,
            },
    {
        match item {
            WeechatType::Hdata(h) => {
                let n = h.len();
                proof {
                    assert(view_value(*item) == WeechatTypeView::Hdata(h@));
                }
                let mut out: Vec<BufferMoved> = Vec::new();
                let mut i: usize = 0;
                while i < n
                    invariant
                        view_value(*item) == WeechatTypeView::Hdata(h@),
                        n == h@.records.len(),
                        i <= n,
                        out@.len() == i,
                        forall|k: int| 0 <= k < i ==> (#[trigger] out@[k]).projected_from(h@, k),
                        forall|k: int| 0 <= k < i ==> Self::ok_at(h@, k),
                    decreases n - i,
                {
                    match Self::parse_one(h, i) {
                        Ok(rec) => {
                            out.push(rec);
                        },
                        Err(e) => {
                            proof {
                                assert(view_value(*item) == WeechatTypeView::Hdata(h@));
                                assert(!Self::ok_at(h@, i as int));
                                Self::not_projectable_witness(h@, i as int);
                                assert(!Self::projectable(view_value(*item)));
                            }
                            return Err(e);
                        },
                    }
                    i = i + 1;
                }
                proof {
                    assert(view_value(*item) == WeechatTypeView::Hdata(h@));
                    assert(view_value(*item)->Hdata_0 == h@);
                    assert(Self::projectable(view_value(*item)));
                }
                Ok(out)
            },
            _ => Err(SyncErrorType::UnexpectedShape),
        }
    }
}

/// Event record carried by `_buffer_merged` frames.
#[derive(Debug, PartialEq)]
pub struct BufferMerged {
    pub number: i32,
    pub full_name: WeechatString,
    pub prev_buffer: u128,
    pub next_buffer: u128,
}

impl BufferMerged {
    /// Every schema field of record `i` is present with its declared shape.
    pub open spec fn ok_at(h: HdataView, i: int) -> bool {
        &&& field_int(h, i, "number".spec_bytes()) is Some
        &&& field_wstring(h, i, "full_name".spec_bytes()) is Some
        &&& field_pointer(h, i, "prev_buffer".spec_bytes()) is Some
        &&& field_pointer(h, i, "next_buffer".spec_bytes()) is Some
    }

    /// This value is the projection of record `i`.
    pub open spec fn projected_from(self, h: HdataView, i: int) -> bool {
        &&& field_int(h, i, "number".spec_bytes()) == Some(self.number)
        &&& field_wstring(h, i, "full_name".spec_bytes()) == Some(self.full_name@)
        &&& field_pointer(h, i, "prev_buffer".spec_bytes()) == Some(self.prev_buffer)
        &&& field_pointer(h, i, "next_buffer".spec_bytes()) == Some(self.next_buffer)
    }

    /// The payload projects whole: an hdata whose every record carries the
    /// schema's fields.
    pub open spec fn projectable(item: WeechatTypeView) -> bool {
        &&& item is Hdata
        &&& forall|i: int|
            0 <= i < item->Hdata_0.records.len() ==> #[trigger] Self::ok_at(item->Hdata_0, i)
    }

    /// A record that misses a field refutes the whole projection.
    proof fn not_projectable_witness(h: HdataView, i: int)
        requires
            0 <= i < h.records.len(),
            !Self::ok_at(h, i),
        ensures
            !Self::projectable(WeechatTypeView::Hdata(h)),
    {
        assert(WeechatTypeView::Hdata(h)->Hdata_0 == h);
        if Self::projectable(WeechatTypeView::Hdata(h)) {
            assert(Self::ok_at(h, i));
        }
    }

    /// Projects record `index`; any missing or mis-shaped field fails.
    pub fn parse_one(data: &Hdata, index: usize) -> (r: Result<BufferMerged, SyncErrorType>)
        ensures
            match r {
                Ok(rec) => Self::ok_at(data@, index as int) && rec.projected_from(
                    data@,
                    index as int,
                ),
                Err(_) => !Self::ok_at(data@, index as int),
            },
    {
        let number = match data.get_int(index, "number") {
            Some(v) => v,
            None => {
                return Err(SyncErrorType::InvalidField(str_bytes("number")));
            },
        };
        let full_name = match data.get_string(index, "full_name") {
            Some(v) => v,
            None => {
                return Err(SyncErrorType::InvalidField(str_bytes("full_name")));
            },
        };
        let prev_buffer = match data.get_pointer(index, "prev_buffer") {
            Some(v) => v,
            None => {
                return Err(SyncErrorType::InvalidField(str_bytes("prev_buffer")));
            },
        };
        let next_buffer = match data.get_pointer(index, "next_buffer") {
            Some(v) => v,
            None => {
                return Err(SyncErrorType::InvalidField(str_bytes("next_buffer")));
            },
        };
        Ok(BufferMerged { number, full_name, prev_buffer, next_buffer })
    }

    /// Projects every record of a pushed payload.
    pub fn parse(item: &WeechatType) -> (r: Result<Vec<BufferMerged>, SyncErrorType>)
        ensures
            r is Ok <==> Self::projectable(view_value(*item)),
            match r {
                Ok(v) => *item matches WeechatType::Hdata(h) && v@.len()
                    == h@.records.len() && forall|i: int|
                    0 <= i < v@.len() ==> (#[trigger] v@[i]).projected_from(h@, i),
                Err(_) => true,
            },
    {
        match item {
            WeechatType::Hdata(h) => {
                let n = h.len();
                proof {
                    assert(view_value(*item) == WeechatTypeView::Hdata(h@));
                }
                let mut out: Vec<BufferMerged> = Vec::new();
                let mut i: usize = 0;
                while i < n
                    invariant
                        view_value(*item) == WeechatTypeView::Hdata(h@),
                        n == h@.records.len(),
                        i <= n,
                        out@.len() == i,
                        forall|k: int| 0 <= k < i ==> (#[trigger] out@[k]).projected_from(h@, k),
                        forall|k: int| 0 <= k < i ==> Self::ok_at(h@, k),
                    decreases n - i,
                {
                    match Self::parse_one(h, i) {
                        Ok(rec) => {
                            out.push(rec);
                        },
                        Err(e) => {
                            proof {
                                assert(view_value(*item) == WeechatTypeView::Hdata(h@));
                                assert(!Self::ok_at(h@, i as int));
                                Self::not_projectable_witness(h@, i as int);
                                assert(!Self::projectable(view_value(*item)));
                            }
                            return Err(e);
                        },
                    }
                    i = i + 1;
                }
                proof {
                    assert(view_value(*item) == WeechatTypeView::Hdata(h@));
                    assert(view_value(*item)->Hdata_0 == h@);
                    assert(Self::projectable(view_value(*item)));
                }
                Ok(out)
            },
            _ => Err(SyncErrorType::UnexpectedShape),
        }
    }
}

/// Event record carried by `_buffer_unmerged` frames.
#[derive(Debug, PartialEq)]
pub struct BufferUnmerged {
    pub number: i32,
    pub full_name: WeechatString,
    pub prev_buffer: u128,
    pub next_buffer: u128,
}

impl BufferUnmerged {
    /// Every schema field of record `i` is present with its declared shape.
    pub open spec fn ok_at(h: HdataView, i: int) -> bool {
        &&& field_int(h, i, "number".spec_bytes()) is Some
        &&& field_wstring(h, i, "full_name".spec_bytes()) is Some
        &&& field_pointer(h, i, "prev_buffer".spec_bytes()) is Some
        &&& field_pointer(h, i, "next_buffer".spec_bytes()) is Some
    }

    /// This value is the projection of record `i`.
    pub open spec fn projected_from(self, h: HdataView, i: int) -> bool {
        &&& field_int(h, i, "number".spec_bytes()) == Some(self.number)
        &&& field_wstring(h, i, "full_name".spec_bytes()) == Some(self.full_name@)
        &&& field_pointer(h, i, "prev_buffer".spec_bytes()) == Some(self.prev_buffer)
        &&& field_pointer(h, i, "next_buffer".spec_bytes()) == Some(self.next_buffer)
    }

    /// The payload projects whole: an hdata whose every record carries the
    /// schema's fields.
    pub open spec fn projectable(item: WeechatTypeView) -> bool {
        &&& item is Hdata
        &&& forall|i: int|
            0 <= i < item->Hdata_0.records.len() ==> #[trigger] Self::ok_at(item->Hdata_0, i)
    }

    /// A record that misses a field refutes the whole projection.
    proof fn not_projectable_witness(h: HdataView, i: int)
        requires
            0 <= i < h.records.len(),
            !Self::ok_at(h, i),
        ensures
            !Self::projectable(WeechatTypeView::Hdata(h)),
    {
        assert(WeechatTypeView::Hdata(h)->Hdata_0 == h);
        if Self::projectable(WeechatTypeView::Hdata(h)) {
            assert(Self::ok_at(h, i));
        }
    }

    /// Projects record `index`; any missing or mis-shaped field fails.
    pub fn parse_one(data: &Hdata, index: usize) -> (r: Result<BufferUnmerged, SyncErrorType>)
        ensures
            match r {
                Ok(rec) => Self::ok_at(data@, index as int) && rec.projected_from(
                    data@,
                    index as int,
                ),
                Err(_) => !Self::ok_at(data@, index as int),
            },
    {
        let number = match data.get_int(index, "number") {
            Some(v) => v,
            None => {
                return Err(SyncErrorType::InvalidField(str_bytes("number")));
            },
        };
        let full_name = match data.get_string(index, "full_name") {
            Some(v) => v,
            None => {
                return Err(SyncErrorType::InvalidField(str_bytes("full_name")));
            },
        };
        let prev_buffer = match data.get_pointer(index, "prev_buffer") {
            Some(v) => v,
            None => {
                return Err(SyncErrorType::InvalidField(str_bytes("prev_buffer")));
            },
        };
        let next_buffer = match data.get_pointer(index, "next_buffer") {
            Some(v) => v,
            None => {
                return Err(SyncErrorType::InvalidField(str_bytes("next_buffer")));
            },
        };
        Ok(BufferUnmerged { number, full_name, prev_buffer, next_buffer })
    }

    /// Projects every record of a pushed payload.
    pub fn parse(item: &WeechatType) -> (r: Result<Vec<BufferUnmerged>, SyncErrorType>)
        ensures
            r is Ok <==> Self::projectable(view_value(*item)),
            match r {
                Ok(v) => *item matches WeechatType::Hdata(h) && v@.len()
                    == h@.records.len() && forall|i: int|
                    0 <= i < v@.len() ==> (#[trigger] v@[i]).projected_from(h@, i),
                Err(_) => true,
            },
    {
        match item {
            WeechatType::Hdata(h) => {
                let n = h.len();
                proof {
                    assert(view_value(*item) == WeechatTypeView::Hdata(h@));
                }
                let mut out: Vec<BufferUnmerged> = Vec::new();
                let mut i: usize = 0;
                while i < n
                    invariant
                        view_value(*item) == WeechatTypeView::Hdata(h@),
                        n == h@.records.len(),
                        i <= n,
                        out@.len() == i,
                        forall|k: int| 0 <= k < i ==> (#[trigger] out@[k]).projected_from(h@, k),
                        forall|k: int| 0 <= k < i ==> Self::ok_at(h@, k),
                    decreases n - i,
                {
                    match Self::parse_one(h, i) {
                        Ok(rec) => {
                            out.push(rec);
                        },
                        Err(e) => {
                            proof {
                                assert(view_value(*item) == WeechatTypeView::Hdata(h@));
                                assert(!Self::ok_at(h@, i as int));
                                Self::not_projectable_witness(h@, i as int);
                                assert(!Self::projectable(view_value(*item)));
                            }
                            return Err(e);
                        },
                    }
                    i = i + 1;
                }
                proof {
                    assert(view_value(*item) == WeechatTypeView::Hdata(h@));
                    assert(view_value(*item)->Hdata_0 == h@);
                    assert(Self::projectable(view_value(*item)));
                }
                Ok(out)
            },
            _ => Err(SyncErrorType::UnexpectedShape),
        }
    }
}

/// Event record carried by `_buffer_hidden` frames.
#[derive(Debug, PartialEq)]
pub struct BufferHidden {
    pub number: i32,
    pub full_name: WeechatString,
    pub prev_buffer: u128,
    pub next_buffer: u128,
}

impl BufferHidden {
    /// Every schema field of record `i` is present with its declared shape.
    pub open spec fn ok_at(h: HdataView, i: int) -> bool {
        &&& field_int(h, i, "number".spec_bytes()) is Some
        &&& field_wstring(h, i, "full_name".spec_bytes()) is Some
        &&& field_pointer(h, i, "prev_buffer".spec_bytes()) is Some
        &&& field_pointer(h, i, "next_buffer".spec_bytes()) is Some
    }

    /// This value is the projection of record `i`.
    pub open spec fn projected_from(self, h: HdataView, i: int) -> bool {
        &&& field_int(h, i, "number".spec_bytes()) == Some(self.number)
        &&& field_wstring(h, i, "full_name".spec_bytes()) == Some(self.full_name@)
        &&& field_pointer(h, i, "prev_buffer".spec_bytes()) == Some(self.prev_buffer)
        &&& field_pointer(h, i, "next_buffer".spec_bytes()) == Some(self.next_buffer)
    }

    /// The payload projects whole: an hdata whose every record carries the
    /// schema's fields.
    pub open spec fn projectable(item: WeechatTypeView) -> bool {
        &&& item is Hdata
        &&& forall|i: int|
            0 <= i < item->Hdata_0.records.len() ==> #[trigger] Self::ok_at(item->Hdata_0, i)
    }

    /// A record that misses a field refutes the whole projection.
    proof fn not_projectable_witness(h: HdataView, i: int)
        requires
            0 <= i < h.records.len(),
            !Self::ok_at(h, i),
        ensures
            !Self::projectable(WeechatTypeView::Hdata(h)),
    {
        assert(WeechatTypeView::Hdata(h)->Hdata_0 == h);
        if Self::projectable(WeechatTypeView::Hdata(h)) {
            assert(Self::ok_at(h, i));
        }
    }

    /// Projects record `index`; any missing or mis-shaped field fails.
    pub fn parse_one(data: &Hdata, index: usize) -> (r: Result<BufferHidden, SyncErrorType>)
        ensures
            match r {
                Ok(rec) => Self::ok_at(data@, index as int) && rec.projected_from(
                    data@,
                    index as int,
                ),
                Err(_) => !Self::ok_at(data@, index as int),
            },
    {
        let number = match data.get_int(index, "number") {
            Some(v) => v,
            None => {
                return Err(SyncErrorType::InvalidField(str_bytes("number")));
            },
        };
        let full_name = match data.get_string(index, "full_name") {
            Some(v) => v,
            None => {
                return Err(SyncErrorType::InvalidField(str_bytes("full_name")));
            },
        };
        let prev_buffer = match data.get_pointer(index, "prev_buffer") {
            Some(v) => v,
            None => {
                return Err(SyncErrorType::InvalidField(str_bytes("prev_buffer")));
            },
        };
        let next_buffer = match data.get_pointer(index, "next_buffer") {
            Some(v) => v,
            None => {
                return Err(SyncErrorType::InvalidField(str_bytes("next_buffer")));
            },
        };
        Ok(BufferHidden { number, full_name, prev_buffer, next_buffer })
    }

    /// Projects every record of a pushed payload.
    pub fn parse(item: &WeechatType) -> (r: Result<Vec<BufferHidden>, SyncErrorType>)
        ensures
            r is Ok <==> Self::projectable(view_value(*item)),
            match r {
                Ok(v) => *item matches WeechatType::Hdata(h) && v@.len()
                    == h@.records.len() && forall|i: int|
                    0 <= i < v@.len() ==> (#[trigger] v@[i]).projected_from(h@, i),
                Err(_) => true,
            },
    {
        match item {
            WeechatType::Hdata(h) => {
                let n = h.len();
                proof {
                    assert(view_value(*item) == WeechatTypeView::Hdata(h@));
                }
                let mut out: Vec<BufferHidden> = Vec::new();
                let mut i: usize = 0;
                while i < n
                    invariant
                        view_value(*item) == WeechatTypeView::Hdata(h@),
                        n == h@.records.len(),
                        i <= n,
                        out@.len() == i,
                        forall|k: int| 0 <= k < i ==> (#[trigger] out@[k]).projected_from(h@, k),
                        forall|k: int| 0 <= k < i ==> Self::ok_at(h@, k),
                    decreases n - i,
                {
                    match Self::parse_one(h, i) {
                        Ok(rec) => {
                            out.push(rec);
                        },
                        Err(e) => {
                            proof {
                                assert(view_value(*item) == WeechatTypeView::Hdata(h@));
                                assert(!Self::ok_at(h@, i as int));
                                Self::not_projectable_witness(h@, i as int);
                                assert(!Self::projectable(view_value(*item)));
                            }
                            return Err(e);
                        },
                    }
                    i = i + 1;
                }
                proof {
                    assert(view_value(*item) == WeechatTypeView::Hdata(h@));
                    assert(view_value(*item)->Hdata_0 == h@);
                    assert(Self::projectable(view_value(*item)));
                }
                Ok(out)
            },
            _ => Err(SyncErrorType::UnexpectedShape),
        }
    }
}

/// Event record carried by `_buffer_unhidden` frames.
#[derive(Debug, PartialEq)]
pub struct BufferUnhidden {
    pub number: i32,
    pub full_name: WeechatString,
    pub prev_buffer: u128,
    pub next_buffer: u128,
}

impl BufferUnhidden {
    /// Every schema field of record `i` is present with its declared shape.
    pub open spec fn ok_at(h: HdataView, i: int) -> bool {
        &&& field_int(h, i, "number".spec_bytes()) is Some
        &&& field_wstring(h, i, "full_name".spec_bytes()) is Some
        &&& field_pointer(h, i, "prev_buffer".spec_bytes()) is Some
        &&& field_pointer(h, i, "next_buffer".spec_bytes()) is Some
    }

    /// This value is the projection of record `i`.
    pub open spec fn projected_from(self, h: HdataView, i: int) -> bool {
        &&& field_int(h, i, "number".spec_bytes()) == Some(self.number)
        &&& field_wstring(h, i, "full_name".spec_bytes()) == Some(self.full_name@)
        &&& field_pointer(h, i, "prev_buffer".spec_bytes()) == Some(self.prev_buffer)
        &&& field_pointer(h, i, "next_buffer".spec_bytes()) == Some(self.next_buffer)
    }

    /// The payload projects whole: an hdata whose every record carries the
    /// schema's fields.
    pub open spec fn projectable(item: WeechatTypeView) -> bool {
        &&& item is Hdata
        &&& forall|i: int|
            0 <= i < item->Hdata_0.records.len() ==> #[trigger] Self::ok_at(item->Hdata_0, i)
    }

    /// A record that misses a field refutes the whole projection.
    proof fn not_projectable_witness(h: HdataView, i: int)
        requires
            0 <= i < h.records.len(),
            !Self::ok_at(h, i),
        ensures
            !Self::projectable(WeechatTypeView::Hdata(h)),
    {
        assert(WeechatTypeView::Hdata(h)->Hdata_0 == h);
        if Self::projectable(WeechatTypeView::Hdata(h)) {
            assert(Self::ok_at(h, i));
        }
    }

    /// Projects record `index`; any missing or mis-shaped field fails.
    pub fn parse_one(data: &Hdata, index: usize) -> (r: Result<BufferUnhidden, SyncErrorType>)
        ensures
            match r {
                Ok(rec) => Self::ok_at(data@, index as int) && rec.projected_from(
                    data@,
                    index as int,
                ),
                Err(_) => !Self::ok_at(data@, index as int),
            },
    {
        let number = match data.get_int(index, "number") {
            Some(v) => v,
            None => {
                return Err(SyncErrorType::InvalidField(str_bytes("number")));
            },
        };
        let full_name = match data.get_string(index, "full_name") {
            Some(v) => v,
            None => {
                return Err(SyncErrorType::InvalidField(str_bytes("full_name")));
            },
        };
        let prev_buffer = match data.get_pointer(index, "prev_buffer") {
            Some(v) => v,
            None => {
                return Err(SyncErrorType::InvalidField(str_bytes("prev_buffer")));
            },
        };
        let next_buffer = match data.get_pointer(index, "next_buffer") {
            Some(v) => v,
            None => {
                return Err(SyncErrorType::InvalidField(str_bytes("next_buffer")));
            },
        };
        Ok(BufferUnhidden { number, full_name, prev_buffer, next_buffer })
    }

    /// Projects every record of a pushed payload.
    pub fn parse(item: &WeechatType) -> (r: Result<Vec<BufferUnhidden>, SyncErrorType>)
        ensures
            r is Ok <==> Self::projectable(view_value(*item)),
            match r {
                Ok(v) => *item matches WeechatType::Hdata(h) && v@.len()
                    == h@.records.len() && forall|i: int|
                    0 <= i < v@.len() ==> (#[trigger] v@[i]).projected_from(h@, i),
                Err(_) => true,
            },
    {
        match item {
            WeechatType::Hdata(h) => {
                let n = h.len();
                proof {
                    assert(view_value(*item) == WeechatTypeView::Hdata(h@));
                }
                let mut out: Vec<BufferUnhidden> = Vec::new();
                let mut i: usize = 0;
                while i < n
                    invariant
                        view_value(*item) == WeechatTypeView::Hdata(h@),
                        n == h@.records.len(),
                        i <= n,
                        out@.len() == i,
                        forall|k: int| 0 <= k < i ==> (#[trigger] out@[k]).projected_from(h@, k),
                        forall|k: int| 0 <= k < i ==> Self::ok_at(h@, k),
                    decreases n - i,
                {
                    match Self::parse_one(h, i) {
                        Ok(rec) => {
                            out.push(rec);
                        },
                        Err(e) => {
                            proof {
                                assert(view_value(*item) == WeechatTypeView::Hdata(h@));
                                assert(!Self::ok_at(h@, i as int));
                                Self::not_projectable_witness(h@, i as int);
                                assert(!Self::projectable(view_value(*item)));
                            }
                            return Err(e);
                        },
                    }
                    i = i + 1;
                }
                proof {
                    assert(view_value(*item) == WeechatTypeView::Hdata(h@));
                    assert(view_value(*item)->Hdata_0 == h@);
                    assert(Self::projectable(view_value(*item)));
                }
                Ok(out)
            },
            _ => Err(SyncErrorType::UnexpectedShape),
        }
    }
}

/// Event record carried by `_buffer_renamed` frames.
#[derive(Debug, PartialEq)]
pub struct BufferRenamed {
    pub number: i32,
    pub full_name: WeechatString,
    pub short_name: WeechatString,
    pub local_variables: Vec<(WeechatString, WeechatString)>,
}

impl BufferRenamed {
    /// Every schema field of record `i` is present with its declared shape.
    pub open spec fn ok_at(h: HdataView, i: int) -> bool {
        &&& field_int(h, i, "number".spec_bytes()) is Some
        &&& field_wstring(h, i, "full_name".spec_bytes()) is Some
        &&& field_wstring(h, i, "short_name".spec_bytes()) is Some
        &&& field_string_map(h, i, "local_variables".spec_bytes()) is Some
    }

    /// This value is the projection of record `i`.
    pub open spec fn projected_from(self, h: HdataView, i: int) -> bool {
        &&& field_int(h, i, "number".spec_bytes()) == Some(self.number)
        &&& field_wstring(h, i, "full_name".spec_bytes()) == Some(self.full_name@)
        &&& field_wstring(h, i, "short_name".spec_bytes()) == Some(self.short_name@)
        &&& field_string_map(h, i, "local_variables".spec_bytes()) == Some(self.local_variables.deep_view())
    }

    /// The payload projects whole: an hdata whose every record carries the
    /// schema's fields.
    pub open spec fn projectable(item: WeechatTypeView) -> bool {
        &&& item is Hdata
        &&& forall|i: int|
            0 <= i < item->Hdata_0.records.len() ==> #[trigger] Self::ok_at(item->Hdata_0, i)
    }

    /// A record that misses a field refutes the whole projection.
    proof fn not_projectable_witness(h: HdataView, i: int)
        requires
            0 <= i < h.records.len(),
            !Self::ok_at(h, i),
        ensures
            !Self::projectable(WeechatTypeView::Hdata(h)),
    {
        assert(WeechatTypeView::Hdata(h)->Hdata_0 == h);
        if Self::projectable(WeechatTypeView::Hdata(h)) {
            assert(Self::ok_at(h, i));
        }
    }

    /// Projects record `index`; any missing or mis-shaped field fails.
    pub fn parse_one(data: &Hdata, index: usize) -> (r: Result<BufferRenamed, SyncErrorType>)
        ensures
            match r {
                Ok(rec) => Self::ok_at(data@, index as int) && rec.projected_from(
                    data@,
                    index as int,
                ),
                Err(_) => !Self::ok_at(data@, index as int),
            },
    {
        let number = match data.get_int(index, "number") {
            Some(v) => v,
            None => {
                return Err(SyncErrorType::InvalidField(str_bytes("number")));
            },
        };
        let full_name = match data.get_string(index, "full_name") {
            Some(v) => v,
            None => {
                return Err(SyncErrorType::InvalidField(str_bytes("full_name")));
            },
        };
        let short_name = match data.get_string(index, "short_name") {
            Some(v) => v,
            None => {
                return Err(SyncErrorType::InvalidField(str_bytes("short_name")));
            },
        };
        let local_variables = match data.get_string_map(index, "local_variables") {
            Some(v) => v,
            None => {
                return Err(SyncErrorType::InvalidField(str_bytes("local_variables")));
            },
        };
        Ok(BufferRenamed { number, full_name, short_name, local_variables })
    }

    /// Projects every record of a pushed payload.
    pub fn parse(item: &WeechatType) -> (r: Result<Vec<BufferRenamed>, SyncErrorType>)
        ensures
            r is Ok <==> Self::projectable(view_value(*item)),
            match r {
                Ok(v) => *item matches WeechatType::Hdata(h) && v@.len()
                    == h@.records.len() && forall|i: int|
                    0 <= i < v@.len() ==> (#[trigger] v@[i]).projected_from(h@, i),
                Err(_) => true,
            },
    {
        match item {
            WeechatType::Hdata(h) => {
                let n = h.len();
                proof {
                    assert(view_value(*item) == WeechatTypeView::Hdata(h@));
                }
                let mut out: Vec<BufferRenamed> = Vec::new();
                let mut i: usize = 0;
                while i < n
                    invariant
                        view_value(*item) == WeechatTypeView::Hdata(h@),
                        n == h@.records.len(),
                        i <= n,
                        out@.len() == i,
                        forall|k: int| 0 <= k < i ==> (#[trigger] out@[k]).projected_from(h@, k),
                        forall|k: int| 0 <= k < i ==> Self::ok_at(h@, k),
                    decreases n - i,
                {
                    match Self::parse_one(h, i) {
                        Ok(rec) => {
                            out.push(rec);
                        },
                        Err(e) => {
                            proof {
                                assert(view_value(*item) == WeechatTypeView::Hdata(h@));
                                assert(!Self::ok_at(h@, i as int));
                                Self::not_projectable_witness(h@, i as int);
                                assert(!Self::projectable(view_value(*item)));
                            }
                            return Err(e);
                        },
                    }
                    i = i + 1;
                }
                proof {
                    assert(view_value(*item) == WeechatTypeView::Hdata(h@));
                    assert(view_value(*item)->Hdata_0 == h@);
                    assert(Self::projectable(view_value(*item)));
                }
                Ok(out)
            },
            _ => Err(SyncErrorType::UnexpectedShape),
        }
    }
}

/// Event record carried by `_buffer_title_changed` frames.
#[derive(Debug, PartialEq)]
pub struct BufferTitleChanged {
    pub number: i32,
    pub full_name: WeechatString,
    pub title: WeechatString,
}

impl BufferTitleChanged {
    /// Every schema field of record `i` is present with its declared shape.
    pub open spec fn ok_at(h: HdataView, i: int) -> bool {
        &&& field_int(h, i, "number".spec_bytes()) is Some
        &&& field_wstring(h, i, "full_name".spec_bytes()) is Some
        &&& field_wstring(h, i, "title".spec_bytes()) is Some
    }

    /// This value is the projection of record `i`.
    pub open spec fn projected_from(self, h: HdataView, i: int) -> bool {
        &&& field_int(h, i, "number".spec_bytes()) == Some(self.number)
        &&& field_wstring(h, i, "full_name".spec_bytes()) == Some(self.full_name@)
        &&& field_wstring(h, i, "title".spec_bytes()) == Some(self.title@)
    }

    /// The payload projects whole: an hdata whose every record carries the
    /// schema's fields.
    pub open spec fn projectable(item: WeechatTypeView) -> bool {
        &&& item is Hdata
        &&& forall|i: int|
            0 <= i < item->Hdata_0.records.len() ==> #[trigger] Self::ok_at(item->Hdata_0, i)
    }

    /// A record that misses a field refutes the whole projection.
    proof fn not_projectable_witness(h: HdataView, i: int)
        requires
            0 <= i < h.records.len(),
            !Self::ok_at(h, i),
        ensures
            !Self::projectable(WeechatTypeView::Hdata(h)),
    {
        assert(WeechatTypeView::Hdata(h)->Hdata_0 == h);
        if Self::projectable(WeechatTypeView::Hdata(h)) {
            assert(Self::ok_at(h, i));
        }
    }

    /// Projects record `index`; any missing or mis-shaped field fails.
    pub fn parse_one(data: &Hdata, index: usize) -> (r: Result<BufferTitleChanged, SyncErrorType>)
        ensures
            match r {
                Ok(rec) => Self::ok_at(data@, index as int) && rec.projected_from(
                    data@,
                    index as int,
                ),
                Err(_) => !Self::ok_at(data@, index as int),
            },
    {
        let number = match data.get_int(index, "number") {
            Some(v) => v,
            None => {
                return Err(SyncErrorType::InvalidField(str_bytes("number")));
            },
        };
        let full_name = match data.get_string(index, "full_name") {
            Some(v) => v,
            None => {
                return Err(SyncErrorType::InvalidField(str_bytes("full_name")));
            },
        };
        let title = match data.get_string(index, "title") {
            Some(v) => v,
            None => {
                return Err(SyncErrorType::InvalidField(str_bytes("title")));
            },
        };
        Ok(BufferTitleChanged { number, full_name, title })
    }

    /// Projects every record of a pushed payload.
    pub fn parse(item: &WeechatType) -> (r: Result<Vec<BufferTitleChanged>, SyncErrorType>)
        ensures
            r is Ok <==> Self::projectable(view_value(*item)),
            match r {
                Ok(v) => *item matches WeechatType::Hdata(h) && v@.len()
                    == h@.records.len() && forall|i: int|
                    0 <= i < v@.len() ==> (#[trigger] v@[i]).projected_from(h@, i),
                Err(_) => true,
            },
    {
        match item {
            WeechatType::Hdata(h) => {
                let n = h.len();
                proof {
                    assert(view_value(*item) == WeechatTypeView::Hdata(h@));
                }
                let mut out: Vec<BufferTitleChanged> = Vec::new();
                let mut i: usize = 0;
                while i < n
                    invariant
                        view_value(*item) == WeechatTypeView::Hdata(h@),
                        n == h@.records.len(),
                        i <= n,
                        out@.len() == i,
                        forall|k: int| 0 <= k < i ==> (#[trigger] out@[k]).projected_from(h@, k),
                        forall|k: int| 0 <= k < i ==> Self::ok_at(h@, k),
                    decreases n - i,
                {
                    match Self::parse_one(h, i) {
                        Ok(rec) => {
                            out.push(rec);
                        },
                        Err(e) => {
                            proof {
                                assert(view_value(*item) == WeechatTypeView::Hdata(h@));
                                assert(!Self::ok_at(h@, i as int));
                                Self::not_projectable_witness(h@, i as int);
                                assert(!Self::projectable(view_value(*item)));
                            }
                            return Err(e);
                        },
                    }
                    i = i + 1;
                }
                proof {
                    assert(view_value(*item) == WeechatTypeView::Hdata(h@));
                    assert(view_value(*item)->Hdata_0 == h@);
                    assert(Self::projectable(view_value(*item)));
                }
                Ok(out)
            },
            _ => Err(SyncErrorType::UnexpectedShape),
        }
    }
}

/// Event record carried by `_buffer_cleared` frames.
#[derive(Debug, PartialEq)]
pub struct BufferCleared {
    pub number: i32,
    pub full_name: WeechatString,
}

impl BufferCleared {
    /// Every schema field of record `i` is present with its declared shape.
    pub open spec fn ok_at(h: HdataView, i: int) -> bool {
        &&& field_int(h, i, "number".spec_bytes()) is Some
        &&& field_wstring(h, i, "full_name".spec_bytes()) is Some
    }

    /// This value is the projection of record `i`.
    pub open spec fn projected_from(self, h: HdataView, i: int) -> bool {
        &&& field_int(h, i, "number".spec_bytes()) == Some(self.number)
        &&& field_wstring(h, i, "full_name".spec_bytes()) == Some(self.full_name@)
    }

    /// The payload projects whole: an hdata whose every record carries the
    /// schema's fields.
    pub open spec fn projectable(item: WeechatTypeView) -> bool {
        &&& item is Hdata
        &&& forall|i: int|
            0 <= i < item->Hdata_0.records.len() ==> #[trigger] Self::ok_at(item->Hdata_0, i)
    }

    /// A record that misses a field refutes the whole projection.
    proof fn not_projectable_witness(h: HdataView, i: int)
        requires
            0 <= i < h.records.len(),
            !Self::ok_at(h, i),
        ensures
            !Self::projectable(WeechatTypeView::Hdata(h)),
    {
        assert(WeechatTypeView::Hdata(h)->Hdata_0 == h);
        if Self::projectable(WeechatTypeView::Hdata(h)) {
            assert(Self::ok_at(h, i));
        }
    }

    /// Projects record `index`; any missing or mis-shaped field fails.
    pub fn parse_one(data: &Hdata, index: usize) -> (r: Result<BufferCleared, SyncErrorType>)
        ensures
            match r {
                Ok(rec) => Self::ok_at(data@, index as int) && rec.projected_from(
                    data@,
                    index as int,
                ),
                Err(_) => !Self::ok_at(data@, index as int),
            },
    {
        let number = match data.get_int(index, "number") {
            Some(v) => v,
            None => {
                return Err(SyncErrorType::InvalidField(str_bytes("number")));
            },
        };
        let full_name = match data.get_string(index, "full_name") {
            Some(v) => v,
            None => {
                return Err(SyncErrorType::InvalidField(str_bytes("full_name")));
            },
        };
        Ok(BufferCleared { number, full_name })
    }

    /// Projects every record of a pushed payload.
    pub fn parse(item: &WeechatType) -> (r: Result<Vec<BufferCleared>, SyncErrorType>)
        ensures
            r is Ok <==> Self::projectable(view_value(*item)),
            match r {
                Ok(v) => *item matches WeechatType::Hdata(h) && v@.len()
                    == h@.records.len() && forall|i: int|
                    0 <= i < v@.len() ==> (#[trigger] v@[i]).projected_from(h@, i),
                Err(_) => true,
            },
    {
        match item {
            WeechatType::Hdata(h) => {
                let n = h.len();
                proof {
                    assert(view_value(*item) == WeechatTypeView::Hdata(h@));
                }
                let mut out: Vec<BufferCleared> = Vec::new();
                let mut i: usize = 0;
                while i < n
                    invariant
                        view_value(*item) == WeechatTypeView::Hdata(h@),
                        n == h@.records.len(),
                        i <= n,
                        out@.len() == i,
                        forall|k: int| 0 <= k < i ==> (#[trigger] out@[k]).projected_from(h@, k),
                        forall|k: int| 0 <= k < i ==> Self::ok_at(h@, k),
                    decreases n - i,
                {
                    match Self::parse_one(h, i) {
                        Ok(rec) => {
                            out.push(rec);
                        },
                        Err(e) => {
                            proof {
                                assert(view_value(*item) == WeechatTypeView::Hdata(h@));
                                assert(!Self::ok_at(h@, i as int));
                                Self::not_projectable_witness(h@, i as int);
                                assert(!Self::projectable(view_value(*item)));
                            }
                            return Err(e);
                        },
                    }
                    i = i + 1;
                }
                proof {
                    assert(view_value(*item) == WeechatTypeView::Hdata(h@));
                    assert(view_value(*item)->Hdata_0 == h@);
                    assert(Self::projectable(view_value(*item)));
                }
                Ok(out)
            },
            _ => Err(SyncErrorType::UnexpectedShape),
        }
    }
}

/// Event record carried by `_buffer_type_changed` frames.
#[derive(Debug, PartialEq)]
pub struct BufferTypeChanged {
    pub number: i32,
    pub full_name: WeechatString,
    pub buffer_type: i32,
}

impl BufferTypeChanged {
    /// Every schema field of record `i` is present with its declared shape.
    pub open spec fn ok_at(h: HdataView, i: int) -> bool {
        &&& field_int(h, i, "number".spec_bytes()) is Some
        &&& field_wstring(h, i, "full_name".spec_bytes()) is Some
        &&& field_int(h, i, "type".spec_bytes()) is Some
    }

    /// This value is the projection of record `i`.
    pub open spec fn projected_from(self, h: HdataView, i: int) -> bool {
        &&& field_int(h, i, "number".spec_bytes()) == Some(self.number)
        &&& field_wstring(h, i, "full_name".spec_bytes()) == Some(self.full_name@)
        &&& field_int(h, i, "type".spec_bytes()) == Some(self.buffer_type)
    }

    /// The payload projects whole: an hdata whose every record carries the
    /// schema's fields.
    pub open spec fn projectable(item: WeechatTypeView) -> bool {
        &&& item is Hdata
        &&& forall|i: int|
            0 <= i < item->Hdata_0.records.len() ==> #[trigger] Self::ok_at(item->Hdata_0, i)
    }

    /// A record that misses a field refutes the whole projection.
    proof fn not_projectable_witness(h: HdataView, i: int)
        requires
            0 <= i < h.records.len(),
            !Self::ok_at(h, i),
        ensures
            !Self::projectable(WeechatTypeView::Hdata(h)),
    {
        assert(WeechatTypeView::Hdata(h)->Hdata_0 == h);
        if Self::projectable(WeechatTypeView::Hdata(h)) {
            assert(Self::ok_at(h, i));
        }
    }

    /// Projects record `index`; any missing or mis-shaped field fails.
    pub fn parse_one(data: &Hdata, index: usize) -> (r: Result<BufferTypeChanged, SyncErrorType>)
        ensures
            match r {
                Ok(rec) => Self::ok_at(data@, index as int) && rec.projected_from(
                    data@,
                    index as int,
                ),
                Err(_) => !Self::ok_at(data@, index as int),
            },
    {
        let number = match data.get_int(index, "number") {
            Some(v) => v,
            None => {
                return Err(SyncErrorType::InvalidField(str_bytes("number")));
            },
        };
        let full_name = match data.get_string(index, "full_name") {
            Some(v) => v,
            None => {
                return Err(SyncErrorType::InvalidField(str_bytes("full_name")));
            },
        };
        let buffer_type = match data.get_int(index, "type") {
            Some(v) => v,
            None => {
                return Err(SyncErrorType::InvalidField(str_bytes("type")));
            },
        };
        Ok(BufferTypeChanged { number, full_name, buffer_type })
    }

    /// Projects every record of a pushed payload.
    pub fn parse(item: &WeechatType) -> (r: Result<Vec<BufferTypeChanged>, SyncErrorType>)
        ensures
            r is Ok <==> Self::projectable(view_value(*item)),
            match r {
                Ok(v) => *item matches WeechatType::Hdata(h) && v@.len()
                    == h@.records.len() && forall|i: int|
                    0 <= i < v@.len() ==> (#[trigger] v@[i]).projected_from(h@, i),
                Err(_) => true,
            },
    {
        match item {
            WeechatType::Hdata(h) => {
                let n = h.len();
                proof {
                    assert(view_value(*item) == WeechatTypeView::Hdata(h@));
                }
                let mut out: Vec<BufferTypeChanged> = Vec::new();
                let mut i: usize = 0;
                while i < n
                    invariant
                        view_value(*item) == WeechatTypeView::Hdata(h@),
                        n == h@.records.len(),
                        i <= n,
                        out@.len() == i,
                        forall|k: int| 0 <= k < i ==> (#[trigger] out@[k]).projected_from(h@, k),
                        forall|k: int| 0 <= k < i ==> Self::ok_at(h@, k),
                    decreases n - i,
                {
                    match Self::parse_one(h, i) {
                        Ok(rec) => {
                            out.push(rec);
                        },
                        Err(e) => {
                            proof {
                                assert(view_value(*item) == WeechatTypeView::Hdata(h@));
                                assert(!Self::ok_at(h@, i as int));
                                Self::not_projectable_witness(h@, i as int);
                                assert(!Self::projectable(view_value(*item)));
                            }
                            return Err(e);
                        },
                    }
                    i = i + 1;
                }
                proof {
                    assert(view_value(*item) == WeechatTypeView::Hdata(h@));
                    assert(view_value(*item)->Hdata_0 == h@);
                    assert(Self::projectable(view_value(*item)));
                }
                Ok(out)
            },
            _ => Err(SyncErrorType::UnexpectedShape),
        }
    }
}

/// Event record carried by `_buffer_localvar_added` frames.
#[derive(Debug, PartialEq)]
pub struct BufferLocalvarAdded {
    pub number: i32,
    pub full_name: WeechatString,
    pub local_variables: Vec<(WeechatString, WeechatString)>,
}

impl BufferLocalvarAdded {
    /// Every schema field of record `i` is present with its declared shape.
    pub open spec fn ok_at(h: HdataView, i: int) -> bool {
        &&& field_int(h, i, "number".spec_bytes()) is Some
        &&& field_wstring(h, i, "full_name".spec_bytes()) is Some
        &&& field_string_map(h, i, "local_variables".spec_bytes()) is Some
    }

    /// This value is the projection of record `i`.
    pub open spec fn projected_from(self, h: HdataView, i: int) -> bool {
        &&& field_int(h, i, "number".spec_bytes()) == Some(self.number)
        &&& field_wstring(h, i, "full_name".spec_bytes()) == Some(self.full_name@)
        &&& field_string_map(h, i, "local_variables".spec_bytes()) == Some(self.local_variables.deep_view())
    }

    /// The payload projects whole: an hdata whose every record carries the
    /// schema's fields.
    pub open spec fn projectable(item: WeechatTypeView) -> bool {
        &&& item is Hdata
        &&& forall|i: int|
            0 <= i < item->Hdata_0.records.len() ==> #[trigger] Self::ok_at(item->Hdata_0, i)
    }

    /// A record that misses a field refutes the whole projection.
    proof fn not_projectable_witness(h: HdataView, i: int)
        requires
            0 <= i < h.records.len(),
            !Self::ok_at(h, i),
        ensures
            !Self::projectable(WeechatTypeView::Hdata(h)),
    {
        assert(WeechatTypeView::Hdata(h)->Hdata_0 == h);
        if Self::projectable(WeechatTypeView::Hdata(h)) {
            assert(Self::ok_at(h, i));
        }
    }

    /// Projects record `index`; any missing or mis-shaped field fails.
    pub fn parse_one(data: &Hdata, index: usize) -> (r: Result<BufferLocalvarAdded, SyncErrorType>)
        ensures
            match r {
                Ok(rec) => Self::ok_at(data@, index as int) && rec.projected_from(
                    data@,
                    index as int,
                ),
                Err(_) => !Self::ok_at(data@, index as int),
            },
    {
        let number = match data.get_int(index, "number") {
            Some(v) => v,
            None => {
                return Err(SyncErrorType::InvalidField(str_bytes("number")));
            },
        };
        let full_name = match data.get_string(index, "full_name") {
            Some(v) => v,
            None => {
                return Err(SyncErrorType::InvalidField(str_bytes("full_name")));
            },
        };
        let local_variables = match data.get_string_map(index, "local_variables") {
            Some(v) => v,
            None => {
                return Err(SyncErrorType::InvalidField(str_bytes("local_variables")));
            },
        };
        Ok(BufferLocalvarAdded { number, full_name, local_variables })
    }

    /// Projects every record of a pushed payload.
    pub fn parse(item: &WeechatType) -> (r: Result<Vec<BufferLocalvarAdded>, SyncErrorType>)
        ensures
            r is Ok <==> Self::projectable(view_value(*item)),
            match r {
                Ok(v) => *item matches WeechatType::Hdata(h) && v@.len()
                    == h@.records.len() && forall|i: int|
                    0 <= i < v@.len() ==> (#[trigger] v@[i]).projected_from(h@, i),
                Err(_) => true,
            },
    {
        match item {
            WeechatType::Hdata(h) => {
                let n = h.len();
                proof {
                    assert(view_value(*item) == WeechatTypeView::Hdata(h@));
                }
                let mut out: Vec<BufferLocalvarAdded> = Vec::new();
                let mut i: usize = 0;
                while i < n
                    invariant
                        view_value(*item) == WeechatTypeView::Hdata(h@),
                        n == h@.records.len(),
                        i <= n,
                        out@.len() == i,
                        forall|k: int| 0 <= k < i ==> (#[trigger] out@[k]).projected_from(h@, k),
                        forall|k: int| 0 <= k < i ==> Self::ok_at(h@, k),
                    decreases n - i,
                {
                    match Self::parse_one(h, i) {
                        Ok(rec) => {
                            out.push(rec);
                        },
                        Err(e) => {
                            proof {
                                assert(view_value(*item) == WeechatTypeView::Hdata(h@));
                                assert(!Self::ok_at(h@, i as int));
                                Self::not_projectable_witness(h@, i as int);
                                assert(!Self::projectable(view_value(*item)));
                            }
                            return Err(e);
                        },
                    }
                    i = i + 1;
                }
                proof {
                    assert(view_value(*item) == WeechatTypeView::Hdata(h@));
                    assert(view_value(*item)->Hdata_0 == h@);
                    assert(Self::projectable(view_value(*item)));
                }
                Ok(out)
            },
            _ => Err(SyncErrorType::UnexpectedShape),
        }
    }
}

/// Event record carried by `_buffer_localvar_changed` frames.
#[derive(Debug, PartialEq)]
pub struct BufferLocalvarChanged {
    pub number: i32,
    pub full_name: WeechatString,
    pub local_variables: Vec<(WeechatString, WeechatString)>,
}

impl BufferLocalvarChanged {
    /// Every schema field of record `i` is present with its declared shape.
    pub open spec fn ok_at(h: HdataView, i: int) -> bool {
        &&& field_int(h, i, "number".spec_bytes()) is Some
        &&& field_wstring(h, i, "full_name".spec_bytes()) is Some
        &&& field_string_map(h, i, "local_variables".spec_bytes()) is Some
    }

    /// This value is the projection of record `i`.
    pub open spec fn projected_from(self, h: HdataView, i: int) -> bool {
        &&& field_int(h, i, "number".spec_bytes()) == Some(self.number)
        &&& field_wstring(h, i, "full_name".spec_bytes()) == Some(self.full_name@)
        &&& field_string_map(h, i, "local_variables".spec_bytes()) == Some(self.local_variables.deep_view())
    }

    /// The payload projects whole: an hdata whose every record carries the
    /// schema's fields.
    pub open spec fn projectable(item: WeechatTypeView) -> bool {
        &&& item is Hdata
        &&& forall|i: int|
            0 <= i < item->Hdata_0.records.len() ==> #[trigger] Self::ok_at(item->Hdata_0, i)
    }

    /// A record that misses a field refutes the whole projection.
    proof fn not_projectable_witness(h: HdataView, i: int)
        requires
            0 <= i < h.records.len(),
            !Self::ok_at(h, i),
        ensures
            !Self::projectable(WeechatTypeView::Hdata(h)),
    {
        assert(WeechatTypeView::Hdata(h)->Hdata_0 == h);
        if Self::projectable(WeechatTypeView::Hdata(h)) {
            assert(Self::ok_at(h, i));
        }
    }

    /// Projects record `index`; any missing or mis-shaped field fails.
    pub fn parse_one(data: &Hdata, index: usize) -> (r: Result<BufferLocalvarChanged, SyncErrorType>)
        ensures
            match r {
                Ok(rec) => Self::ok_at(data@, index as int) && rec.projected_from(
                    data@,
                    index as int,
                ),
                Err(_) => !Self::ok_at(data@, index as int),
            },
    {
        let number = match data.get_int(index, "number") {
            Some(v) => v,
            None => {
                return Err(SyncErrorType::InvalidField(str_bytes("number")));
            },
        };
        let full_name = match data.get_string(index, "full_name") {
            Some(v) => v,
            None => {
                return Err(SyncErrorType::InvalidField(str_bytes("full_name")));
            },
        };
        let local_variables = match data.get_string_map(index, "local_variables") {
            Some(v) => v,
            None => {
                return Err(SyncErrorType::InvalidField(str_bytes("local_variables")));
            },
        };
        Ok(BufferLocalvarChanged { number, full_name, local_variables })
    }

    /// Projects every record of a pushed payload.
    pub fn parse(item: &WeechatType) -> (r: Result<Vec<BufferLocalvarChanged>, SyncErrorType>)
        ensures
            r is Ok <==> Self::projectable(view_value(*item)),
            match r {
                Ok(v) => *item matches WeechatType::Hdata(h) && v@.len()
                    == h@.records.len() && forall|i: int|
                    0 <= i < v@.len() ==> (#[trigger] v@[i]).projected_from(h@, i),
                Err(_) => true,
            },
    {
        match item {
            WeechatType::Hdata(h) => {
                let n = h.len();
                proof {
                    assert(view_value(*item) == WeechatTypeView::Hdata(h@));
                }
                let mut out: Vec<BufferLocalvarChanged> = Vec::new();
                let mut i: usize = 0;
                while i < n
                    invariant
                        view_value(*item) == WeechatTypeView::Hdata(h@),
                        n == h@.records.len(),
                        i <= n,
                        out@.len() == i,
                        forall|k: int| 0 <= k < i ==> (#[trigger] out@[k]).projected_from(h@, k),
                        forall|k: int| 0 <= k < i ==> Self::ok_at(h@, k),
                    decreases n - i,
                {
                    match Self::parse_one(h, i) {
                        Ok(rec) => {
                            out.push(rec);
                        },
                        Err(e) => {
                            proof {
                                assert(view_value(*item) == WeechatTypeView::Hdata(h@));
                                assert(!Self::ok_at(h@, i as int));
                                Self::not_projectable_witness(h@, i as int);
                                assert(!Self::projectable(view_value(*item)));
                            }
                            return Err(e);
                        },
                    }
                    i = i + 1;
                }
                proof {
                    assert(view_value(*item) == WeechatTypeView::Hdata(h@));
                    assert(view_value(*item)->Hdata_0 == h@);
                    assert(Self::projectable(view_value(*item)));
                }
                Ok(out)
            },
            _ => Err(SyncErrorType::UnexpectedShape),
        }
    }
}

/// Event record carried by `_buffer_localvar_removed` frames.
#[derive(Debug, PartialEq)]
pub struct BufferLocalvarRemoved {
    pub number: i32,
    pub full_name: WeechatString,
    pub local_variables: Vec<(WeechatString, WeechatString)>,
}

impl BufferLocalvarRemoved {
    /// Every schema field of record `i` is present with its declared shape.
    pub open spec fn ok_at(h: HdataView, i: int) -> bool {
        &&& field_int(h, i, "number".spec_bytes()) is Some
        &&& field_wstring(h, i, "full_name".spec_bytes()) is Some
        &&& field_string_map(h, i, "local_variables".spec_bytes()) is Some
    }

    /// This value is the projection of record `i`.
    pub open spec fn projected_from(self, h: HdataView, i: int) -> bool {
        &&& field_int(h, i, "number".spec_bytes()) == Some(self.number)
        &&& field_wstring(h, i, "full_name".spec_bytes()) == Some(self.full_name@)
        &&& field_string_map(h, i, "local_variables".spec_bytes()) == Some(self.local_variables.deep_view())
    }

    /// The payload projects whole: an hdata whose every record carries the
    /// schema's fields.
    pub open spec fn projectable(item: WeechatTypeView) -> bool {
        &&& item is Hdata
        &&& forall|i: int|
            0 <= i < item->Hdata_0.records.len() ==> #[trigger] Self::ok_at(item->Hdata_0, i)
    }

    /// A record that misses a field refutes the whole projection.
    proof fn not_projectable_witness(h: HdataView, i: int)
        requires
            0 <= i < h.records.len(),
            !Self::ok_at(h, i),
        ensures
            !Self::projectable(WeechatTypeView::Hdata(h)),
    {
        assert(WeechatTypeView::Hdata(h)->Hdata_0 == h);
        if Self::projectable(WeechatTypeView::Hdata(h)) {
            assert(Self::ok_at(h, i));
        }
    }

    /// Projects record `index`; any missing or mis-shaped field fails.
    pub fn parse_one(data: &Hdata, index: usize) -> (r: Result<BufferLocalvarRemoved, SyncErrorType>)
        ensures
            match r {
                Ok(rec) => Self::ok_at(data@, index as int) && rec.projected_from(
                    data@,
                    index as int,
                ),
                Err(_) => !Self::ok_at(data@, index as int),
            },
    {
        let number = match data.get_int(index, "number") {
            Some(v) => v,
            None => {
                return Err(SyncErrorType::InvalidField(str_bytes("number")));
            },
        };
        let full_name = match data.get_string(index, "full_name") {
            Some(v) => v,
            None => {
                return Err(SyncErrorType::InvalidField(str_bytes("full_name")));
            },
        };
        let local_variables = match data.get_string_map(index, "local_variables") {
            Some(v) => v,
            None => {
                return Err(SyncErrorType::InvalidField(str_bytes("local_variables")));
            },
        };
        Ok(BufferLocalvarRemoved { number, full_name, local_variables })
    }

    /// Projects every record of a pushed payload.
    pub fn parse(item: &WeechatType) -> (r: Result<Vec<BufferLocalvarRemoved>, SyncErrorType>)
        ensures
            r is Ok <==> Self::projectable(view_value(*item)),
            match r {
                Ok(v) => *item matches WeechatType::Hdata(h) && v@.len()
                    == h@.records.len() && forall|i: int|
                    0 <= i < v@.len() ==> (#[trigger] v@[i]).projected_from(h@, i),
                Err(_) => true,
            },
    {
        match item {
            WeechatType::Hdata(h) => {
                let n = h.len();
                proof {
                    assert(view_value(*item) == WeechatTypeView::Hdata(h@));
                }
                let mut out: Vec<BufferLocalvarRemoved> = Vec::new();
                let mut i: usize = 0;
                while i < n
                    invariant
                        view_value(*item) == WeechatTypeView::Hdata(h@),
                        n == h@.records.len(),
                        i <= n,
                        out@.len() == i,
                        forall|k: int| 0 <= k < i ==> (#[trigger] out@[k]).projected_from(h@, k),
                        forall|k: int| 0 <= k < i ==> Self::ok_at(h@, k),
                    decreases n - i,
                {
                    match Self::parse_one(h, i) {
                        Ok(rec) => {
                            out.push(rec);
                        },
                        Err(e) => {
                            proof {
                                assert(view_value(*item) == WeechatTypeView::Hdata(h@));
                                assert(!Self::ok_at(h@, i as int));
                                Self::not_projectable_witness(h@, i as int);
                                assert(!Self::projectable(view_value(*item)));
                            }
                            return Err(e);
                        },
                    }
                    i = i + 1;
                }
                proof {
                    assert(view_value(*item) == WeechatTypeView::Hdata(h@));
                    assert(view_value(*item)->Hdata_0 == h@);
                    assert(Self::projectable(view_value(*item)));
                }
                Ok(out)
            },
            _ => Err(SyncErrorType::UnexpectedShape),
        }
    }
}

/// Event record carried by `_buffer_line_added` frames.
#[derive(Debug, PartialEq)]
pub struct BufferLineAdded {
    pub buffer: u128,
    pub date: u128,
    pub date_printed: u128,
    pub displayed: bool,
    pub highlight: bool,
    pub tags_array: Vec<WeechatString>,
    pub prefix: WeechatString,
    pub message: WeechatString,
}

impl BufferLineAdded {
    /// Every schema field of record `i` is present with its declared shape.
    pub open spec fn ok_at(h: HdataView, i: int) -> bool {
        &&& field_pointer(h, i, "buffer".spec_bytes()) is Some
        &&& field_pointer(h, i, "date".spec_bytes()) is Some
        &&& field_pointer(h, i, "date_printed".spec_bytes()) is Some
        &&& field_bool(h, i, "displayed".spec_bytes()) is Some
        &&& field_bool(h, i, "highlight".spec_bytes()) is Some
        &&& field_string_list(h, i, "tags_array".spec_bytes()) is Some
        &&& field_wstring(h, i, "prefix".spec_bytes()) is Some
        &&& field_wstring(h, i, "message".spec_bytes()) is Some
    }

    /// This value is the projection of record `i`.
    pub open spec fn projected_from(self, h: HdataView, i: int) -> bool {
        &&& field_pointer(h, i, "buffer".spec_bytes()) == Some(self.buffer)
        &&& field_pointer(h, i, "date".spec_bytes()) == Some(self.date)
        &&& field_pointer(h, i, "date_printed".spec_bytes()) == Some(self.date_printed)
        &&& field_bool(h, i, "displayed".spec_bytes()) == Some(self.displayed)
        &&& field_bool(h, i, "highlight".spec_bytes()) == Some(self.highlight)
        &&& field_string_list(h, i, "tags_array".spec_bytes()) == Some(self.tags_array.deep_view())
        &&& field_wstring(h, i, "prefix".spec_bytes()) == Some(self.prefix@)
        &&& field_wstring(h, i, "message".spec_bytes()) == Some(self.message@)
    }

    /// The payload projects whole: an hdata whose every record carries the
    /// schema's fields.
    pub open spec fn projectable(item: WeechatTypeView) -> bool {
        &&& item is Hdata
        &&& forall|i: int|
            0 <= i < item->Hdata_0.records.len() ==> #[trigger] Self::ok_at(item->Hdata_0, i)
    }

    /// A record that misses a field refutes the whole projection.
    proof fn not_projectable_witness(h: HdataView, i: int)
        requires
            0 <= i < h.records.len(),
            !Self::ok_at(h, i),
        ensures
            !Self::projectable(WeechatTypeView::Hdata(h)),
    {
        assert(WeechatTypeView::Hdata(h)->Hdata_0 == h);
        if Self::projectable(WeechatTypeView::Hdata(h)) {
            assert(Self::ok_at(h, i));
        }
    }

    /// Projects record `index`; any missing or mis-shaped field fails.
    pub fn parse_one(data: &Hdata, index: usize) -> (r: Result<BufferLineAdded, SyncErrorType>)
        ensures
            match r {
                Ok(rec) => Self::ok_at(data@, index as int) && rec.projected_from(
                    data@,
                    index as int,
                ),
                Err(_) => !Self::ok_at(data@, index as int),
            },
    {
        let buffer = match data.get_pointer(index, "buffer") {
            Some(v) => v,
            None => {
                return Err(SyncErrorType::InvalidField(str_bytes("buffer")));
            },
        };
        let date = match data.get_pointer(index, "date") {
            Some(v) => v,
            None => {
                return Err(SyncErrorType::InvalidField(str_bytes("date")));
            },
        };
        let date_printed = match data.get_pointer(index, "date_printed") {
            Some(v) => v,
            None => {
                return Err(SyncErrorType::InvalidField(str_bytes("date_printed")));
            },
        };
        let displayed = match data.get_bool(index, "displayed") {
            Some(v) => v,
            None => {
                return Err(SyncErrorType::InvalidField(str_bytes("displayed")));
            },
        };
        let highlight = match data.get_bool(index, "highlight") {
            Some(v) => v,
            None => {
                return Err(SyncErrorType::InvalidField(str_bytes("highlight")));
            },
        };
        let tags_array = match data.get_string_array(index, "tags_array") {
            Some(v) => v,
            None => {
                return Err(SyncErrorType::InvalidField(str_bytes("tags_array")));
            },
        };
        let prefix = match data.get_string(index, "prefix") {
            Some(v) => v,
            None => {
                return Err(SyncErrorType::InvalidField(str_bytes("prefix")));
            },
        };
        let message = match data.get_string(index, "message") {
            Some(v) => v,
            None => {
                return Err(SyncErrorType::InvalidField(str_bytes("message")));
            },
        };
        Ok(BufferLineAdded { buffer, date, date_printed, displayed, highlight, tags_array, prefix, message })
    }

    /// Projects every record of a pushed payload.
    pub fn parse(item: &WeechatType) -> (r: Result<Vec<BufferLineAdded>, SyncErrorType>)
        ensures
            r is Ok <==> Self::projectable(view_value(*item)),
            match r {
                Ok(v) => *item matches WeechatType::Hdata(h) && v@.len()
                    == h@.records.len() && forall|i: int|
                    0 <= i < v@.len() ==> (#[trigger] v@[i]).projected_from(h@, i),
                Err(_) => true,
            },
    {
        match item {
            WeechatType::Hdata(h) => {
                let n = h.len();
                proof {
                    assert(view_value(*item) == WeechatTypeView::Hdata(h@));
                }
                let mut out: Vec<BufferLineAdded> = Vec::new();
                let mut i: usize = 0;
                while i < n
                    invariant
                        view_value(*item) == WeechatTypeView::Hdata(h@),
                        n == h@.records.len(),
                        i <= n,
                        out@.len() == i,
                        forall|k: int| 0 <= k < i ==> (#[trigger] out@[k]).projected_from(h@, k),
                        forall|k: int| 0 <= k < i ==> Self::ok_at(h@, k),
                    decreases n - i,
                {
                    match Self::parse_one(h, i) {
                        Ok(rec) => {
                            out.push(rec);
                        },
                        Err(e) => {
                            proof {
                                assert(view_value(*item) == WeechatTypeView::Hdata(h@));
                                assert(!Self::ok_at(h@, i as int));
                                Self::not_projectable_witness(h@, i as int);
                                assert(!Self::projectable(view_value(*item)));
                            }
                            return Err(e);
                        },
                    }
                    i = i + 1;
                }
                proof {
                    assert(view_value(*item) == WeechatTypeView::Hdata(h@));
                    assert(view_value(*item)->Hdata_0 == h@);
                    assert(Self::projectable(view_value(*item)));
                }
                Ok(out)
            },
            _ => Err(SyncErrorType::UnexpectedShape),
        }
    }
}

/// Event record carried by `_buffer_closing` frames.
#[derive(Debug, PartialEq)]
pub struct BufferClosing {
    pub number: i32,
    pub full_name: WeechatString,
}

impl BufferClosing {
    /// Every schema field of record `i` is present with its declared shape.
    pub open spec fn ok_at(h: HdataView, i: int) -> bool {
        &&& field_int(h, i, "number".spec_bytes()) is Some
        &&& field_wstring(h, i, "full_name".spec_bytes()) is Some
    }

    /// This value is the projection of record `i`.
    pub open spec fn projected_from(self, h: HdataView, i: int) -> bool {
        &&& field_int(h, i, "number".spec_bytes()) == Some(self.number)
        &&& field_wstring(h, i, "full_name".spec_bytes()) == Some(self.full_name@)
    }

    /// The payload projects whole: an hdata whose every record carries the
    /// schema's fields.
    pub open spec fn projectable(item: WeechatTypeView) -> bool {
        &&& item is Hdata
        &&& forall|i: int|
            0 <= i < item->Hdata_0.records.len() ==> #[trigger] Self::ok_at(item->Hdata_0, i)
    }

    /// A record that misses a field refutes the whole projection.
    proof fn not_projectable_witness(h: HdataView, i: int)
        requires
            0 <= i < h.records.len(),
            !Self::ok_at(h, i),
        ensures
            !Self::projectable(WeechatTypeView::Hdata(h)),
    {
        assert(WeechatTypeView::Hdata(h)->Hdata_0 == h);
        if Self::projectable(WeechatTypeView::Hdata(h)) {
            assert(Self::ok_at(h, i));
        }
    }

    /// Projects record `index`; any missing or mis-shaped field fails.
    pub fn parse_one(data: &Hdata, index: usize) -> (r: Result<BufferClosing, SyncErrorType>)
        ensures
            match r {
                Ok(rec) => Self::ok_at(data@, index as int) && rec.projected_from(
                    data@,
                    index as int,
                ),
                Err(_) => !Self::ok_at(data@, index as int),
            },
    {
        let number = match data.get_int(index, "number") {
            Some(v) => v,
            None => {
                return Err(SyncErrorType::InvalidField(str_bytes("number")));
            },
        };
        let full_name = match data.get_string(index, "full_name") {
            Some(v) => v,
            None => {
                return Err(SyncErrorType::InvalidField(str_bytes("full_name")));
            },
        };
        Ok(BufferClosing { number, full_name })
    }

    /// Projects every record of a pushed payload.
    pub fn parse(item: &WeechatType) -> (r: Result<Vec<BufferClosing>, SyncErrorType>)
        ensures
            r is Ok <==> Self::projectable(view_value(*item)),
            match r {
                Ok(v) => *item matches WeechatType::Hdata(h) && v@.len()
                    == h@.records.len() && forall|i: int|
                    0 <= i < v@.len() ==> (#[trigger] v@[i]).projected_from(h@, i),
                Err(_) => true,
            },
    {
        match item {
            WeechatType::Hdata(h) => {
                let n = h.len();
                proof {
                    assert(view_value(*item) == WeechatTypeView::Hdata(h@));
                }
                let mut out: Vec<BufferClosing> = Vec::new();
                let mut i: usize = 0;
                while i < n
                    invariant
                        view_value(*item) == WeechatTypeView::Hdata(h@),
                        n == h@.records.len(),
                        i <= n,
                        out@.len() == i,
                        forall|k: int| 0 <= k < i ==> (#[trigger] out@[k]).projected_from(h@, k),
                        forall|k: int| 0 <= k < i ==> Self::ok_at(h@, k),
                    decreases n - i,
                {
                    match Self::parse_one(h, i) {
                        Ok(rec) => {
                            out.push(rec);
                        },
                        Err(e) => {
                            proof {
                                assert(view_value(*item) == WeechatTypeView::Hdata(h@));
                                assert(!Self::ok_at(h@, i as int));
                                Self::not_projectable_witness(h@, i as int);
                                assert(!Self::projectable(view_value(*item)));
                            }
                            return Err(e);
                        },
                    }
                    i = i + 1;
                }
                proof {
                    assert(view_value(*item) == WeechatTypeView::Hdata(h@));
                    assert(view_value(*item)->Hdata_0 == h@);
                    assert(Self::projectable(view_value(*item)));
                }
                Ok(out)
            },
            _ => Err(SyncErrorType::UnexpectedShape),
        }
    }
}

/// Event record carried by `_nicklist` frames.
#[derive(Debug, PartialEq)]
pub struct Nicklist {
    pub group: bool,
    pub visible: bool,
    pub level: i32,
    pub name: WeechatString,
    pub color: WeechatString,
    pub prefix: WeechatString,
    pub prefix_color: WeechatString,
}

impl Nicklist {
    /// Every schema field of record `i` is present with its declared shape.
    pub open spec fn ok_at(h: HdataView, i: int) -> bool {
        &&& field_bool(h, i, "group".spec_bytes()) is Some
        &&& field_bool(h, i, "visible".spec_bytes()) is Some
        &&& field_int(h, i, "level".spec_bytes()) is Some
        &&& field_wstring(h, i, "name".spec_bytes()) is Some
        &&& field_wstring(h, i, "color".spec_bytes()) is Some
        &&& field_wstring(h, i, "prefix".spec_bytes()) is Some
        &&& field_wstring(h, i, "prefix_color".spec_bytes()) is Some
    }

    /// This value is the projection of record `i`.
    pub open spec fn projected_from(self, h: HdataView, i: int) -> bool {
        &&& field_bool(h, i, "group".spec_bytes()) == Some(self.group)
        &&& field_bool(h, i, "visible".spec_bytes()) == Some(self.visible)
        &&& field_int(h, i, "level".spec_bytes()) == Some(self.level)
        &&& field_wstring(h, i, "name".spec_bytes()) == Some(self.name@)
        &&& field_wstring(h, i, "color".spec_bytes()) == Some(self.color@)
        &&& field_wstring(h, i, "prefix".spec_bytes()) == Some(self.prefix@)
        &&& field_wstring(h, i, "prefix_color".spec_bytes()) == Some(self.prefix_color@)
    }

    /// The payload projects whole: an hdata whose every record carries the
    /// schema's fields.
    pub open spec fn projectable(item: WeechatTypeView) -> bool {
        &&& item is Hdata
        &&& forall|i: int|
            0 <= i < item->Hdata_0.records.len() ==> #[trigger] Self::ok_at(item->Hdata_0, i)
    }

    /// A record that misses a field refutes the whole projection.
    proof fn not_projectable_witness(h: HdataView, i: int)
        requires
            0 <= i < h.records.len(),
            !Self::ok_at(h, i),
        ensures
            !Self::projectable(WeechatTypeView::Hdata(h)),
    {
        assert(WeechatTypeView::Hdata(h)->Hdata_0 == h);
        if Self::projectable(WeechatTypeView::Hdata(h)) {
            assert(Self::ok_at(h, i));
        }
    }

    /// Projects record `index`; any missing or mis-shaped field fails.
    pub fn parse_one(data: &Hdata, index: usize) -> (r: Result<Nicklist, SyncErrorType>)
        ensures
            match r {
                Ok(rec) => Self::ok_at(data@, index as int) && rec.projected_from(
                    data@,
                    index as int,
                ),
                Err(_) => !Self::ok_at(data@, index as int),
            },
    {
        let group = match data.get_bool(index, "group") {
            Some(v) => v,
            None => {
                return Err(SyncErrorType::InvalidField(str_bytes("group")));
            },
        };
        let visible = match data.get_bool(index, "visible") {
            Some(v) => v,
            None => {
                return Err(SyncErrorType::InvalidField(str_bytes("visible")));
            },
        };
        let level = match data.get_int(index, "level") {
            Some(v) => v,
            None => {
                return Err(SyncErrorType::InvalidField(str_bytes("level")));
            },
        };
        let name = match data.get_string(index, "name") {
            Some(v) => v,
            None => {
                return Err(SyncErrorType::InvalidField(str_bytes("name")));
            },
        };
        let color = match data.get_string(index, "color") {
            Some(v) => v,
            None => {
                return Err(SyncErrorType::InvalidField(str_bytes("color")));
            },
        };
        let prefix = match data.get_string(index, "prefix") {
            Some(v) => v,
            None => {
                return Err(SyncErrorType::InvalidField(str_bytes("prefix")));
            },
        };
        let prefix_color = match data.get_string(index, "prefix_color") {
            Some(v) => v,
            None => {
                return Err(SyncErrorType::InvalidField(str_bytes("prefix_color")));
            },
        };
        Ok(Nicklist { group, visible, level, name, color, prefix, prefix_color })
    }

    /// Projects every record of a pushed payload.
    pub fn parse(item: &WeechatType) -> (r: Result<Vec<Nicklist>, SyncErrorType>)
        ensures
            r is Ok <==> Self::projectable(view_value(*item)),
            match r {
                Ok(v) => *item matches WeechatType::Hdata(h) && v@.len()
                    == h@.records.len() && forall|i: int|
                    0 <= i < v@.len() ==> (#[trigger] v@[i]).projected_from(h@, i),
                Err(_) => true,
            },
    {
        match item {
            WeechatType::Hdata(h) => {
                let n = h.len();
                proof {
                    assert(view_value(*item) == WeechatTypeView::Hdata(h@));
                }
                let mut out: Vec<Nicklist> = Vec::new();
                let mut i: usize = 0;
                while i < n
                    invariant
                        view_value(*item) == WeechatTypeView::Hdata(h@),
                        n == h@.records.len(),
                        i <= n,
                        out@.len() == i,
                        forall|k: int| 0 <= k < i ==> (#[trigger] out@[k]).projected_from(h@, k),
                        forall|k: int| 0 <= k < i ==> Self::ok_at(h@, k),
                    decreases n - i,
                {
                    match Self::parse_one(h, i) {
                        Ok(rec) => {
                            out.push(rec);
                        },
                        Err(e) => {
                            proof {
                                assert(view_value(*item) == WeechatTypeView::Hdata(h@));
                                assert(!Self::ok_at(h@, i as int));
                                Self::not_projectable_witness(h@, i as int);
                                assert(!Self::projectable(view_value(*item)));
                            }
                            return Err(e);
                        },
                    }
                    i = i + 1;
                }
                proof {
                    assert(view_value(*item) == WeechatTypeView::Hdata(h@));
                    assert(view_value(*item)->Hdata_0 == h@);
                    assert(Self::projectable(view_value(*item)));
                }
                Ok(out)
            },
            _ => Err(SyncErrorType::UnexpectedShape),
        }
    }
}

/// Event record carried by `_nicklist_diff` frames.
#[derive(Debug, PartialEq)]
pub struct NicklistDiff {
    pub diff: i8,
    pub group: bool,
    pub visible: bool,
    pub level: i32,
    pub name: WeechatString,
    pub color: WeechatString,
    pub prefix: WeechatString,
    pub prefix_color: WeechatString,
}

impl NicklistDiff {
    /// Every schema field of record `i` is present with its declared shape.
    pub open spec fn ok_at(h: HdataView, i: int) -> bool {
        &&& field_char(h, i, "_diff".spec_bytes()) is Some
        &&& field_bool(h, i, "group".spec_bytes()) is Some
        &&& field_bool(h, i, "visible".spec_bytes()) is Some
        &&& field_int(h, i, "level".spec_bytes()) is Some
        &&& field_wstring(h, i, "name".spec_bytes()) is Some
        &&& field_wstring(h, i, "color".spec_bytes()) is Some
        &&& field_wstring(h, i, "prefix".spec_bytes()) is Some
        &&& field_wstring(h, i, "prefix_color".spec_bytes()) is Some
    }

    /// This value is the projection of record `i`.
    pub open spec fn projected_from(self, h: HdataView, i: int) -> bool {
        &&& field_char(h, i, "_diff".spec_bytes()) == Some(self.diff)
        &&& field_bool(h, i, "group".spec_bytes()) == Some(self.group)
        &&& field_bool(h, i, "visible".spec_bytes()) == Some(self.visible)
        &&& field_int(h, i, "level".spec_bytes()) == Some(self.level)
        &&& field_wstring(h, i, "name".spec_bytes()) == Some(self.name@)
        &&& field_wstring(h, i, "color".spec_bytes()) == Some(self.color@)
        &&& field_wstring(h, i, "prefix".spec_bytes()) == Some(self.prefix@)
        &&& field_wstring(h, i, "prefix_color".spec_bytes()) == Some(self.prefix_color@)
    }

    /// The payload projects whole: an hdata whose every record carries the
    /// schema's fields.
    pub open spec fn projectable(item: WeechatTypeView) -> bool {
        &&& item is Hdata
        &&& forall|i: int|
            0 <= i < item->Hdata_0.records.len() ==> #[trigger] Self::ok_at(item->Hdata_0, i)
    }

    /// A record that misses a field refutes the whole projection.
    proof fn not_projectable_witness(h: HdataView, i: int)
        requires
            0 <= i < h.records.len(),
            !Self::ok_at(h, i),
        ensures
            !Self::projectable(WeechatTypeView::Hdata(h)),
    {
        assert(WeechatTypeView::Hdata(h)->Hdata_0 == h);
        if Self::projectable(WeechatTypeView::Hdata(h)) {
            assert(Self::ok_at(h, i));
        }
    }

    /// Projects record `index`; any missing or mis-shaped field fails.
    pub fn parse_one(data: &Hdata, index: usize) -> (r: Result<NicklistDiff, SyncErrorType>)
        ensures
            match r {
                Ok(rec) => Self::ok_at(data@, index as int) && rec.projected_from(
                    data@,
                    index as int,
                ),
                Err(_) => !Self::ok_at(data@, index as int),
            },
    {
        let diff = match data.get_char(index, "_diff") {
            Some(v) => v,
            None => {
                return Err(SyncErrorType::InvalidField(str_bytes("_diff")));
            },
        };
        let group = match data.get_bool(index, "group") {
            Some(v) => v,
            None => {
                return Err(SyncErrorType::InvalidField(str_bytes("group")));
            },
        };
        let visible = match data.get_bool(index, "visible") {
            Some(v) => v,
            None => {
                return Err(SyncErrorType::InvalidField(str_bytes("visible")));
            },
        };
        let level = match data.get_int(index, "level") {
            Some(v) => v,
            None => {
                return Err(SyncErrorType::InvalidField(str_bytes("level")));
            },
        };
        let name = match data.get_string(index, "name") {
            Some(v) => v,
            None => {
                return Err(SyncErrorType::InvalidField(str_bytes("name")));
            },
        };
        let color = match data.get_string(index, "color") {
            Some(v) => v,
            None => {
                return Err(SyncErrorType::InvalidField(str_bytes("color")));
            },
        };
        let prefix = match data.get_string(index, "prefix") {
            Some(v) => v,
            None => {
                return Err(SyncErrorType::InvalidField(str_bytes("prefix")));
            },
        };
        let prefix_color = match data.get_string(index, "prefix_color") {
            Some(v) => v,
            None => {
                return Err(SyncErrorType::InvalidField(str_bytes("prefix_color")));
            },
        };
        Ok(NicklistDiff { diff, group, visible, level, name, color, prefix, prefix_color })
    }

    /// Projects every record of a pushed payload.
    pub fn parse(item: &WeechatType) -> (r: Result<Vec<NicklistDiff>, SyncErrorType>)
        ensures
            r is Ok <==> Self::projectable(view_value(*item)),
            match r {
                Ok(v) => *item matches WeechatType::Hdata(h) && v@.len()
                    == h@.records.len() && forall|i: int|
                    0 <= i < v@.len() ==> (#[trigger] v@[i]).projected_from(h@, i),
                Err(_) => true,
            },
    {
        match item {
            WeechatType::Hdata(h) => {
                let n = h.len();
                proof {
                    assert(view_value(*item) == WeechatTypeView::Hdata(h@));
                }
                let mut out: Vec<NicklistDiff> = Vec::new();
                let mut i: usize = 0;
                while i < n
                    invariant
                        view_value(*item) == WeechatTypeView::Hdata(h@),
                        n == h@.records.len(),
                        i <= n,
                        out@.len() == i,
                        forall|k: int| 0 <= k < i ==> (#[trigger] out@[k]).projected_from(h@, k),
                        forall|k: int| 0 <= k < i ==> Self::ok_at(h@, k),
                    decreases n - i,
                {
                    match Self::parse_one(h, i) {
                        Ok(rec) => {
                            out.push(rec);
                        },
                        Err(e) => {
                            proof {
                                assert(view_value(*item) == WeechatTypeView::Hdata(h@));
                                assert(!Self::ok_at(h@, i as int));
                                Self::not_projectable_witness(h@, i as int);
                                assert(!Self::projectable(view_value(*item)));
                            }
                            return Err(e);
                        },
                    }
                    i = i + 1;
                }
                proof {
                    assert(view_value(*item) == WeechatTypeView::Hdata(h@));
                    assert(view_value(*item)->Hdata_0 == h@);
                    assert(Self::projectable(view_value(*item)));
                }
                Ok(out)
            },
            _ => Err(SyncErrorType::UnexpectedShape),
        }
    }
}

/// One typed pushed event.
#[derive(Debug, PartialEq)]
pub enum SyncMessage {
    BufferOpened(BufferOpened),
    BufferMoved(BufferMoved),
    BufferMerged(BufferMerged),
    BufferUnmerged(BufferUnmerged),
    BufferHidden(BufferHidden),
    BufferUnhidden(BufferUnhidden),
    BufferRenamed(BufferRenamed),
    BufferTitleChanged(BufferTitleChanged),
    BufferCleared(BufferCleared),
    BufferTypeChanged(BufferTypeChanged),
    BufferLocalvarAdded(BufferLocalvarAdded),
    BufferLocalvarChanged(BufferLocalvarChanged),
    BufferLocalvarRemoved(BufferLocalvarRemoved),
    BufferLineAdded(BufferLineAdded),
    BufferClosing(BufferClosing),
    Nicklist(Nicklist),
    NicklistDiff(NicklistDiff),
    Pong(WeechatString),
    Upgrade,
    UpgradeEnded,
}

/// Whether the event id names a schema that the payload satisfies.
pub open spec fn sync_ok(id: Seq<u8>, item: WeechatType) -> bool {
    if id == "_buffer_opened".spec_bytes() {
        BufferOpened::projectable(view_value(item))
    } else if id == "_buffer_moved".spec_bytes() {
        BufferMoved::projectable(view_value(item))
    } else if id == "_buffer_merged".spec_bytes() {
        BufferMerged::projectable(view_value(item))
    } else if id == "_buffer_unmerged".spec_bytes() {
        BufferUnmerged::projectable(view_value(item))
    } else if id == "_buffer_hidden".spec_bytes() {
        BufferHidden::projectable(view_value(item))
    } else if id == "_buffer_unhidden".spec_bytes() {
        BufferUnhidden::projectable(view_value(item))
    } else if id == "_buffer_renamed".spec_bytes() {
        BufferRenamed::projectable(view_value(item))
    } else if id == "_buffer_title_changed".spec_bytes() {
        BufferTitleChanged::projectable(view_value(item))
    } else if id == "_buffer_cleared".spec_bytes() {
        BufferCleared::projectable(view_value(item))
    } else if id == "_buffer_type_changed".spec_bytes() {
        BufferTypeChanged::projectable(view_value(item))
    } else if id == "_buffer_localvar_added".spec_bytes() {
        BufferLocalvarAdded::projectable(view_value(item))
    } else if id == "_buffer_localvar_changed".spec_bytes() {
        BufferLocalvarChanged::projectable(view_value(item))
    } else if id == "_buffer_localvar_removed".spec_bytes() {
        BufferLocalvarRemoved::projectable(view_value(item))
    } else if id == "_buffer_line_added".spec_bytes() {
        BufferLineAdded::projectable(view_value(item))
    } else if id == "_buffer_closing".spec_bytes() {
        BufferClosing::projectable(view_value(item))
    } else if id == "_nicklist".spec_bytes() {
        Nicklist::projectable(view_value(item))
    } else if id == "_nicklist_diff".spec_bytes() {
        NicklistDiff::projectable(view_value(item))
    } else if id == "_pong".spec_bytes() {
        item is Str
    } else if id == "_upgrade".spec_bytes() || id == "_upgrade_ended".spec_bytes() {
        true
    } else {
        false
    }
}

/// The typed batch a pushed payload projects to, event by event in wire
/// order.
pub open spec fn sync_batch_matches(id: Seq<u8>, item: WeechatType, batch: Seq<SyncMessage>) -> bool {
    if id == "_buffer_opened".spec_bytes() {
        &&& item is Hdata
        &&& batch.len() == item->Hdata_0@.records.len()
        &&& forall|i: int|
            0 <= i < batch.len() ==> (#[trigger] batch[i]) is BufferOpened && batch[i]->BufferOpened_0.projected_from(item->Hdata_0@, i)
    } else if id == "_buffer_moved".spec_bytes() {
        &&& item is Hdata
        &&& batch.len() == item->Hdata_0@.records.len()
        &&& forall|i: int|
            0 <= i < batch.len() ==> (#[trigger] batch[i]) is BufferMoved && batch[i]->BufferMoved_0.projected_from(item->Hdata_0@, i)
    } else if id == "_buffer_merged".spec_bytes() {
        &&& item is Hdata
        &&& batch.len() == item->Hdata_0@.records.len()
        &&& forall|i: int|
            0 <= i < batch.len() ==> (#[trigger] batch[i]) is BufferMerged && batch[i]->BufferMerged_0.projected_from(item->Hdata_0@, i)
    } else if id == "_buffer_unmerged".spec_bytes() {
        &&& item is Hdata
        &&& batch.len() == item->Hdata_0@.records.len()
        &&& forall|i: int|
            0 <= i < batch.len() ==> (#[trigger] batch[i]) is BufferUnmerged && batch[i]->BufferUnmerged_0.projected_from(item->Hdata_0@, i)
    } else if id == "_buffer_hidden".spec_bytes() {
        &&& item is Hdata
        &&& batch.len() == item->Hdata_0@.records.len()
        &&& forall|i: int|
            0 <= i < batch.len() ==> (#[trigger] batch[i]) is BufferHidden && batch[i]->BufferHidden_0.projected_from(item->Hdata_0@, i)
    } else if id == "_buffer_unhidden".spec_bytes() {
        &&& item is Hdata
        &&& batch.len() == item->Hdata_0@.records.len()
        &&& forall|i: int|
            0 <= i < batch.len() ==> (#[trigger] batch[i]) is BufferUnhidden && batch[i]->BufferUnhidden_0.projected_from(item->Hdata_0@, i)
    } else if id == "_buffer_renamed".spec_bytes() {
        &&& item is Hdata
        &&& batch.len() == item->Hdata_0@.records.len()
        &&& forall|i: int|
            0 <= i < batch.len() ==> (#[trigger] batch[i]) is BufferRenamed && batch[i]->BufferRenamed_0.projected_from(item->Hdata_0@, i)
    } else if id == "_buffer_title_changed".spec_bytes() {
        &&& item is Hdata
        &&& batch.len() == item->Hdata_0@.records.len()
        &&& forall|i: int|
            0 <= i < batch.len() ==> (#[trigger] batch[i]) is BufferTitleChanged && batch[i]->BufferTitleChanged_0.projected_from(item->Hdata_0@, i)
    } else if id == "_buffer_cleared".spec_bytes() {
        &&& item is Hdata
        &&& batch.len() == item->Hdata_0@.records.len()
        &&& forall|i: int|
            0 <= i < batch.len() ==> (#[trigger] batch[i]) is BufferCleared && batch[i]->BufferCleared_0.projected_from(item->Hdata_0@, i)
    } else if id == "_buffer_type_changed".spec_bytes() {
        &&& item is Hdata
        &&& batch.len() == item->Hdata_0@.records.len()
        &&& forall|i: int|
            0 <= i < batch.len() ==> (#[trigger] batch[i]) is BufferTypeChanged && batch[i]->BufferTypeChanged_0.projected_from(item->Hdata_0@, i)
    } else if id == "_buffer_localvar_added".spec_bytes() {
        &&& item is Hdata
        &&& batch.len() == item->Hdata_0@.records.len()
        &&& forall|i: int|
            0 <= i < batch.len() ==> (#[trigger] batch[i]) is BufferLocalvarAdded && batch[i]->BufferLocalvarAdded_0.projected_from(item->Hdata_0@, i)
    } else if id == "_buffer_localvar_changed".spec_bytes() {
        &&& item is Hdata
        &&& batch.len() == item->Hdata_0@.records.len()
        &&& forall|i: int|
            0 <= i < batch.len() ==> (#[trigger] batch[i]) is BufferLocalvarChanged && batch[i]->BufferLocalvarChanged_0.projected_from(item->Hdata_0@, i)
    } else if id == "_buffer_localvar_removed".spec_bytes() {
        &&& item is Hdata
        &&& batch.len() == item->Hdata_0@.records.len()
        &&& forall|i: int|
            0 <= i < batch.len() ==> (#[trigger] batch[i]) is BufferLocalvarRemoved && batch[i]->BufferLocalvarRemoved_0.projected_from(item->Hdata_0@, i)
    } else if id == "_buffer_line_added".spec_bytes() {
        &&& item is Hdata
        &&& batch.len() == item->Hdata_0@.records.len()
        &&& forall|i: int|
            0 <= i < batch.len() ==> (#[trigger] batch[i]) is BufferLineAdded && batch[i]->BufferLineAdded_0.projected_from(item->Hdata_0@, i)
    } else if id == "_buffer_closing".spec_bytes() {
        &&& item is Hdata
        &&& batch.len() == item->Hdata_0@.records.len()
        &&& forall|i: int|
            0 <= i < batch.len() ==> (#[trigger] batch[i]) is BufferClosing && batch[i]->BufferClosing_0.projected_from(item->Hdata_0@, i)
    } else if id == "_nicklist".spec_bytes() {
        &&& item is Hdata
        &&& batch.len() == item->Hdata_0@.records.len()
        &&& forall|i: int|
            0 <= i < batch.len() ==> (#[trigger] batch[i]) is Nicklist && batch[i]->Nicklist_0.projected_from(item->Hdata_0@, i)
    } else if id == "_nicklist_diff".spec_bytes() {
        &&& item is Hdata
        &&& batch.len() == item->Hdata_0@.records.len()
        &&& forall|i: int|
            0 <= i < batch.len() ==> (#[trigger] batch[i]) is NicklistDiff && batch[i]->NicklistDiff_0.projected_from(item->Hdata_0@, i)
    } else if id == "_pong".spec_bytes() {
        &&& item is Str
        &&& batch.len() == 1
        &&& batch[0] is Pong
        &&& batch[0]->Pong_0@ == item->Str_0@
    } else if id == "_upgrade".spec_bytes() {
        batch.len() == 1 && batch[0] is Upgrade
    } else if id == "_upgrade_ended".spec_bytes() {
        batch.len() == 1 && batch[0] is UpgradeEnded
    } else {
        false
    }
}

impl SyncMessage {
    /// Projects one top-level payload value of a pushed message into its
    /// typed batch, by the schema its id names.
    pub fn parse_message_item(id: &Vec<u8>, item: &WeechatType) -> (r: Result<
        Vec<SyncMessage>,
        SyncErrorType,
    >)
        ensures
            r is Ok <==> sync_ok(id@, *item),
            r matches Ok(batch) ==> sync_batch_matches(id@, *item, batch@),
    {
        if vec_eq_slice(id, ("_buffer_opened").as_bytes()) {
            match BufferOpened::parse(item) {
                Err(e) => Err(e),
                Ok(mut v) => {
                    let ghost orig = v@;
                    let mut out: Vec<SyncMessage> = Vec::new();
                    while v.len() > 0
                        invariant
                            out@.len() + v@.len() == orig.len(),
                            v@ == orig.subrange(out@.len() as int, orig.len() as int),
                            forall|k: int|
                                0 <= k < out@.len() ==> #[trigger] out@[k]
                                    == SyncMessage::BufferOpened(orig[k]),
                        decreases v@.len(),
                    {
                        let ghost done = out@.len();
                        let rec = v.remove(0);
                        proof {
                            assert(rec == orig[done as int]);
                            assert(v@ =~= orig.subrange(done as int + 1, orig.len() as int));
                        }
                        out.push(SyncMessage::BufferOpened(rec));
                    }
                    Ok(out)
                },
            }
        } else if vec_eq_slice(id, ("_buffer_moved").as_bytes()) {
            match BufferMoved::parse(item) {
                Err(e) => Err(e),
                Ok(mut v) => {
                    let ghost orig = v@;
                    let mut out: Vec<SyncMessage> = Vec::new();
                    while v.len() > 0
                        invariant
                            out@.len() + v@.len() == orig.len(),
                            v@ == orig.subrange(out@.len() as int, orig.len() as int),
                            forall|k: int|
                                0 <= k < out@.len() ==> #[trigger] out@[k]
                                    == SyncMessage::BufferMoved(orig[k]),
                        decreases v@.len(),
                    {
                        let ghost done = out@.len();
                        let rec = v.remove(0);
                        proof {
                            assert(rec == orig[done as int]);
                            assert(v@ =~= orig.subrange(done as int + 1, orig.len() as int));
                        }
                        out.push(SyncMessage::BufferMoved(rec));
                    }
                    Ok(out)
                },
            }
        } else if vec_eq_slice(id, ("_buffer_merged").as_bytes()) {
            match BufferMerged::parse(item) {
                Err(e) => Err(e),
                Ok(mut v) => {
                    let ghost orig = v@;
                    let mut out: Vec<SyncMessage> = Vec::new();
                    while v.len() > 0
                        invariant
                            out@.len() + v@.len() == orig.len(),
                            v@ == orig.subrange(out@.len() as int, orig.len() as int),
                            forall|k: int|
                                0 <= k < out@.len() ==> #[trigger] out@[k]
                                    == SyncMessage::BufferMerged(orig[k]),
                        decreases v@.len(),
                    {
                        let ghost done = out@.len();
                        let rec = v.remove(0);
                        proof {
                            assert(rec == orig[done as int]);
                            assert(v@ =~= orig.subrange(done as int + 1, orig.len() as int));
                        }
                        out.push(SyncMessage::BufferMerged(rec));
                    }
                    Ok(out)
                },
            }
        } else if vec_eq_slice(id, ("_buffer_unmerged").as_bytes()) {
            match BufferUnmerged::parse(item) {
                Err(e) => Err(e),
                Ok(mut v) => {
                    let ghost orig = v@;
                    let mut out: Vec<SyncMessage> = Vec::new();
                    while v.len() > 0
                        invariant
                            out@.len() + v@.len() == orig.len(),
                            v@ == orig.subrange(out@.len() as int, orig.len() as int),
                            forall|k: int|
                                0 <= k < out@.len() ==> #[trigger] out@[k]
                                    == SyncMessage::BufferUnmerged(orig[k]),
                        decreases v@.len(),
                    {
                        let ghost done = out@.len();
                        let rec = v.remove(0);
                        proof {
                            assert(rec == orig[done as int]);
                            assert(v@ =~= orig.subrange(done as int + 1, orig.len() as int));
                        }
                        out.push(SyncMessage::BufferUnmerged(rec));
                    }
                    Ok(out)
                },
            }
        } else if vec_eq_slice(id, ("_buffer_hidden").as_bytes()) {
            match BufferHidden::parse(item) {
                Err(e) => Err(e),
                Ok(mut v) => {
                    let ghost orig = v@;
                    let mut out: Vec<SyncMessage> = Vec::new();
                    while v.len() > 0
                        invariant
                            out@.len() + v@.len() == orig.len(),
                            v@ == orig.subrange(out@.len() as int, orig.len() as int),
                            forall|k: int|
                                0 <= k < out@.len() ==> #[trigger] out@[k]
                                    == SyncMessage::BufferHidden(orig[k]),
                        decreases v@.len(),
                    {
                        let ghost done = out@.len();
                        let rec = v.remove(0);
                        proof {
                            assert(rec == orig[done as int]);
                            assert(v@ =~= orig.subrange(done as int + 1, orig.len() as int));
                        }
                        out.push(SyncMessage::BufferHidden(rec));
                    }
                    Ok(out)
                },
            }
        } else if vec_eq_slice(id, ("_buffer_unhidden").as_bytes()) {
            match BufferUnhidden::parse(item) {
                Err(e) => Err(e),
                Ok(mut v) => {
                    let ghost orig = v@;
                    let mut out: Vec<SyncMessage> = Vec::new();
                    while v.len() > 0
                        invariant
                            out@.len() + v@.len() == orig.len(),
                            v@ == orig.subrange(out@.len() as int, orig.len() as int),
                            forall|k: int|
                                0 <= k < out@.len() ==> #[trigger] out@[k]
                                    == SyncMessage::BufferUnhidden(orig[k]),
                        decreases v@.len(),
                    {
                        let ghost done = out@.len();
                        let rec = v.remove(0);
                        proof {
                            assert(rec == orig[done as int]);
                            assert(v@ =~= orig.subrange(done as int + 1, orig.len() as int));
                        }
                        out.push(SyncMessage::BufferUnhidden(rec));
                    }
                    Ok(out)
                },
            }
        } else if vec_eq_slice(id, ("_buffer_renamed").as_bytes()) {
            match BufferRenamed::parse(item) {
                Err(e) => Err(e),
                Ok(mut v) => {
                    let ghost orig = v@;
                    let mut out: Vec<SyncMessage> = Vec::new();
                    while v.len() > 0
                        invariant
                            out@.len() + v@.len() == orig.len(),
                            v@ == orig.subrange(out@.len() as int, orig.len() as int),
                            forall|k: int|
                                0 <= k < out@.len() ==> #[trigger] out@[k]
                                    == SyncMessage::BufferRenamed(orig[k]),
                        decreases v@.len(),
                    {
                        let ghost done = out@.len();
                        let rec = v.remove(0);
                        proof {
                            assert(rec == orig[done as int]);
                            assert(v@ =~= orig.subrange(done as int + 1, orig.len() as int));
                        }
                        out.push(SyncMessage::BufferRenamed(rec));
                    }
                    Ok(out)
                },
            }
        } else if vec_eq_slice(id, ("_buffer_title_changed").as_bytes()) {
            match BufferTitleChanged::parse(item) {
                Err(e) => Err(e),
                Ok(mut v) => {
                    let ghost orig = v@;
                    let mut out: Vec<SyncMessage> = Vec::new();
                    while v.len() > 0
                        invariant
                            out@.len() + v@.len() == orig.len(),
                            v@ == orig.subrange(out@.len() as int, orig.len() as int),
                            forall|k: int|
                                0 <= k < out@.len() ==> #[trigger] out@[k]
                                    == SyncMessage::BufferTitleChanged(orig[k]),
                        decreases v@.len(),
                    {
                        let ghost done = out@.len();
                        let rec = v.remove(0);
                        proof {
                            assert(rec == orig[done as int]);
                            assert(v@ =~= orig.subrange(done as int + 1, orig.len() as int));
                        }
                        out.push(SyncMessage::BufferTitleChanged(rec));
                    }
                    Ok(out)
                },
            }
        } else if vec_eq_slice(id, ("_buffer_cleared").as_bytes()) {
            match BufferCleared::parse(item) {
                Err(e) => Err(e),
                Ok(mut v) => {
                    let ghost orig = v@;
                    let mut out: Vec<SyncMessage> = Vec::new();
                    while v.len() > 0
                        invariant
                            out@.len() + v@.len() == orig.len(),
                            v@ == orig.subrange(out@.len() as int, orig.len() as int),
                            forall|k: int|
                                0 <= k < out@.len() ==> #[trigger] out@[k]
                                    == SyncMessage::BufferCleared(orig[k]),
                        decreases v@.len(),
                    {
                        let ghost done = out@.len();
                        let rec = v.remove(0);
                        proof {
                            assert(rec == orig[done as int]);
                            assert(v@ =~= orig.subrange(done as int + 1, orig.len() as int));
                        }
                        out.push(SyncMessage::BufferCleared(rec));
                    }
                    Ok(out)
                },
            }
        } else if vec_eq_slice(id, ("_buffer_type_changed").as_bytes()) {
            match BufferTypeChanged::parse(item) {
                Err(e) => Err(e),
                Ok(mut v) => {
                    let ghost orig = v@;
                    let mut out: Vec<SyncMessage> = Vec::new();
                    while v.len() > 0
                        invariant
                            out@.len() + v@.len() == orig.len(),
                            v@ == orig.subrange(out@.len() as int, orig.len() as int),
                            forall|k: int|
                                0 <= k < out@.len() ==> #[trigger] out@[k]
                                    == SyncMessage::BufferTypeChanged(orig[k]),
                        decreases v@.len(),
                    {
                        let ghost done = out@.len();
                        let rec = v.remove(0);
                        proof {
                            assert(rec == orig[done as int]);
                            assert(v@ =~= orig.subrange(done as int + 1, orig.len() as int));
                        }
                        out.push(SyncMessage::BufferTypeChanged(rec));
                    }
                    Ok(out)
                },
            }
        } else if vec_eq_slice(id, ("_buffer_localvar_added").as_bytes()) {
            match BufferLocalvarAdded::parse(item) {
                Err(e) => Err(e),
                Ok(mut v) => {
                    let ghost orig = v@;
                    let mut out: Vec<SyncMessage> = Vec::new();
                    while v.len() > 0
                        invariant
                            out@.len() + v@.len() == orig.len(),
                            v@ == orig.subrange(out@.len() as int, orig.len() as int),
                            forall|k: int|
                                0 <= k < out@.len() ==> #[trigger] out@[k]
                                    == SyncMessage::BufferLocalvarAdded(orig[k]),
                        decreases v@.len(),
                    {
                        let ghost done = out@.len();
                        let rec = v.remove(0);
                        proof {
                            assert(rec == orig[done as int]);
                            assert(v@ =~= orig.subrange(done as int + 1, orig.len() as int));
                        }
                        out.push(SyncMessage::BufferLocalvarAdded(rec));
                    }
                    Ok(out)
                },
            }
        } else if vec_eq_slice(id, ("_buffer_localvar_changed").as_bytes()) {
            match BufferLocalvarChanged::parse(item) {
                Err(e) => Err(e),
                Ok(mut v) => {
                    let ghost orig = v@;
                    let mut out: Vec<SyncMessage> = Vec::new();
                    while v.len() > 0
                        invariant
                            out@.len() + v@.len() == orig.len(),
                            v@ == orig.subrange(out@.len() as int, orig.len() as int),
                            forall|k: int|
                                0 <= k < out@.len() ==> #[trigger] out@[k]
                                    == SyncMessage::BufferLocalvarChanged(orig[k]),
                        decreases v@.len(),
                    {
                        let ghost done = out@.len();
                        let rec = v.remove(0);
                        proof {
                            assert(rec == orig[done as int]);
                            assert(v@ =~= orig.subrange(done as int + 1, orig.len() as int));
                        }
                        out.push(SyncMessage::BufferLocalvarChanged(rec));
                    }
                    Ok(out)
                },
            }
        } else if vec_eq_slice(id, ("_buffer_localvar_removed").as_bytes()) {
            match BufferLocalvarRemoved::parse(item) {
                Err(e) => Err(e),
                Ok(mut v) => {
                    let ghost orig = v@;
                    let mut out: Vec<SyncMessage> = Vec::new();
                    while v.len() > 0
                        invariant
                            out@.len() + v@.len() == orig.len(),
                            v@ == orig.subrange(out@.len() as int, orig.len() as int),
                            forall|k: int|
                                0 <= k < out@.len() ==> #[trigger] out@[k]
                                    == SyncMessage::BufferLocalvarRemoved(orig[k]),
                        decreases v@.len(),
                    {
                        let ghost done = out@.len();
                        let rec = v.remove(0);
                        proof {
                            assert(rec == orig[done as int]);
                            assert(v@ =~= orig.subrange(done as int + 1, orig.len() as int));
                        }
                        out.push(SyncMessage::BufferLocalvarRemoved(rec));
                    }
                    Ok(out)
                },
            }
        } else if vec_eq_slice(id, ("_buffer_line_added").as_bytes()) {
            match BufferLineAdded::parse(item) {
                Err(e) => Err(e),
                Ok(mut v) => {
                    let ghost orig = v@;
                    let mut out: Vec<SyncMessage> = Vec::new();
                    while v.len() > 0
                        invariant
                            out@.len() + v@.len() == orig.len(),
                            v@ == orig.subrange(out@.len() as int, orig.len() as int),
                            forall|k: int|
                                0 <= k < out@.len() ==> #[trigger] out@[k]
                                    == SyncMessage::BufferLineAdded(orig[k]),
                        decreases v@.len(),
                    {
                        let ghost done = out@.len();
                        let rec = v.remove(0);
                        proof {
                            assert(rec == orig[done as int]);
                            assert(v@ =~= orig.subrange(done as int + 1, orig.len() as int));
                        }
                        out.push(SyncMessage::BufferLineAdded(rec));
                    }
                    Ok(out)
                },
            }
        } else if vec_eq_slice(id, ("_buffer_closing").as_bytes()) {
            match BufferClosing::parse(item) {
                Err(e) => Err(e),
                Ok(mut v) => {
                    let ghost orig = v@;
                    let mut out: Vec<SyncMessage> = Vec::new();
                    while v.len() > 0
                        invariant
                            out@.len() + v@.len() == orig.len(),
                            v@ == orig.subrange(out@.len() as int, orig.len() as int),
                            forall|k: int|
                                0 <= k < out@.len() ==> #[trigger] out@[k]
                                    == SyncMessage::BufferClosing(orig[k]),
                        decreases v@.len(),
                    {
                        let ghost done = out@.len();
                        let rec = v.remove(0);
                        proof {
                            assert(rec == orig[done as int]);
                            assert(v@ =~= orig.subrange(done as int + 1, orig.len() as int));
                        }
                        out.push(SyncMessage::BufferClosing(rec));
                    }
                    Ok(out)
                },
            }
        } else if vec_eq_slice(id, ("_nicklist").as_bytes()) {
            match Nicklist::parse(item) {
                Err(e) => Err(e),
                Ok(mut v) => {
                    let ghost orig = v@;
                    let mut out: Vec<SyncMessage> = Vec::new();
                    while v.len() > 0
                        invariant
                            out@.len() + v@.len() == orig.len(),
                            v@ == orig.subrange(out@.len() as int, orig.len() as int),
                            forall|k: int|
                                0 <= k < out@.len() ==> #[trigger] out@[k]
                                    == SyncMessage::Nicklist(orig[k]),
                        decreases v@.len(),
                    {
                        let ghost done = out@.len();
                        let rec = v.remove(0);
                        proof {
                            assert(rec == orig[done as int]);
                            assert(v@ =~= orig.subrange(done as int + 1, orig.len() as int));
                        }
                        out.push(SyncMessage::Nicklist(rec));
                    }
                    Ok(out)
                },
            }
        } else if vec_eq_slice(id, ("_nicklist_diff").as_bytes()) {
            match NicklistDiff::parse(item) {
                Err(e) => Err(e),
                Ok(mut v) => {
                    let ghost orig = v@;
                    let mut out: Vec<SyncMessage> = Vec::new();
                    while v.len() > 0
                        invariant
                            out@.len() + v@.len() == orig.len(),
                            v@ == orig.subrange(out@.len() as int, orig.len() as int),
                            forall|k: int|
                                0 <= k < out@.len() ==> #[trigger] out@[k]
                                    == SyncMessage::NicklistDiff(orig[k]),
                        decreases v@.len(),
                    {
                        let ghost done = out@.len();
                        let rec = v.remove(0);
                        proof {
                            assert(rec == orig[done as int]);
                            assert(v@ =~= orig.subrange(done as int + 1, orig.len() as int));
                        }
                        out.push(SyncMessage::NicklistDiff(rec));
                    }
                    Ok(out)
                },
            }
        } else if vec_eq_slice(id, ("_pong").as_bytes()) {
            match item {
                WeechatType::Str(s) => {
                    let mut out: Vec<SyncMessage> = Vec::new();
                    out.push(SyncMessage::Pong(s.duplicate()));
                    Ok(out)
                },
                _ => Err(SyncErrorType::UnexpectedShape),
            }
        } else if vec_eq_slice(id, ("_upgrade").as_bytes()) {
            let mut out: Vec<SyncMessage> = Vec::new();
            out.push(SyncMessage::Upgrade);
            Ok(out)
        } else if vec_eq_slice(id, ("_upgrade_ended").as_bytes()) {
            let mut out: Vec<SyncMessage> = Vec::new();
            out.push(SyncMessage::UpgradeEnded);
            Ok(out)
        } else {
            Err(SyncErrorType::UnknownEventId)
        }
    }

    /// Projects a whole pushed message: one typed batch per top-level
    /// payload value, in wire order.
    pub fn parse(message: &Message) -> (r: Result<Vec<Vec<SyncMessage>>, SyncErrorType>)
        ensures
            r is Ok <==> (forall|i: int|
                0 <= i < message.data@.len() ==> sync_ok(
                    message.id@,
                    #[trigger] message.data@[i],
                )),
            r matches Ok(batches) ==> batches@.len() == message.data@.len() && forall|i: int|
                0 <= i < batches@.len() ==> sync_batch_matches(
                    message.id@,
                    message.data@[i],
                    (#[trigger] batches@[i])@,
                ),
    {
        let mut out: Vec<Vec<SyncMessage>> = Vec::new();
        let mut i: usize = 0;
        while i < message.data.len()
            invariant
                i <= message.data@.len(),
                out@.len() == i,
                forall|k: int|
                    0 <= k < i ==> sync_ok(message.id@, #[trigger] message.data@[k]),
                forall|k: int|
                    0 <= k < i ==> sync_batch_matches(
                        message.id@,
                        message.data@[k],
                        (#[trigger] out@[k])@,
                    ),
            decreases message.data@.len() - i,
        {
            match Self::parse_message_item(&message.id, &message.data[i]) {
                Ok(batch) => {
                    out.push(batch);
                },
                Err(e) => {
                    return Err(e);
                },
            }
            i = i + 1;
        }
        Ok(out)
    }
}

} // verus!
