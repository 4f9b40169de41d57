//! The reference encoder for message bodies: the exact bytes a well-formed
//! message takes on the wire, and the proof that the decoder reads those
//! bytes back to the very same message.
use crate::be_u32;
use crate::message::{
    join_keys,
    join_path,
    tag_bytes,
    tag_of_value,
    HdataRecordView,
    HdataView,
    MessageView,
    Tag,
    WeechatStringView,
    WeechatTypeView,
    wf_hdata,
    wf_message,
    wf_record,
    wf_text,
    wf_value,
    wf_wstring,
};
use crate::num::{dec_digits_of, hex_digits_of};
use vstd::prelude::*;

verus! {

/// The four big-endian bytes of a 32-bit integer.
pub open spec fn enc_u32(n: u32) -> Seq<u8> {
    seq![(n >> 24) as u8, ((n >> 16) & 0xff) as u8, ((n >> 8) & 0xff) as u8, (n & 0xff) as u8]
}

/// Reading the four bytes back yields the integer.
pub proof fn lemma_enc_u32(n: u32)
    ensures
        be_u32(enc_u32(n)[0], enc_u32(n)[1], enc_u32(n)[2], enc_u32(n)[3]) == n,
{
    assert(be_u32(
        (n >> 24) as u8,
        ((n >> 16) & 0xff) as u8,
        ((n >> 8) & 0xff) as u8,
        (n & 0xff) as u8,
    ) == n) by (bit_vector);
}

/// The unsigned bit pattern of a signed 32-bit integer.
pub open spec fn u32_of_i32(i: i32) -> u32 {
    if i < 0 {
        (i + 0x1_0000_0000) as u32
    } else {
        i as u32
    }
}

/// The unsigned bit pattern of a signed byte.
pub open spec fn u8_of_i8(c: i8) -> u8 {
    if c < 0 {
        (c + 0x100) as u8
    } else {
        c as u8
    }
}

/// A tri-state string: the null marker, or the length and the bytes.
pub open spec fn enc_wstring(s: WeechatStringView) -> Seq<u8> {
    match s {
        WeechatStringView::Null => enc_u32(0xFFFF_FFFF),
        WeechatStringView::Str(b) => enc_u32(b.len() as u32) + b,
    }
}

/// A buffer: the null marker, or the length and the bytes.
pub open spec fn enc_buffer(b: Option<Seq<u8>>) -> Seq<u8> {
    match b {
        None => enc_u32(0xFFFF_FFFF),
        Some(bb) => enc_u32(bb.len() as u32) + bb,
    }
}

/// The signed decimal digits of a long value.
pub open spec fn long_digits(l: i128) -> Seq<u8> {
    if l < 0 {
        seq!['-' as u8] + dec_digits_of((-l) as nat)
    } else {
        dec_digits_of(l as nat)
    }
}

/// A length-prefixed digit string.
pub open spec fn enc_digits(d: Seq<u8>) -> Seq<u8> {
    seq![d.len() as u8] + d
}

/// One wire value of its tag.
pub open spec fn enc_value(v: WeechatTypeView) -> Seq<u8>
    decreases v,
{
    match v {
        WeechatTypeView::Char(c) => seq![u8_of_i8(c)],
        WeechatTypeView::Int(i) => enc_u32(u32_of_i32(i)),
        WeechatTypeView::Long(l) => enc_digits(long_digits(l)),
        WeechatTypeView::Str(s) => enc_wstring(s),
        WeechatTypeView::Buffer(b) => enc_buffer(b),
        WeechatTypeView::Pointer(p) => enc_digits(hex_digits_of(p as nat)),
        WeechatTypeView::Time(t) => enc_digits(dec_digits_of(t as nat)),
        WeechatTypeView::HashTable(kt, vt, pairs) => tag_bytes(kt) + tag_bytes(vt) + enc_u32(
            pairs.len() as u32,
        ) + enc_pairs(pairs),
        WeechatTypeView::Hdata(h) => enc_wstring(WeechatStringView::Str(join_path(h.h_path)))
            + enc_wstring(WeechatStringView::Str(join_keys(h.keys))) + enc_u32(
            h.records.len() as u32,
        ) + enc_records(h.records),
        WeechatTypeView::Info(n, w) => enc_wstring(n) + enc_wstring(w),
        WeechatTypeView::InfoList(n, items) => enc_wstring(n) + enc_u32(items.len() as u32)
            + enc_items(items),
        WeechatTypeView::Array(t, elems) => tag_bytes(t) + enc_u32(elems.len() as u32) + enc_values(
            elems,
        ),
    }
}

/// Array elements, in order.
pub open spec fn enc_values(l: Seq<WeechatTypeView>) -> Seq<u8>
    decreases l,
{
    if l.len() == 0 {
        Seq::empty()
    } else {
        enc_value(l[0]) + enc_values(l.drop_first())
    }
}

/// Hash-table pairs, in order.
pub open spec fn enc_pairs(l: Seq<(WeechatTypeView, WeechatTypeView)>) -> Seq<u8>
    decreases l,
{
    if l.len() == 0 {
        Seq::empty()
    } else {
        enc_value(l[0].0) + enc_value(l[0].1) + enc_pairs(l.drop_first())
    }
}

/// Info-list entries, in order: name, tag, value.
pub open spec fn enc_items(l: Seq<(Seq<u8>, WeechatTypeView)>) -> Seq<u8>
    decreases l,
{
    if l.len() == 0 {
        Seq::empty()
    } else {
        enc_wstring(WeechatStringView::Str(l[0].0)) + tag_bytes(tag_of_value(l[0].1)) + enc_value(
            l[0].1,
        ) + enc_items(l.drop_first())
    }
}

/// A record's pointer prefix.
pub open spec fn enc_ptrs(l: Seq<u128>) -> Seq<u8>
    decreases l,
{
    if l.len() == 0 {
        Seq::empty()
    } else {
        enc_digits(hex_digits_of(l[0] as nat)) + enc_ptrs(l.drop_first())
    }
}

/// A record's column values, in declared order.
pub open spec fn enc_fields(l: Seq<(Seq<u8>, WeechatTypeView)>) -> Seq<u8>
    decreases l,
{
    if l.len() == 0 {
        Seq::empty()
    } else {
        enc_value(l[0].1) + enc_fields(l.drop_first())
    }
}

/// One hdata record: pointers, then column values.
pub open spec fn enc_record(r: HdataRecordView) -> Seq<u8>
    decreases r,
{
    enc_ptrs(r.p_path) + enc_fields(r.fields)
}

/// The records of an hdata, in order.
pub open spec fn enc_records(l: Seq<HdataRecordView>) -> Seq<u8>
    decreases l,
{
    if l.len() == 0 {
        Seq::empty()
    } else {
        enc_record(l[0]) + enc_records(l.drop_first())
    }
}

/// The top-level values of a message, each with its tag.
pub open spec fn enc_body_values(l: Seq<WeechatTypeView>) -> Seq<u8>
    decreases l,
{
    if l.len() == 0 {
        Seq::empty()
    } else {
        tag_bytes(tag_of_value(l[0])) + enc_value(l[0]) + enc_body_values(l.drop_first())
    }
}

/// A whole message body: the id string, then the tagged values.
pub open spec fn enc_body(m: MessageView) -> Seq<u8> {
    enc_wstring(WeechatStringView::Str(m.id)) + enc_body_values(m.data)
}

/// A chunk of an encoded region equals the matching chunk of the encoding.
proof fn lemma_chunk(s: Seq<u8>, pos: int, e: Seq<u8>, a: int, b: int)
    requires
        0 <= pos,
        pos + e.len() <= s.len(),
        s.subrange(pos, pos + e.len()) == e,
        0 <= a <= b <= e.len(),
    ensures
        s.subrange(pos + a, pos + b) == e.subrange(a, b),
{
    assert(s.subrange(pos + a, pos + b) =~= e.subrange(a, b)) by {
        assert forall|i: int| 0 <= i < b - a implies s.subrange(pos + a, pos + b)[i] == e.subrange(
            a,
            b,
        )[i] by {
            assert(s.subrange(pos, pos + e.len())[a + i] == e[a + i]);
        }
    }
}

/// One byte of an encoded region.
proof fn lemma_byte(s: Seq<u8>, pos: int, e: Seq<u8>, a: int)
    requires
        0 <= pos,
        pos + e.len() <= s.len(),
        s.subrange(pos, pos + e.len()) == e,
        0 <= a < e.len(),
    ensures
        s[pos + a] == e[a],
{
    assert(s.subrange(pos, pos + e.len())[a] == e[a]);
}

/// An encoded 32-bit integer parses back.
proof fn lemma_parse_u32(s: Seq<u8>, pos: int, n: u32)
    requires
        0 <= pos,
        pos + 4 <= s.len(),
        s.subrange(pos, pos + 4) == enc_u32(n),
    ensures
        crate::parse::sp_u32(s, pos) == Ok::<(u32, int), crate::parse::WeechatErrorType>(
            (n, pos + 4),
        ),
{
    lemma_enc_u32(n);
    lemma_byte(s, pos, enc_u32(n), 0);
    lemma_byte(s, pos, enc_u32(n), 1);
    lemma_byte(s, pos, enc_u32(n), 2);
    lemma_byte(s, pos, enc_u32(n), 3);
}

/// An encoded tri-state string parses back.
proof fn lemma_parse_wstring(s: Seq<u8>, pos: int, w: WeechatStringView)
    requires
        wf_wstring(w),
        0 <= pos,
        pos + enc_wstring(w).len() <= s.len(),
        s.subrange(pos, pos + enc_wstring(w).len()) == enc_wstring(w),
    ensures
        crate::parse::sp_wstring(s, pos) == Ok::<
            (WeechatStringView, int),
            crate::parse::WeechatErrorType,
        >((w, pos + enc_wstring(w).len())),
{
    match w {
        WeechatStringView::Null => {
            lemma_parse_u32(s, pos, 0xFFFF_FFFF);
        },
        WeechatStringView::Str(b) => {
            let e = enc_wstring(w);
            lemma_chunk(s, pos, e, 0, 4);
            assert(e.subrange(0, 4) =~= enc_u32(b.len() as u32));
            lemma_parse_u32(s, pos, b.len() as u32);
            lemma_chunk(s, pos, e, 4, e.len() as int);
            assert(e.subrange(4, e.len() as int) =~= b);
        },
    }
}

/// An encoded buffer parses back.
proof fn lemma_parse_buffer(s: Seq<u8>, pos: int, b: Option<Seq<u8>>)
    requires
        (b matches Some(bb) ==> bb.len() < 0xFFFF_FFFF),
        0 <= pos,
        pos + enc_buffer(b).len() <= s.len(),
        s.subrange(pos, pos + enc_buffer(b).len()) == enc_buffer(b),
    ensures
        crate::parse::sp_buffer(s, pos) == Ok::<
            (Option<Seq<u8>>, int),
            crate::parse::WeechatErrorType,
        >((b, pos + enc_buffer(b).len())),
{
    match b {
        None => {
            lemma_parse_u32(s, pos, 0xFFFF_FFFF);
        },
        Some(bb) => {
            let e = enc_buffer(b);
            lemma_chunk(s, pos, e, 0, 4);
            assert(e.subrange(0, 4) =~= enc_u32(bb.len() as u32));
            lemma_parse_u32(s, pos, bb.len() as u32);
            lemma_chunk(s, pos, e, 4, e.len() as int);
            assert(e.subrange(4, e.len() as int) =~= bb);
        },
    }
}

/// An encoded type tag parses back.
proof fn lemma_parse_tag(s: Seq<u8>, pos: int, t: Tag)
    requires
        0 <= pos,
        pos + 3 <= s.len(),
        s.subrange(pos, pos + 3) == tag_bytes(t),
    ensures
        crate::parse::sp_tag(s, pos) == Ok::<(Tag, int), crate::parse::WeechatErrorType>(
            (t, pos + 3),
        ),
{
    crate::message::lemma_tag_bytes_roundtrip(t);
    lemma_byte(s, pos, tag_bytes(t), 0);
    lemma_byte(s, pos, tag_bytes(t), 1);
    lemma_byte(s, pos, tag_bytes(t), 2);
}

/// An encoded unsigned digit string parses back.
proof fn lemma_parse_uint(s: Seq<u8>, pos: int, n: u128, hex: bool)
    requires
        0 <= pos,
        ({
            let d = if hex {
                hex_digits_of(n as nat)
            } else {
                dec_digits_of(n as nat)
            };
            &&& pos + enc_digits(d).len() <= s.len()
            &&& s.subrange(pos, pos + enc_digits(d).len()) == enc_digits(d)
        }),
    ensures
        ({
            let d = if hex {
                hex_digits_of(n as nat)
            } else {
                dec_digits_of(n as nat)
            };
            crate::parse::sp_uint_digits(s, pos, hex) == Ok::<
                (u128, int),
                crate::parse::WeechatErrorType,
            >((n, pos + enc_digits(d).len()))
        }),
{
    let d = if hex {
        hex_digits_of(n as nat)
    } else {
        dec_digits_of(n as nat)
    };
    if hex {
        crate::num::lemma_hex_digits_of(n as nat);
        crate::num::lemma_u128_hex_len(n);
    } else {
        crate::num::lemma_dec_digits_of(n as nat);
        crate::num::lemma_u128_dec_len(n);
    }
    let e = enc_digits(d);
    lemma_byte(s, pos, e, 0);
    assert(s[pos] == d.len() as u8);
    lemma_chunk(s, pos, e, 1, e.len() as int);
    assert(e.subrange(1, e.len() as int) =~= d);
    assert(s.subrange(pos + 1, pos + 1 + d.len()) == d);
}

/// An encoded long parses back.
proof fn lemma_parse_long(s: Seq<u8>, pos: int, l: i128)
    requires
        0 <= pos,
        pos + enc_digits(long_digits(l)).len() <= s.len(),
        s.subrange(pos, pos + enc_digits(long_digits(l)).len()) == enc_digits(long_digits(l)),
    ensures
        crate::parse::sp_long(s, pos) == Ok::<(i128, int), crate::parse::WeechatErrorType>(
            (l, pos + enc_digits(long_digits(l)).len()),
        ),
{
    let d = long_digits(l);
    let e = enc_digits(d);
    lemma_byte(s, pos, e, 0);
    lemma_chunk(s, pos, e, 1, e.len() as int);
    assert(e.subrange(1, e.len() as int) =~= d);
    assert(s.subrange(pos + 1, pos + 1 + d.len()) == d);
    if l < 0 {
        let m = dec_digits_of((-l) as nat);
        crate::num::lemma_dec_digits_of((-l) as nat);
        crate::num::lemma_u128_dec_len((-l) as u128);
        assert(d[0] == '-' as u8);
        assert(d.skip(1) =~= m);
    } else {
        let m = dec_digits_of(l as nat);
        crate::num::lemma_dec_digits_of(l as nat);
        crate::num::lemma_u128_dec_len(l as u128);
        assert(d == m);
        assert(crate::num::is_dec_digit(d[0]));
        assert(d[0] != '-' as u8);
    }
}

/// A byte sequence without the separator splits to itself.
proof fn lemma_split_whole(s: Seq<u8>, sep: u8)
    requires
        !s.contains(sep),
    ensures
        crate::parse::split_bytes(s, sep) == seq![s],
    decreases s.len(),
{
    if s.len() == 0 {
        assert(crate::parse::split_bytes(s, sep) =~~= seq![s]);
    } else {
        assert(s[0] != sep);
        assert(!s.skip(1).contains(sep)) by {
            if s.skip(1).contains(sep) {
                let k = choose|k: int| 0 <= k < s.skip(1).len() && s.skip(1)[k] == sep;
                assert(s[k + 1] == sep);
            }
        }
        lemma_split_whole(s.skip(1), sep);
        assert(crate::parse::split_bytes(s, sep) =~~= seq![s]) by {
            assert(seq![s[0]] + s.skip(1) =~= s);
        }
    }
}

/// Splitting at a separator peels the first piece.
proof fn lemma_split_concat(a: Seq<u8>, b: Seq<u8>, sep: u8)
    requires
        !a.contains(sep),
    ensures
        crate::parse::split_bytes(a + seq![sep] + b, sep) == seq![a] + crate::parse::split_bytes(
            b,
            sep,
        ),
    decreases a.len(),
{
    let s = a + seq![sep] + b;
    if a.len() == 0 {
        assert(s[0] == sep);
        assert(s.skip(1) =~= b);
        assert(crate::parse::split_bytes(s, sep) =~~= seq![a] + crate::parse::split_bytes(b, sep));
    } else {
        assert(s[0] == a[0]);
        assert(s[0] != sep);
        assert(!a.skip(1).contains(sep)) by {
            if a.skip(1).contains(sep) {
                let k = choose|k: int| 0 <= k < a.skip(1).len() && a.skip(1)[k] == sep;
                assert(a[k + 1] == sep);
            }
        }
        lemma_split_concat(a.skip(1), b, sep);
        assert(s.skip(1) =~= a.skip(1) + seq![sep] + b);
        crate::parse::lemma_split_nonempty(b, sep);
        assert(crate::parse::split_bytes(s, sep) =~~= seq![a] + crate::parse::split_bytes(b, sep))
            by {
            let rest = crate::parse::split_bytes(s.skip(1), sep);
            assert(rest == seq![a.skip(1)] + crate::parse::split_bytes(b, sep));
            assert(rest[0] == a.skip(1));
            assert(seq![s[0]] + rest[0] =~= a);
            assert(rest.skip(1) =~= crate::parse::split_bytes(b, sep));
        }
    }
}

/// Joining path segments and splitting them again is the identity.
proof fn lemma_split_join_path(segs: Seq<Seq<u8>>)
    requires
        segs.len() >= 1,
        forall|i: int| 0 <= i < segs.len() ==> !(#[trigger] segs[i]).contains('/' as u8),
    ensures
        crate::parse::split_bytes(join_path(segs), '/' as u8) == segs,
    decreases segs.len(),
{
    if segs.len() == 1 {
        lemma_split_whole(segs[0], '/' as u8);
        assert(crate::parse::split_bytes(join_path(segs), '/' as u8) =~~= segs);
    } else {
        lemma_split_join_path(segs.drop_first());
        assert(join_path(segs) == segs[0] + seq!['/' as u8] + join_path(segs.drop_first()));
        lemma_split_concat(segs[0], join_path(segs.drop_first()), '/' as u8);
        assert(crate::parse::split_bytes(join_path(segs), '/' as u8) =~~= segs);
    }
}

/// The bytes of every tag are letters: no separator appears in them.
proof fn lemma_tag_bytes_plain(t: Tag)
    ensures
        !tag_bytes(t).contains(',' as u8),
        !tag_bytes(t).contains(':' as u8),
{
    let b = tag_bytes(t);
    assert forall|i: int| 0 <= i < b.len() implies b[i] != ',' as u8 && b[i] != ':' as u8 by {
        match t {
            Tag::Chr => {
                assert(b =~= seq!['c' as u8, 'h' as u8, 'r' as u8]);
            },
            Tag::Int => {
                assert(b =~= seq!['i' as u8, 'n' as u8, 't' as u8]);
            },
            Tag::Lon => {
                assert(b =~= seq!['l' as u8, 'o' as u8, 'n' as u8]);
            },
            Tag::Str => {
                assert(b =~= seq!['s' as u8, 't' as u8, 'r' as u8]);
            },
            Tag::Buf => {
                assert(b =~= seq!['b' as u8, 'u' as u8, 'f' as u8]);
            },
            Tag::Ptr => {
                assert(b =~= seq!['p' as u8, 't' as u8, 'r' as u8]);
            },
            Tag::Tim => {
                assert(b =~= seq!['t' as u8, 'i' as u8, 'm' as u8]);
            },
            Tag::Htb => {
                assert(b =~= seq!['h' as u8, 't' as u8, 'b' as u8]);
            },
            Tag::Hda => {
                assert(b =~= seq!['h' as u8, 'd' as u8, 'a' as u8]);
            },
            Tag::Inf => {
                assert(b =~= seq!['i' as u8, 'n' as u8, 'f' as u8]);
            },
            Tag::Inl => {
                assert(b =~= seq!['i' as u8, 'n' as u8, 'l' as u8]);
            },
            Tag::Arr => {
                assert(b =~= seq!['a' as u8, 'r' as u8, 'r' as u8]);
            },
        }
    }
    if b.contains(',' as u8) {
        let k = choose|k: int| 0 <= k < b.len() && b[k] == ',' as u8;
    }
    if b.contains(':' as u8) {
        let k = choose|k: int| 0 <= k < b.len() && b[k] == ':' as u8;
    }
}

/// One joined `name:tag` piece parses back to its column.
proof fn lemma_parse_key_piece(name: Seq<u8>, t: Tag)
    requires
        !name.contains(':' as u8),
    ensures
        crate::parse::parse_key_piece(name + seq![':' as u8] + tag_bytes(t)) == Ok::<
            (Seq<u8>, Tag),
            crate::parse::WeechatErrorType,
        >((name, t)),
{
    let p = name + seq![':' as u8] + tag_bytes(t);
    lemma_tag_bytes_plain(t);
    lemma_split_whole(tag_bytes(t), ':' as u8);
    lemma_split_concat(name, tag_bytes(t), ':' as u8);
    let parts = crate::parse::split_bytes(p, ':' as u8);
    assert(parts == seq![name] + seq![tag_bytes(t)]);
    assert(parts.len() == 2);
    assert(parts[0] == name);
    assert(parts[1] == tag_bytes(t));
    crate::message::lemma_tag_bytes_roundtrip(t);
}

/// A joined schema string parses back to its columns.
proof fn lemma_parse_keys(keys: Seq<(Seq<u8>, Tag)>)
    requires
        keys.len() >= 1,
        forall|i: int|
            0 <= i < keys.len() ==> !(#[trigger] keys[i]).0.contains(',' as u8) && !keys[i].0.contains(
                ':' as u8,
            ),
    ensures
        crate::parse::parse_keys_text(join_keys(keys)) == Ok::<
            Seq<(Seq<u8>, Tag)>,
            crate::parse::WeechatErrorType,
        >(keys),
    decreases keys.len(),
{
    let piece = keys[0].0 + seq![':' as u8] + tag_bytes(keys[0].1);
    assert(!piece.contains(',' as u8)) by {
        lemma_tag_bytes_plain(keys[0].1);
        if piece.contains(',' as u8) {
            let k = choose|k: int| 0 <= k < piece.len() && piece[k] == ',' as u8;
            if k < keys[0].0.len() {
                assert(keys[0].0[k] == ',' as u8);
            } else if k == keys[0].0.len() {
            } else {
                assert(tag_bytes(keys[0].1)[k - keys[0].0.len() - 1] == ',' as u8);
            }
        }
    }
    if keys.len() == 1 {
        assert(join_keys(keys) == piece);
        lemma_split_whole(piece, ',' as u8);
        lemma_parse_key_piece(keys[0].0, keys[0].1);
        assert(crate::parse::parse_keys_text(join_keys(keys)) =~~= Ok::<
            Seq<(Seq<u8>, Tag)>,
            crate::parse::WeechatErrorType,
        >(keys)) by {
            let pieces = crate::parse::split_bytes(piece, ',' as u8);
            assert(pieces == seq![piece]);
            assert(pieces.drop_first() =~~= Seq::<Seq<u8>>::empty());
            assert(crate::parse::parse_key_pieces(pieces.drop_first()) == Ok::<
                Seq<(Seq<u8>, Tag)>,
                crate::parse::WeechatErrorType,
            >(Seq::empty()));
            assert(seq![(keys[0].0, keys[0].1)] + Seq::<(Seq<u8>, Tag)>::empty() =~= keys);
        }
    } else {
        lemma_parse_keys(keys.drop_first());
        assert(join_keys(keys) == piece + seq![',' as u8] + join_keys(keys.drop_first()));
        lemma_split_concat(piece, join_keys(keys.drop_first()), ',' as u8);
        lemma_parse_key_piece(keys[0].0, keys[0].1);
        let pieces = crate::parse::split_bytes(join_keys(keys), ',' as u8);
        assert(pieces == seq![piece] + crate::parse::split_bytes(
            join_keys(keys.drop_first()),
            ',' as u8,
        ));
        assert(pieces[0] == piece);
        assert(pieces.drop_first() =~~= crate::parse::split_bytes(
            join_keys(keys.drop_first()),
            ',' as u8,
        ));
        assert(crate::parse::parse_keys_text(join_keys(keys)) =~~= Ok::<
            Seq<(Seq<u8>, Tag)>,
            crate::parse::WeechatErrorType,
        >(keys)) by {
            assert(seq![(keys[0].0, keys[0].1)] + keys.drop_first() =~= keys);
        }
    }
}

/// A sequence of ASCII bytes is valid UTF-8.
proof fn lemma_ascii_valid(s: Seq<u8>)
    requires
        forall|i: int| 0 <= i < s.len() ==> (#[trigger] s[i]) < 0x80,
    ensures
        vstd::utf8::valid_utf8(s),
    decreases s.len(),
{
    if s.len() != 0 {
        assert(vstd::utf8::valid_first_scalar(s));
        assert(vstd::utf8::length_of_first_scalar(s) == 1);
        let rest = vstd::utf8::pop_first_scalar(s);
        assert(rest =~= s.skip(1));
        assert forall|i: int| 0 <= i < rest.len() implies (#[trigger] rest[i]) < 0x80 by {
            assert(rest[i] == s[i + 1]);
        }
        lemma_ascii_valid(rest);
    }
}

/// A joined hdata path is UTF-8 text when its segments are.
proof fn lemma_join_path_utf8(segs: Seq<Seq<u8>>)
    requires
        forall|i: int| 0 <= i < segs.len() ==> vstd::utf8::valid_utf8(#[trigger] segs[i]),
    ensures
        vstd::utf8::valid_utf8(join_path(segs)),
    decreases segs.len(),
{
    if segs.len() == 0 {
        lemma_ascii_valid(join_path(segs));
    } else if segs.len() == 1 {
        assert(join_path(segs) == segs[0]);
    } else {
        lemma_join_path_utf8(segs.drop_first());
        lemma_ascii_valid(seq!['/' as u8]);
        vstd::utf8::valid_utf8_concat(segs[0], seq!['/' as u8]);
        vstd::utf8::valid_utf8_concat(
            segs[0] + seq!['/' as u8],
            join_path(segs.drop_first()),
        );
        assert(segs[0] + seq!['/' as u8] + join_path(segs.drop_first()) == (segs[0] + seq![
            '/' as u8,
        ]) + join_path(segs.drop_first()));
    }
}

/// Every tag's bytes are ASCII.
proof fn lemma_tag_bytes_ascii(t: Tag)
    ensures
        forall|i: int| 0 <= i < tag_bytes(t).len() ==> (#[trigger] tag_bytes(t)[i]) < 0x80,
{
    let b = tag_bytes(t);
    assert forall|i: int| 0 <= i < b.len() implies (#[trigger] b[i]) < 0x80 by {
        match t {
            Tag::Chr => {
                assert(b =~= seq!['c' as u8, 'h' as u8, 'r' as u8]);
            },
            Tag::Int => {
                assert(b =~= seq!['i' as u8, 'n' as u8, 't' as u8]);
            },
            Tag::Lon => {
                assert(b =~= seq!['l' as u8, 'o' as u8, 'n' as u8]);
            },
            Tag::Str => {
                assert(b =~= seq!['s' as u8, 't' as u8, 'r' as u8]);
            },
            Tag::Buf => {
                assert(b =~= seq!['b' as u8, 'u' as u8, 'f' as u8]);
            },
            Tag::Ptr => {
                assert(b =~= seq!['p' as u8, 't' as u8, 'r' as u8]);
            },
            Tag::Tim => {
                assert(b =~= seq!['t' as u8, 'i' as u8, 'm' as u8]);
            },
            Tag::Htb => {
                assert(b =~= seq!['h' as u8, 't' as u8, 'b' as u8]);
            },
            Tag::Hda => {
                assert(b =~= seq!['h' as u8, 'd' as u8, 'a' as u8]);
            },
            Tag::Inf => {
                assert(b =~= seq!['i' as u8, 'n' as u8, 'f' as u8]);
            },
            Tag::Inl => {
                assert(b =~= seq!['i' as u8, 'n' as u8, 'l' as u8]);
            },
            Tag::Arr => {
                assert(b =~= seq!['a' as u8, 'r' as u8, 'r' as u8]);
            },
        }
    }
}

/// A joined hdata schema string is UTF-8 text when its names are.
proof fn lemma_join_keys_utf8(keys: Seq<(Seq<u8>, Tag)>)
    requires
        forall|i: int| 0 <= i < keys.len() ==> vstd::utf8::valid_utf8((#[trigger] keys[i]).0),
    ensures
        vstd::utf8::valid_utf8(join_keys(keys)),
    decreases keys.len(),
{
    if keys.len() == 0 {
        lemma_ascii_valid(join_keys(keys));
    } else {
        let piece = keys[0].0 + seq![':' as u8] + tag_bytes(keys[0].1);
        assert(vstd::utf8::valid_utf8(piece)) by {
            lemma_ascii_valid(seq![':' as u8]);
            lemma_tag_bytes_ascii(keys[0].1);
            lemma_ascii_valid(tag_bytes(keys[0].1));
            vstd::utf8::valid_utf8_concat(keys[0].0, seq![':' as u8]);
            vstd::utf8::valid_utf8_concat(keys[0].0 + seq![':' as u8], tag_bytes(keys[0].1));
            assert(piece == (keys[0].0 + seq![':' as u8]) + tag_bytes(keys[0].1));
        }
        if keys.len() == 1 {
            assert(join_keys(keys) == piece);
        } else {
            lemma_join_keys_utf8(keys.drop_first());
            lemma_ascii_valid(seq![',' as u8]);
            vstd::utf8::valid_utf8_concat(piece, seq![',' as u8]);
            vstd::utf8::valid_utf8_concat(
                piece + seq![',' as u8],
                join_keys(keys.drop_first()),
            );
            assert(join_keys(keys) == (piece + seq![',' as u8]) + join_keys(keys.drop_first()));
        }
    }
}

/// Every value encodes to at least one byte.
proof fn lemma_enc_value_min(v: WeechatTypeView)
    ensures
        enc_value(v).len() >= 1,
{
}

/// An encoded value parses back to that value.
#[verifier::rlimit(90)]
pub proof fn lemma_enc_value(s: Seq<u8>, pos: int, v: WeechatTypeView)
    requires
        wf_value(v),
        0 <= pos,
        pos + enc_value(v).len() <= s.len(),
        s.subrange(pos, pos + enc_value(v).len()) == enc_value(v),
    ensures
        crate::parse::sp_value(s, pos, tag_of_value(v)) == Ok::<
            (WeechatTypeView, int),
            crate::parse::WeechatErrorType,
        >((v, pos + enc_value(v).len())),
    decreases v, 0int, 1int,
{
    let e = enc_value(v);
    match v {
        WeechatTypeView::Char(c) => {
            lemma_byte(s, pos, e, 0);
        },
        WeechatTypeView::Int(i) => {
            lemma_parse_u32(s, pos, u32_of_i32(i));
        },
        WeechatTypeView::Long(l) => {
            lemma_parse_long(s, pos, l);
        },
        WeechatTypeView::Str(w) => {
            lemma_parse_wstring(s, pos, w);
        },
        WeechatTypeView::Buffer(b) => {
            lemma_parse_buffer(s, pos, b);
        },
        WeechatTypeView::Pointer(p) => {
            lemma_parse_uint(s, pos, p, true);
        },
        WeechatTypeView::Time(t) => {
            lemma_parse_uint(s, pos, t, false);
        },
        WeechatTypeView::HashTable(kt, vt, pairs) => {
            lemma_enc_value_htb(s, pos, v);
        },
        WeechatTypeView::Hdata(h) => {
            lemma_enc_value_hda(s, pos, v);
        },
        WeechatTypeView::Info(n, w) => {
            let e1 = enc_wstring(n);
            let e2 = enc_wstring(w);
            assert(e == e1 + e2);
            lemma_chunk(s, pos, e, 0, e1.len() as int);
            assert(e.subrange(0, e1.len() as int) =~= e1);
            lemma_parse_wstring(s, pos, n);
            lemma_chunk(s, pos, e, e1.len() as int, e.len() as int);
            assert(e.subrange(e1.len() as int, e.len() as int) =~= e2);
            lemma_parse_wstring(s, pos + e1.len() as int, w);
        },
        WeechatTypeView::InfoList(n, items) => {
            lemma_enc_value_inl(s, pos, v);
        },
        WeechatTypeView::Array(t, elems) => {
            lemma_enc_value_arr(s, pos, v);
        },
    }
}

/// The hash-table case of `lemma_enc_value`.
#[verifier::rlimit(100)]
proof fn lemma_enc_value_htb(s: Seq<u8>, pos: int, v: WeechatTypeView)
    requires
        v is HashTable,
        wf_value(v),
        0 <= pos,
        pos + enc_value(v).len() <= s.len(),
        s.subrange(pos, pos + enc_value(v).len()) == enc_value(v),
    ensures
        crate::parse::sp_value(s, pos, tag_of_value(v)) == Ok::<
            (WeechatTypeView, int),
            crate::parse::WeechatErrorType,
        >((v, pos + enc_value(v).len())),
    decreases v, 0int, 0int,
{
    let e = enc_value(v);
    match v {
        WeechatTypeView::HashTable(kt, vt, pairs) => {

            let ep = enc_pairs(pairs);
            assert(e == tag_bytes(kt) + tag_bytes(vt) + enc_u32(pairs.len() as u32) + ep);
            lemma_chunk(s, pos, e, 0, 3);
            assert(e.subrange(0, 3) =~= tag_bytes(kt));
            lemma_parse_tag(s, pos, kt);
            lemma_chunk(s, pos, e, 3, 6);
            assert(e.subrange(3, 6) =~= tag_bytes(vt));
            lemma_parse_tag(s, pos + 3, vt);
            lemma_chunk(s, pos, e, 6, 10);
            assert(e.subrange(6, 10) =~= enc_u32(pairs.len() as u32));
            lemma_parse_u32(s, pos + 6, pairs.len() as u32);
            lemma_chunk(s, pos, e, 10, e.len() as int);
            assert(e.subrange(10, e.len() as int) =~= ep);
            lemma_enc_pairs(s, pos + 10, pairs, kt, vt);
        },
        _ => {
        },
    }
}

/// The hdata case of `lemma_enc_value`.
#[verifier::rlimit(100)]
proof fn lemma_enc_value_hda(s: Seq<u8>, pos: int, v: WeechatTypeView)
    requires
        v is Hdata,
        wf_value(v),
        0 <= pos,
        pos + enc_value(v).len() <= s.len(),
        s.subrange(pos, pos + enc_value(v).len()) == enc_value(v),
    ensures
        crate::parse::sp_value(s, pos, tag_of_value(v)) == Ok::<
            (WeechatTypeView, int),
            crate::parse::WeechatErrorType,
        >((v, pos + enc_value(v).len())),
    decreases v, 0int, 0int,
{
    let e = enc_value(v);
    match v {
        WeechatTypeView::Hdata(h) => {

            assert(wf_hdata(h));
            let jp = join_path(h.h_path);
            let jk = join_keys(h.keys);
            let e1 = enc_wstring(WeechatStringView::Str(jp));
            let e2 = enc_wstring(WeechatStringView::Str(jk));
            let e3 = enc_u32(h.records.len() as u32);
            let er = enc_records(h.records);
            assert(e == e1 + e2 + e3 + er);
            lemma_chunk(s, pos, e, 0, e1.len() as int);
            assert(e.subrange(0, e1.len() as int) =~= e1);
            assert(wf_text(jp)) by {
                lemma_join_path_utf8(h.h_path);
            }
            lemma_parse_wstring(s, pos, WeechatStringView::Str(jp));
            let p1 = pos + e1.len() as int;
            lemma_chunk(s, pos, e, e1.len() as int, e1.len() as int + e2.len() as int);
            assert(e.subrange(e1.len() as int, e1.len() as int + e2.len() as int) =~= e2);
            assert(wf_text(jk)) by {
                lemma_join_keys_utf8(h.keys);
            }
            lemma_parse_wstring(s, p1, WeechatStringView::Str(jk));
            let p2 = p1 + e2.len();
            lemma_chunk(s, pos, e, e1.len() as int + e2.len() as int, e1.len() as int + e2.len() as int + 4);
            assert(e.subrange(e1.len() as int + e2.len() as int, e1.len() as int + e2.len() as int + 4) =~= e3);
            lemma_parse_u32(s, p2, h.records.len() as u32);
            let p3 = p2 + 4;
            lemma_chunk(s, pos, e, e1.len() as int + e2.len() as int + 4, e.len() as int);
            assert(e.subrange(e1.len() as int + e2.len() as int + 4, e.len() as int) =~= er);
            lemma_split_join_path(h.h_path);
            lemma_parse_keys(h.keys);
            lemma_enc_records(s, p3, h.records, h.h_path.len() as int, h.keys);
            assert(crate::parse::sp_value(s, pos, Tag::Hda) == Ok::<
                (WeechatTypeView, int),
                crate::parse::WeechatErrorType,
            >((v, pos + e.len()))) by {
                assert(HdataView {
                    h_path: h.h_path,
                    keys: h.keys,
                    records: h.records,
                } == h);
            }
        },
        _ => {
        },
    }
}

/// The info-list case of `lemma_enc_value`.
#[verifier::rlimit(100)]
proof fn lemma_enc_value_inl(s: Seq<u8>, pos: int, v: WeechatTypeView)
    requires
        v is InfoList,
        wf_value(v),
        0 <= pos,
        pos + enc_value(v).len() <= s.len(),
        s.subrange(pos, pos + enc_value(v).len()) == enc_value(v),
    ensures
        crate::parse::sp_value(s, pos, tag_of_value(v)) == Ok::<
            (WeechatTypeView, int),
            crate::parse::WeechatErrorType,
        >((v, pos + enc_value(v).len())),
    decreases v, 0int, 0int,
{
    let e = enc_value(v);
    match v {
        WeechatTypeView::InfoList(n, items) => {

            let e1 = enc_wstring(n);
            let e2 = enc_u32(items.len() as u32);
            let ei = enc_items(items);
            assert(e == e1 + e2 + ei);
            lemma_chunk(s, pos, e, 0, e1.len() as int);
            assert(e.subrange(0, e1.len() as int) =~= e1);
            lemma_parse_wstring(s, pos, n);
            lemma_chunk(s, pos, e, e1.len() as int, e1.len() as int + 4);
            assert(e.subrange(e1.len() as int, e1.len() as int + 4) =~= e2);
            lemma_parse_u32(s, pos + e1.len() as int, items.len() as u32);
            lemma_chunk(s, pos, e, e1.len() as int + 4, e.len() as int);
            assert(e.subrange(e1.len() as int + 4, e.len() as int) =~= ei);
            lemma_enc_items(s, pos + e1.len() as int + 4, items);
        },
        _ => {
        },
    }
}

/// The array case of `lemma_enc_value`.
#[verifier::rlimit(100)]
proof fn lemma_enc_value_arr(s: Seq<u8>, pos: int, v: WeechatTypeView)
    requires
        v is Array,
        wf_value(v),
        0 <= pos,
        pos + enc_value(v).len() <= s.len(),
        s.subrange(pos, pos + enc_value(v).len()) == enc_value(v),
    ensures
        crate::parse::sp_value(s, pos, tag_of_value(v)) == Ok::<
            (WeechatTypeView, int),
            crate::parse::WeechatErrorType,
        >((v, pos + enc_value(v).len())),
    decreases v, 0int, 0int,
{
    let e = enc_value(v);
    match v {
        WeechatTypeView::Array(t, elems) => {

            let ev = enc_values(elems);
            assert(e == tag_bytes(t) + enc_u32(elems.len() as u32) + ev);
            lemma_chunk(s, pos, e, 0, 3);
            assert(e.subrange(0, 3) =~= tag_bytes(t));
            lemma_parse_tag(s, pos, t);
            lemma_chunk(s, pos, e, 3, 7);
            assert(e.subrange(3, 7) =~= enc_u32(elems.len() as u32));
            lemma_parse_u32(s, pos + 3, elems.len() as u32);
            lemma_chunk(s, pos, e, 7, e.len() as int);
            assert(e.subrange(7, e.len() as int) =~= ev);
            lemma_enc_values(s, pos + 7, elems, t);
        },
        _ => {
        },
    }
}

/// Encoded array elements parse back.
#[verifier::rlimit(100)]
proof fn lemma_enc_values(s: Seq<u8>, pos: int, l: Seq<WeechatTypeView>, t: Tag)
    requires
        forall|i: int|
            0 <= i < l.len() ==> tag_of_value(#[trigger] l[i]) == t && wf_value(l[i]),
        0 <= pos,
        pos + enc_values(l).len() <= s.len(),
        s.subrange(pos, pos + enc_values(l).len()) == enc_values(l),
    ensures
        crate::parse::sp_value_seq(s, pos, t, l.len() as int) == Ok::<
            (Seq<WeechatTypeView>, int),
            crate::parse::WeechatErrorType,
        >((l, pos + enc_values(l).len())),
    decreases l, 1int, 0int,
{
    if l.len() == 0 {
        assert(l =~= Seq::<WeechatTypeView>::empty());
    } else {
        let e = enc_values(l);
        let e0 = enc_value(l[0]);
        assert(e == e0 + enc_values(l.drop_first()));
        lemma_chunk(s, pos, e, 0, e0.len() as int);
        assert(e.subrange(0, e0.len() as int) =~= e0);
        lemma_enc_value(s, pos, l[0]);
        lemma_chunk(s, pos, e, e0.len() as int, e.len() as int);
        assert(e.subrange(e0.len() as int, e.len() as int) =~= enc_values(l.drop_first()));
        lemma_enc_values(s, pos + e0.len() as int, l.drop_first(), t);
        assert(seq![l[0]] + l.drop_first() =~= l);
    }
}

/// Encoded hash-table pairs parse back.
#[verifier::rlimit(100)]
#[verifier::rlimit(100)]
proof fn lemma_enc_pairs(
    s: Seq<u8>,
    pos: int,
    l: Seq<(WeechatTypeView, WeechatTypeView)>,
    kt: Tag,
    vt: Tag,
)
    requires
        forall|i: int|
            0 <= i < l.len() ==> tag_of_value((#[trigger] l[i]).0) == kt && tag_of_value(l[i].1)
                == vt && wf_value(l[i].0) && wf_value(l[i].1),
        0 <= pos,
        pos + enc_pairs(l).len() <= s.len(),
        s.subrange(pos, pos + enc_pairs(l).len()) == enc_pairs(l),
    ensures
        crate::parse::sp_pair_seq(s, pos, kt, vt, l.len() as int) == Ok::<
            (Seq<(WeechatTypeView, WeechatTypeView)>, int),
            crate::parse::WeechatErrorType,
        >((l, pos + enc_pairs(l).len())),
    decreases l, 1int, 0int,
{
    if l.len() == 0 {
        assert(l =~= Seq::<(WeechatTypeView, WeechatTypeView)>::empty());
    } else {
        let e = enc_pairs(l);
        let e0 = enc_value(l[0].0);
        let e1 = enc_value(l[0].1);
        assert(e == e0 + e1 + enc_pairs(l.drop_first()));
        lemma_chunk(s, pos, e, 0, e0.len() as int);
        assert(e.subrange(0, e0.len() as int) =~= e0);
        lemma_enc_value(s, pos, l[0].0);
        lemma_chunk(s, pos, e, e0.len() as int, e0.len() as int + e1.len() as int);
        assert(e.subrange(e0.len() as int, e0.len() as int + e1.len() as int) =~= e1);
        lemma_enc_value(s, pos + e0.len() as int, l[0].1);
        lemma_chunk(s, pos, e, e0.len() as int + e1.len() as int, e.len() as int);
        assert(e.subrange(e0.len() as int + e1.len() as int, e.len() as int) =~= enc_pairs(l.drop_first()));
        lemma_enc_pairs(s, pos + e0.len() as int + e1.len() as int, l.drop_first(), kt, vt);
        assert(seq![(l[0].0, l[0].1)] + l.drop_first() =~= l);
    }
}

/// One encoded info-list entry parses back: its name, its tag, its value.
#[verifier::rlimit(100)]
proof fn lemma_enc_item_head(s: Seq<u8>, pos: int, nm: Seq<u8>, v: WeechatTypeView, e: Seq<u8>)
    requires
        wf_text(nm),
        wf_value(v),
        e == enc_wstring(WeechatStringView::Str(nm)) + tag_bytes(tag_of_value(v)) + enc_value(v),
        0 <= pos,
        pos + e.len() <= s.len(),
        s.subrange(pos, pos + e.len()) == e,
    ensures
        ({
            let en = enc_wstring(WeechatStringView::Str(nm));
            let ev = enc_value(v);
            &&& crate::parse::sp_wstring(s, pos) == Ok::<
                (WeechatStringView, int),
                crate::parse::WeechatErrorType,
            >((WeechatStringView::Str(nm), pos + en.len()))
            &&& crate::parse::sp_tag(s, pos + en.len() as int) == Ok::<
                (Tag, int),
                crate::parse::WeechatErrorType,
            >((tag_of_value(v), pos + en.len() + 3))
            &&& crate::parse::sp_value(s, pos + en.len() as int + 3, tag_of_value(v)) == Ok::<
                (WeechatTypeView, int),
                crate::parse::WeechatErrorType,
            >((v, pos + e.len()))
        }),
    decreases v, 2int, 0int,
{
    let en = enc_wstring(WeechatStringView::Str(nm));
    let et = tag_bytes(tag_of_value(v));
    let ev = enc_value(v);
    lemma_chunk(s, pos, e, 0, en.len() as int);
    assert(e.subrange(0, en.len() as int) =~= en);
    lemma_parse_wstring(s, pos, WeechatStringView::Str(nm));
    lemma_chunk(s, pos, e, en.len() as int, en.len() as int + 3);
    assert(e.subrange(en.len() as int, en.len() as int + 3) =~= et);
    lemma_parse_tag(s, pos + en.len() as int, tag_of_value(v));
    lemma_chunk(s, pos, e, en.len() as int + 3, e.len() as int);
    assert(e.subrange(en.len() as int + 3, e.len() as int) =~= ev);
    lemma_enc_value(s, pos + en.len() as int + 3, v);
}

/// The two halves of a concatenation, read back off it.
proof fn lemma_cat_parts(a: Seq<u8>, b: Seq<u8>)
    ensures
        (a + b).subrange(0, a.len() as int) == a,
        (a + b).subrange(a.len() as int, (a + b).len() as int) == b,
{
    assert((a + b).subrange(0, a.len() as int) =~= a);
    assert((a + b).subrange(a.len() as int, (a + b).len() as int) =~= b);
}

/// Assembles one parsed entry and the parsed remainder into the whole list.
#[verifier::rlimit(100)]
proof fn lemma_inl_assemble(
    s: Seq<u8>,
    pos: int,
    l: Seq<(Seq<u8>, WeechatTypeView)>,
    p1: int,
    p2: int,
    p3: int,
    p4: int,
)
    requires
        l.len() >= 1,
        0 <= pos <= p1 <= s.len(),
        p2 == p1 + 3,
        p2 <= p3 <= s.len(),
        crate::parse::sp_wstring(s, pos) == Ok::<
            (WeechatStringView, int),
            crate::parse::WeechatErrorType,
        >((WeechatStringView::Str(l[0].0), p1)),
        crate::parse::sp_tag(s, p1) == Ok::<(Tag, int), crate::parse::WeechatErrorType>(
            (tag_of_value(l[0].1), p2),
        ),
        crate::parse::sp_value(s, p2, tag_of_value(l[0].1)) == Ok::<
            (WeechatTypeView, int),
            crate::parse::WeechatErrorType,
        >((l[0].1, p3)),
        crate::parse::sp_inl_entries(s, p3, l.len() as int - 1) == Ok::<
            (Seq<(Seq<u8>, WeechatTypeView)>, int),
            crate::parse::WeechatErrorType,
        >((l.drop_first(), p4)),
    ensures
        crate::parse::sp_inl_entries(s, pos, l.len() as int) == Ok::<
            (Seq<(Seq<u8>, WeechatTypeView)>, int),
            crate::parse::WeechatErrorType,
        >((l, p4)),
{
    assert(seq![(l[0].0, l[0].1)] + l.drop_first() =~= l);
}

/// Encoded info-list entries parse back.
#[verifier::rlimit(100)]
proof fn lemma_enc_items(s: Seq<u8>, pos: int, l: Seq<(Seq<u8>, WeechatTypeView)>)
    requires
        forall|i: int|
            0 <= i < l.len() ==> wf_text((#[trigger] l[i]).0) && wf_value(l[i].1),
        0 <= pos,
        pos + enc_items(l).len() <= s.len(),
        s.subrange(pos, pos + enc_items(l).len()) == enc_items(l),
    ensures
        crate::parse::sp_inl_entries(s, pos, l.len() as int) == Ok::<
            (Seq<(Seq<u8>, WeechatTypeView)>, int),
            crate::parse::WeechatErrorType,
        >((l, pos + enc_items(l).len())),
    decreases l, 3int, 0int,
{
    if l.len() == 0 {
        assert(l =~= Seq::<(Seq<u8>, WeechatTypeView)>::empty());
    } else {
        let e = enc_items(l);
        let en = enc_wstring(WeechatStringView::Str(l[0].0));
        let ev = enc_value(l[0].1);
        let e0 = en + tag_bytes(tag_of_value(l[0].1)) + ev;
        assert(e == e0 + enc_items(l.drop_first()));
        lemma_cat_parts(e0, enc_items(l.drop_first()));
        lemma_chunk(s, pos, e, 0, e0.len() as int);
        lemma_enc_item_head(s, pos, l[0].0, l[0].1, e0);
        lemma_chunk(s, pos, e, e0.len() as int, e.len() as int);
        assert forall|i: int|
            0 <= i < l.drop_first().len() implies wf_text(
            (#[trigger] l.drop_first()[i]).0,
        ) && wf_value(l.drop_first()[i].1) by {
            assert(l.drop_first()[i] == l[i + 1]);
        }
        lemma_enc_items(s, pos + e0.len() as int, l.drop_first());
        lemma_inl_assemble(
            s,
            pos,
            l,
            pos + en.len() as int,
            pos + en.len() as int + 3,
            pos + e0.len() as int,
            pos + e.len() as int,
        );
    }
}

/// Encoded pointer prefixes parse back.
proof fn lemma_enc_ptrs(s: Seq<u8>, pos: int, l: Seq<u128>)
    requires
        0 <= pos,
        pos + enc_ptrs(l).len() <= s.len(),
        s.subrange(pos, pos + enc_ptrs(l).len()) == enc_ptrs(l),
    ensures
        crate::parse::sp_ptr_seq(s, pos, l.len() as int) == Ok::<
            (Seq<u128>, int),
            crate::parse::WeechatErrorType,
        >((l, pos + enc_ptrs(l).len())),
    decreases l,
{
    if l.len() == 0 {
        assert(l =~= Seq::<u128>::empty());
    } else {
        let e = enc_ptrs(l);
        let e0 = enc_digits(hex_digits_of(l[0] as nat));
        assert(e == e0 + enc_ptrs(l.drop_first()));
        lemma_chunk(s, pos, e, 0, e0.len() as int);
        assert(e.subrange(0, e0.len() as int) =~= e0);
        lemma_parse_uint(s, pos, l[0], true);
        lemma_chunk(s, pos, e, e0.len() as int, e.len() as int);
        assert(e.subrange(e0.len() as int, e.len() as int) =~= enc_ptrs(l.drop_first()));
        lemma_enc_ptrs(s, pos + e0.len() as int, l.drop_first());
        assert(seq![l[0]] + l.drop_first() =~= l);
    }
}

/// Encoded record columns parse back, paired with their declared names.
#[verifier::rlimit(100)]
#[verifier::rlimit(100)]
proof fn lemma_enc_fields(
    s: Seq<u8>,
    pos: int,
    keys: Seq<(Seq<u8>, Tag)>,
    fields: Seq<(Seq<u8>, WeechatTypeView)>,
    j: int,
)
    requires
        0 <= j <= keys.len(),
        fields.len() == keys.len(),
        forall|k: int|
            j <= k < keys.len() ==> (#[trigger] fields[k]).0 == keys[k].0 && tag_of_value(
                fields[k].1,
            ) == keys[k].1 && wf_value(fields[k].1),
        0 <= pos,
        pos + enc_fields(fields.skip(j)).len() <= s.len(),
        s.subrange(pos, pos + enc_fields(fields.skip(j)).len()) == enc_fields(fields.skip(j)),
    ensures
        crate::parse::sp_fields(s, pos, keys, j) == Ok::<
            (Seq<(Seq<u8>, WeechatTypeView)>, int),
            crate::parse::WeechatErrorType,
        >((fields.skip(j), pos + enc_fields(fields.skip(j)).len())),
    decreases fields, 1int, keys.len() - j,
{
    if j >= keys.len() {
        assert(fields.skip(j) =~= Seq::<(Seq<u8>, WeechatTypeView)>::empty());
    } else {
        let fs = fields.skip(j);
        assert(fs[0] == fields[j]);
        let e = enc_fields(fs);
        let e0 = enc_value(fields[j].1);
        assert(fs.drop_first() =~= fields.skip(j + 1));
        assert(e == e0 + enc_fields(fields.skip(j + 1)));
        lemma_chunk(s, pos, e, 0, e0.len() as int);
        assert(e.subrange(0, e0.len() as int) =~= e0);
        lemma_enc_value(s, pos, fields[j].1);
        lemma_chunk(s, pos, e, e0.len() as int, e.len() as int);
        assert(e.subrange(e0.len() as int, e.len() as int) =~= enc_fields(fields.skip(j + 1)));
        lemma_enc_fields(s, pos + e0.len() as int, keys, fields, j + 1);
        assert(seq![(keys[j].0, fields[j].1)] + fields.skip(j + 1) =~= fields.skip(j));
    }
}

/// Encoded hdata records parse back.
#[verifier::rlimit(100)]
#[verifier::rlimit(100)]
proof fn lemma_enc_records(
    s: Seq<u8>,
    pos: int,
    l: Seq<HdataRecordView>,
    path_len: int,
    keys: Seq<(Seq<u8>, Tag)>,
)
    requires
        forall|i: int| 0 <= i < l.len() ==> wf_record(#[trigger] l[i], path_len, keys),
        0 <= pos,
        pos + enc_records(l).len() <= s.len(),
        s.subrange(pos, pos + enc_records(l).len()) == enc_records(l),
    ensures
        crate::parse::sp_records(s, pos, path_len, keys, l.len() as int) == Ok::<
            (Seq<HdataRecordView>, int),
            crate::parse::WeechatErrorType,
        >((l, pos + enc_records(l).len())),
    decreases l, 2int, 0int,
{
    if l.len() == 0 {
        assert(l =~= Seq::<HdataRecordView>::empty());
    } else {
        let e = enc_records(l);
        let ep = enc_ptrs(l[0].p_path);
        let ef = enc_fields(l[0].fields);
        assert(enc_record(l[0]) == ep + ef);
        assert(e == (ep + ef) + enc_records(l.drop_first()));
        lemma_chunk(s, pos, e, 0, ep.len() as int);
        assert(e.subrange(0, ep.len() as int) =~= ep);
        lemma_enc_ptrs(s, pos, l[0].p_path);
        lemma_chunk(s, pos, e, ep.len() as int, ep.len() as int + ef.len() as int);
        assert(e.subrange(ep.len() as int, ep.len() as int + ef.len() as int) =~= ef);
        assert(l[0].fields.skip(0) =~= l[0].fields);
        lemma_enc_fields(s, pos + ep.len() as int, keys, l[0].fields, 0);
        lemma_chunk(s, pos, e, ep.len() as int + ef.len() as int, e.len() as int);
        assert(e.subrange(ep.len() as int + ef.len() as int, e.len() as int) =~= enc_records(l.drop_first()));
        lemma_enc_records(s, pos + ep.len() as int + ef.len() as int, l.drop_first(), path_len, keys);
        assert(seq![HdataRecordView { p_path: l[0].p_path, fields: l[0].fields }] + l.drop_first()
            =~= l);
    }
}

/// One encoded tagged value at the front parses back.
#[verifier::rlimit(100)]
proof fn lemma_enc_body_head(s: Seq<u8>, pos: int, v: WeechatTypeView, e: Seq<u8>)
    requires
        wf_value(v),
        e == tag_bytes(tag_of_value(v)) + enc_value(v),
        0 <= pos,
        pos + e.len() <= s.len(),
        s.subrange(pos, pos + e.len()) == e,
    ensures
        crate::parse::sp_tag(s, pos) == Ok::<(Tag, int), crate::parse::WeechatErrorType>(
            (tag_of_value(v), pos + 3),
        ),
        crate::parse::sp_value(s, pos + 3, tag_of_value(v)) == Ok::<
            (WeechatTypeView, int),
            crate::parse::WeechatErrorType,
        >((v, pos + e.len())),
{
    let et = tag_bytes(tag_of_value(v));
    let ev = enc_value(v);
    lemma_cat_parts(et, ev);
    lemma_chunk(s, pos, e, 0, 3);
    lemma_parse_tag(s, pos, tag_of_value(v));
    lemma_chunk(s, pos, e, 3, e.len() as int);
    lemma_enc_value(s, pos + 3, v);
}

/// The encoded top-level values parse back, running to the end of the buffer.
#[verifier::rlimit(100)]
proof fn lemma_enc_body_values(s: Seq<u8>, pos: int, l: Seq<WeechatTypeView>)
    requires
        forall|i: int| 0 <= i < l.len() ==> wf_value(#[trigger] l[i]),
        0 <= pos,
        pos + enc_body_values(l).len() == s.len(),
        s.subrange(pos, s.len() as int) == enc_body_values(l),
    ensures
        crate::parse::sp_body_values(s, pos) == Ok::<
            (Seq<WeechatTypeView>, int),
            crate::parse::WeechatErrorType,
        >((l, s.len() as int)),
    decreases l,
{
    if l.len() == 0 {
        assert(l =~= Seq::<WeechatTypeView>::empty());
    } else {
        let e = enc_body_values(l);
        let e0 = tag_bytes(tag_of_value(l[0])) + enc_value(l[0]);
        assert(e == e0 + enc_body_values(l.drop_first()));
        assert(s.subrange(pos, pos + e.len()) == e);
        lemma_chunk(s, pos, e, 0, e0.len() as int);
        assert(e.subrange(0, e0.len() as int) =~= e0);
        lemma_enc_value_min(l[0]);
        lemma_enc_body_head(s, pos, l[0], e0);
        lemma_chunk(s, pos, e, e0.len() as int, e.len() as int);
        assert(s.subrange(pos + e0.len() as int, s.len() as int) == enc_body_values(
            l.drop_first(),
        )) by {
            assert(e.subrange(e0.len() as int, e.len() as int) =~= enc_body_values(
                l.drop_first(),
            ));
        }
        lemma_enc_body_values(s, pos + e0.len() as int, l.drop_first());
        assert(seq![l[0]] + l.drop_first() =~= l);
    }
}

/// Round trip: decoding the reference encoding of a well-formed message gives
/// back exactly that message.
pub proof fn lemma_decode_encode(m: MessageView)
    requires
        wf_message(m),
    ensures
        crate::parse::sp_body(enc_body(m)) == Ok::<MessageView, crate::parse::WeechatErrorType>(m),
{
    let s = enc_body(m);
    let e1 = enc_wstring(WeechatStringView::Str(m.id));
    assert(s.subrange(0, e1.len() as int) =~= e1);
    lemma_parse_wstring(s, 0, WeechatStringView::Str(m.id));
    assert(s.subrange(e1.len() as int, s.len() as int) =~= enc_body_values(m.data));
    lemma_enc_body_values(s, e1.len() as int, m.data);
    assert(MessageView { id: m.id, data: m.data } == m);
}

} // verus!
