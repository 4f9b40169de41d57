//! The streaming decoder for message bodies: a mathematical parser that fixes
//! the meaning of every wire construct, and the executable parser proved to
//! return exactly what the mathematical one describes.
//!
//! Parsers work over the whole byte buffer and a position; a successful step
//! returns the parsed value and the position after it. Every step is guarded
//! so that, by definition, a step never moves backwards nor past the end of
//! the buffer; the guards are dead on every reachable input, but they make
//! termination of the nested parsers a definitional fact.
use crate::be_u32;
use crate::message::{tag_of_bytes, tag_of_value, Hdata, HdataRecord, HdataRecordView, HdataView,
    Tag, MessageView, WeechatString, WeechatStringView, WeechatType, WeechatTypeView};
use crate::num::{all_dec_digits, all_hex_digits, dec_nat_of, dec_val, hex_nat_of, hex_val,
    is_dec_digit, is_hex_digit, lemma_dec_nat_push, lemma_dec_prefix_le, lemma_hex_nat_push,
    lemma_hex_prefix_le};
use vstd::prelude::*;
use vstd::utf8::valid_utf8;

verus! {

broadcast use crate::message::lemma_bytes_deep_view;

/// Decoder errors, as the wire format defines them.
#[derive(Clone, Copy, PartialEq, Eq, Structural, Debug)]
pub enum WeechatErrorType {
    /// The buffer ended before the construct did.
    ShortRead,
    /// A `str` payload, an hdata path, or a schema name was not UTF-8.
    BadUtf8,
    /// A length-prefixed integer held no digits, bad digits, or overflowed.
    BadDigits,
    /// Three bytes that name no wire type; the payload carries them.
    UnknownTypeTag(u8, u8, u8),
    /// An hdata path or schema string was the null string.
    NullHdataId,
    /// An info-list entry name was the null string.
    NullEntryName,
    /// A frame header with a compression flag other than 0 or 1.
    InvalidHeader,
}

/// Result of one parse step: the parsed item and the position after it.
pub type Parsed<T> = Result<(T, int), WeechatErrorType>;

/// Bounds guard: a parse step that moved backwards or past the end is turned
/// into a failure. No reachable step does, but the guard makes it definitional.
pub open spec fn bounded<T>(r: Parsed<T>, pos: int, s: Seq<u8>) -> Parsed<T> {
    match r {
        Ok((v, p2)) => if pos <= p2 <= s.len() {
            Ok((v, p2))
        } else {
            Err(WeechatErrorType::ShortRead)
        },
        Err(e) => Err(e),
    }
}

/// A signed byte, two's complement.
pub open spec fn i8_from_u8(b: u8) -> i8 {
    if b >= 0x80 {
        (b - 0x100) as i8
    } else {
        b as i8
    }
}

/// A signed 32-bit integer from its unsigned bit pattern.
pub open spec fn i32_from_u32(u: u32) -> i32 {
    if u >= 0x8000_0000 {
        (u - 0x1_0000_0000) as i32
    } else {
        u as i32
    }
}

/// Four bytes, big-endian.
pub open spec fn sp_u32(s: Seq<u8>, pos: int) -> Parsed<u32> {
    if 0 <= pos && pos + 4 <= s.len() {
        Ok((be_u32(s[pos], s[pos + 1], s[pos + 2], s[pos + 3]), pos + 4))
    } else {
        Err(WeechatErrorType::ShortRead)
    }
}

/// One signed byte (`chr`).
pub open spec fn sp_chr(s: Seq<u8>, pos: int) -> Parsed<i8> {
    if 0 <= pos && pos + 1 <= s.len() {
        Ok((i8_from_u8(s[pos]), pos + 1))
    } else {
        Err(WeechatErrorType::ShortRead)
    }
}

/// A length-prefixed unsigned ASCII integer (`tim`, and `ptr` when `hex`).
pub open spec fn sp_uint_digits(s: Seq<u8>, pos: int, hex: bool) -> Parsed<u128> {
    if 0 <= pos && pos + 1 <= s.len() {
        let n = s[pos] as int;
        if pos + 1 + n <= s.len() {
            let d = s.subrange(pos + 1, pos + 1 + n);
            if hex {
                if n >= 1 && all_hex_digits(d) && hex_nat_of(d) <= u128::MAX {
                    Ok(((hex_nat_of(d) as u128), pos + 1 + n))
                } else {
                    Err(WeechatErrorType::BadDigits)
                }
            } else {
                if n >= 1 && all_dec_digits(d) && dec_nat_of(d) <= u128::MAX {
                    Ok(((dec_nat_of(d) as u128), pos + 1 + n))
                } else {
                    Err(WeechatErrorType::BadDigits)
                }
            }
        } else {
            Err(WeechatErrorType::ShortRead)
        }
    } else {
        Err(WeechatErrorType::ShortRead)
    }
}

/// A length-prefixed signed decimal ASCII integer (`lon`).
pub open spec fn sp_long(s: Seq<u8>, pos: int) -> Parsed<i128> {
    if 0 <= pos && pos + 1 <= s.len() {
        let n = s[pos] as int;
        if pos + 1 + n <= s.len() {
            let d = s.subrange(pos + 1, pos + 1 + n);
            if d.len() >= 1 && d[0] == '-' as u8 {
                let m = d.skip(1);
                if m.len() >= 1 && all_dec_digits(m) && dec_nat_of(m)
                    <= 0x8000_0000_0000_0000_0000_0000_0000_0000nat {
                    Ok(((0 - dec_nat_of(m) as int) as i128, pos + 1 + n))
                } else {
                    Err(WeechatErrorType::BadDigits)
                }
            } else {
                if d.len() >= 1 && all_dec_digits(d) && dec_nat_of(d) <= i128::MAX {
                    Ok(((dec_nat_of(d) as i128), pos + 1 + n))
                } else {
                    Err(WeechatErrorType::BadDigits)
                }
            }
        } else {
            Err(WeechatErrorType::ShortRead)
        }
    } else {
        Err(WeechatErrorType::ShortRead)
    }
}

/// A tri-state string: 32-bit length, `0xFFFFFFFF` for null, else that many
/// bytes of UTF-8 text.
pub open spec fn sp_wstring(s: Seq<u8>, pos: int) -> Parsed<WeechatStringView> {
    match sp_u32(s, pos) {
        Err(e) => Err(e),
        Ok((u, p)) => if u == 0xFFFF_FFFF {
            Ok((WeechatStringView::Null, p))
        } else if p + u <= s.len() {
            let b = s.subrange(p, p + u);
            if valid_utf8(b) {
                Ok((WeechatStringView::Str(b), p + u))
            } else {
                Err(WeechatErrorType::BadUtf8)
            }
        } else {
            Err(WeechatErrorType::ShortRead)
        },
    }
}

/// A buffer: as a string, but the payload stays raw bytes.
pub open spec fn sp_buffer(s: Seq<u8>, pos: int) -> Parsed<Option<Seq<u8>>> {
    match sp_u32(s, pos) {
        Err(e) => Err(e),
        Ok((u, p)) => if u == 0xFFFF_FFFF {
            Ok((None, p))
        } else if p + u <= s.len() {
            Ok((Some(s.subrange(p, p + u)), p + u))
        } else {
            Err(WeechatErrorType::ShortRead)
        },
    }
}

/// A three-byte type tag.
pub open spec fn sp_tag(s: Seq<u8>, pos: int) -> Parsed<Tag> {
    if 0 <= pos && pos + 3 <= s.len() {
        match tag_of_bytes(s[pos], s[pos + 1], s[pos + 2]) {
            Some(t) => Ok((t, pos + 3)),
            None => Err(WeechatErrorType::UnknownTypeTag(s[pos], s[pos + 1], s[pos + 2])),
        }
    } else {
        Err(WeechatErrorType::ShortRead)
    }
}

/// Splits `s` on `sep`; always yields at least one piece, and no piece
/// contains the separator.
pub open spec fn split_bytes(s: Seq<u8>, sep: u8) -> Seq<Seq<u8>>
    decreases s.len(),
{
    if s.len() == 0 {
        seq![Seq::empty()]
    } else if s[0] == sep {
        seq![Seq::<u8>::empty()] + split_bytes(s.skip(1), sep)
    } else {
        let rest = split_bytes(s.skip(1), sep);
        seq![seq![s[0]] + rest[0]] + rest.skip(1)
    }
}

/// The placeholder bytes named by an `UnknownTypeTag` error for a schema tag
/// that is not exactly three bytes: padded with spaces.
pub open spec fn pad3(t: Seq<u8>) -> (u8, u8, u8) {
    (
        if t.len() > 0 {
            t[0]
        } else {
            ' ' as u8
        },
        if t.len() > 1 {
            t[1]
        } else {
            ' ' as u8
        },
        if t.len() > 2 {
            t[2]
        } else {
            ' ' as u8
        },
    )
}

/// One `name:tag` piece of an hdata schema string.
pub open spec fn parse_key_piece(p: Seq<u8>) -> Result<(Seq<u8>, Tag), WeechatErrorType> {
    let parts = split_bytes(p, ':' as u8);
    if parts.len() < 2 {
        Err(WeechatErrorType::UnknownTypeTag(' ' as u8, ' ' as u8, ' ' as u8))
    } else {
        let t = parts[1];
        if t.len() == 3 && tag_of_bytes(t[0], t[1], t[2]) is Some {
            Ok((parts[0], tag_of_bytes(t[0], t[1], t[2])->Some_0))
        } else {
            let (b0, b1, b2) = pad3(t);
            Err(WeechatErrorType::UnknownTypeTag(b0, b1, b2))
        }
    }
}

/// All pieces of an hdata schema string, in order.
pub open spec fn parse_key_pieces(ps: Seq<Seq<u8>>) -> Result<
    Seq<(Seq<u8>, Tag)>,
    WeechatErrorType,
>
    decreases ps.len(),
{
    if ps.len() == 0 {
        Ok(Seq::empty())
    } else {
        match parse_key_piece(ps[0]) {
            Err(e) => Err(e),
            Ok(k) => match parse_key_pieces(ps.drop_first()) {
                Err(e) => Err(e),
                Ok(rest) => Ok(seq![k] + rest),
            },
        }
    }
}

/// An hdata schema string: comma-separated `name:tag` pairs.
pub open spec fn parse_keys_text(kb: Seq<u8>) -> Result<Seq<(Seq<u8>, Tag)>, WeechatErrorType> {
    parse_key_pieces(split_bytes(kb, ',' as u8))
}

/// One value of the given tag.
pub open spec fn sp_value(s: Seq<u8>, pos: int, tag: Tag) -> Parsed<WeechatTypeView>
    decreases s.len() - pos, 0int, 0int,
{
    match tag {
        Tag::Chr => match sp_chr(s, pos) {
            Err(e) => Err(e),
            Ok((c, p)) => Ok((WeechatTypeView::Char(c), p)),
        },
        Tag::Int => match sp_u32(s, pos) {
            Err(e) => Err(e),
            Ok((u, p)) => Ok((WeechatTypeView::Int(i32_from_u32(u)), p)),
        },
        Tag::Lon => match sp_long(s, pos) {
            Err(e) => Err(e),
            Ok((l, p)) => Ok((WeechatTypeView::Long(l), p)),
        },
        Tag::Str => match sp_wstring(s, pos) {
            Err(e) => Err(e),
            Ok((w, p)) => Ok((WeechatTypeView::Str(w), p)),
        },
        Tag::Buf => match sp_buffer(s, pos) {
            Err(e) => Err(e),
            Ok((b, p)) => Ok((WeechatTypeView::Buffer(b), p)),
        },
        Tag::Ptr => match sp_uint_digits(s, pos, true) {
            Err(e) => Err(e),
            Ok((u, p)) => Ok((WeechatTypeView::Pointer(u), p)),
        },
        Tag::Tim => match sp_uint_digits(s, pos, false) {
            Err(e) => Err(e),
            Ok((u, p)) => Ok((WeechatTypeView::Time(u), p)),
        },
        Tag::Htb => match sp_tag(s, pos) {
            Err(e) => Err(e),
            Ok((kt, _)) => match sp_tag(s, pos + 3) {
                Err(e) => Err(e),
                Ok((vt, _)) => match sp_u32(s, pos + 6) {
                    Err(e) => Err(e),
                    Ok((cnt, _)) => match sp_pair_seq(s, pos + 10, kt, vt, cnt as int) {
                        Err(e) => Err(e),
                        Ok((pairs, p)) => Ok((WeechatTypeView::HashTable(kt, vt, pairs), p)),
                    },
                },
            },
        },
        Tag::Hda => match bounded(sp_wstring(s, pos), pos, s) {
            Err(e) => Err(e),
            Ok((WeechatStringView::Null, _)) => Err(WeechatErrorType::NullHdataId),
            Ok((WeechatStringView::Str(pb), p1)) => {
                let h_path = split_bytes(pb, '/' as u8);
                match bounded(sp_wstring(s, p1), p1, s) {
                    Err(e) => Err(e),
                    Ok((WeechatStringView::Null, _)) => Err(WeechatErrorType::NullHdataId),
                    Ok((WeechatStringView::Str(kb), p2)) => match parse_keys_text(kb) {
                        Err(e) => Err(e),
                        Ok(keys) => match sp_u32(s, p2) {
                            Err(e) => Err(e),
                            Ok((cnt, p3)) => match sp_records(
                                s,
                                p3,
                                h_path.len() as int,
                                keys,
                                cnt as int,
                            ) {
                                Err(e) => Err(e),
                                Ok((records, p4)) => Ok(
                                    (
                                        WeechatTypeView::Hdata(
                                            HdataView { h_path, keys, records },
                                        ),
                                        p4,
                                    ),
                                ),
                            },
                        },
                    },
                }
            },
        },
        Tag::Inf => match bounded(sp_wstring(s, pos), pos, s) {
            Err(e) => Err(e),
            Ok((n, p1)) => match sp_wstring(s, p1) {
                Err(e) => Err(e),
                Ok((v, p2)) => Ok((WeechatTypeView::Info(n, v), p2)),
            },
        },
        Tag::Inl => match bounded(sp_wstring(s, pos), pos, s) {
            Err(e) => Err(e),
            Ok((n, p1)) => match sp_u32(s, p1) {
                Err(e) => Err(e),
                Ok((cnt, p2)) => match sp_inl_entries(s, p2, cnt as int) {
                    Err(e) => Err(e),
                    Ok((items, p3)) => Ok((WeechatTypeView::InfoList(n, items), p3)),
                },
            },
        },
        Tag::Arr => match sp_tag(s, pos) {
            Err(e) => Err(e),
            Ok((t, _)) => match sp_u32(s, pos + 3) {
                Err(e) => Err(e),
                Ok((cnt, _)) => match sp_value_seq(s, pos + 7, t, cnt as int) {
                    Err(e) => Err(e),
                    Ok((elems, p)) => Ok((WeechatTypeView::Array(t, elems), p)),
                },
            },
        },
    }
}

/// `n` values of one tag, in order (array elements).
pub open spec fn sp_value_seq(s: Seq<u8>, pos: int, tag: Tag, n: int) -> Parsed<
    Seq<WeechatTypeView>,
>
    decreases s.len() - pos, n + 1, 0int,
{
    if n <= 0 {
        Ok((Seq::empty(), pos))
    } else {
        match bounded(sp_value(s, pos, tag), pos, s) {
            Err(e) => Err(e),
            Ok((v, p2)) => match sp_value_seq(s, p2, tag, n - 1) {
                Err(e) => Err(e),
                Ok((rest, p3)) => Ok((seq![v] + rest, p3)),
            },
        }
    }
}

/// `n` key/value pairs of the declared tags, in wire order (hash tables).
pub open spec fn sp_pair_seq(s: Seq<u8>, pos: int, kt: Tag, vt: Tag, n: int) -> Parsed<
    Seq<(WeechatTypeView, WeechatTypeView)>,
>
    decreases s.len() - pos, n + 1, 0int,
{
    if n <= 0 {
        Ok((Seq::empty(), pos))
    } else {
        match bounded(sp_value(s, pos, kt), pos, s) {
            Err(e) => Err(e),
            Ok((k, p2)) => match bounded(sp_value(s, p2, vt), p2, s) {
                Err(e) => Err(e),
                Ok((v, p3)) => match sp_pair_seq(s, p3, kt, vt, n - 1) {
                    Err(e) => Err(e),
                    Ok((rest, p4)) => Ok((seq![(k, v)] + rest, p4)),
                },
            },
        }
    }
}

/// `n` info-list entries: a non-null name, a tag, a value of that tag.
pub open spec fn sp_inl_entries(s: Seq<u8>, pos: int, n: int) -> Parsed<
    Seq<(Seq<u8>, WeechatTypeView)>,
>
    decreases s.len() - pos, n + 1, 0int,
{
    if n <= 0 {
        Ok((Seq::empty(), pos))
    } else {
        match bounded(sp_wstring(s, pos), pos, s) {
            Err(e) => Err(e),
            Ok((WeechatStringView::Null, _)) => Err(WeechatErrorType::NullEntryName),
            Ok((WeechatStringView::Str(nm), p1)) => match sp_tag(s, p1) {
                Err(e) => Err(e),
                Ok((t, p2)) => match bounded(sp_value(s, p2, t), p2, s) {
                    Err(e) => Err(e),
                    Ok((v, p3)) => match sp_inl_entries(s, p3, n - 1) {
                        Err(e) => Err(e),
                        Ok((rest, p4)) => Ok((seq![(nm, v)] + rest, p4)),
                    },
                },
            },
        }
    }
}

/// `n` pointers (a record's pointer prefix).
pub open spec fn sp_ptr_seq(s: Seq<u8>, pos: int, n: int) -> Parsed<Seq<u128>>
    decreases s.len() - pos, 0int, n,
{
    if n <= 0 {
        Ok((Seq::empty(), pos))
    } else {
        match bounded(sp_uint_digits(s, pos, true), pos, s) {
            Err(e) => Err(e),
            Ok((v, p2)) => match sp_ptr_seq(s, p2, n - 1) {
                Err(e) => Err(e),
                Ok((rest, p3)) => Ok((seq![v] + rest, p3)),
            },
        }
    }
}

/// One value per schema column, from column `j` on, paired with the declared
/// names in declared order.
pub open spec fn sp_fields(s: Seq<u8>, pos: int, keys: Seq<(Seq<u8>, Tag)>, j: int) -> Parsed<
    Seq<(Seq<u8>, WeechatTypeView)>,
>
    decreases s.len() - pos, 0int, keys.len() - j,
{
    if j < 0 || j >= keys.len() {
        Ok((Seq::empty(), pos))
    } else {
        match bounded(sp_value(s, pos, keys[j].1), pos, s) {
            Err(e) => Err(e),
            Ok((v, p2)) => match sp_fields(s, p2, keys, j + 1) {
                Err(e) => Err(e),
                Ok((rest, p3)) => Ok((seq![(keys[j].0, v)] + rest, p3)),
            },
        }
    }
}

/// `n` hdata records: a pointer prefix of the path's length, then one value
/// per schema column.
pub open spec fn sp_records(
    s: Seq<u8>,
    pos: int,
    path_len: int,
    keys: Seq<(Seq<u8>, Tag)>,
    n: int,
) -> Parsed<Seq<HdataRecordView>>
    decreases s.len() - pos, n + 1, 2int,
{
    if n <= 0 {
        Ok((Seq::empty(), pos))
    } else {
        match bounded(sp_ptr_seq(s, pos, path_len), pos, s) {
            Err(e) => Err(e),
            Ok((pp, p2)) => match bounded(sp_fields(s, p2, keys, 0), p2, s) {
                Err(e) => Err(e),
                Ok((fields, p3)) => match sp_records(s, p3, path_len, keys, n - 1) {
                    Err(e) => Err(e),
                    Ok((rest, p4)) => Ok(
                        (seq![HdataRecordView { p_path: pp, fields }] + rest, p4),
                    ),
                },
            },
        }
    }
}

/// The top-level values of a message body: tagged values until fewer than
/// three bytes remain (the buffer may end between values, not inside one).
pub open spec fn sp_body_values(s: Seq<u8>, pos: int) -> Parsed<Seq<WeechatTypeView>>
    decreases s.len() - pos, 0int, 1int,
{
    if pos < 0 || pos + 3 > s.len() {
        Ok((Seq::empty(), if 0 <= pos <= s.len() {
            pos
        } else {
            s.len() as int
        }))
    } else {
        match sp_tag(s, pos) {
            Err(e) => Err(e),
            Ok((t, p2)) => match bounded(sp_value(s, p2, t), p2, s) {
                Err(e) => Err(e),
                Ok((v, p3)) => match sp_body_values(s, p3) {
                    Err(e) => Err(e),
                    Ok((rest, p4)) => Ok((seq![v] + rest, p4)),
                },
            },
        }
    }
}

/// A whole message body: the id string (null normalized to empty), then the
/// top-level values.
pub open spec fn sp_body(s: Seq<u8>) -> Result<MessageView, WeechatErrorType> {
    match bounded(sp_wstring(s, 0), 0, s) {
        Err(e) => Err(e),
        Ok((ws, p)) => {
            let id = match ws {
                WeechatStringView::Null => Seq::empty(),
                WeechatStringView::Str(b) => b,
            };
            match sp_body_values(s, p) {
                Err(e) => Err(e),
                Ok((vals, _)) => Ok(MessageView { id, data: vals }),
            }
        },
    }
}

/// An executable parse step agrees with a mathematical one.
pub open spec fn parse_matches<T: DeepView>(
    r: Result<(T, usize), WeechatErrorType>,
    sr: Parsed<T::V>,
) -> bool {
    match r {
        Ok((v, p)) => sr == Ok::<(T::V, int), WeechatErrorType>((v.deep_view(), p as int)),
        Err(e) => sr == Err::<(T::V, int), WeechatErrorType>(e),
    }
}

/// Relies on core::str::from_utf8: it accepts exactly the valid UTF-8 byte
/// strings, and `vstd::utf8::valid_utf8` is vstd's own statement of that set.
#[verifier::external_body]
fn utf8_check(bytes: &[u8], lo: usize, hi: usize) -> (r: bool)
    requires
        lo <= hi <= bytes@.len(),
    ensures
        r == valid_utf8(bytes@.subrange(lo as int, hi as int)),
{
    core::str::from_utf8(&bytes[lo..hi]).is_ok()
}

/// Copies the bytes in `[lo, hi)` out of the buffer.
pub fn copy_range(bytes: &[u8], lo: usize, hi: usize) -> (r: Vec<u8>)
    requires
        lo <= hi <= bytes@.len(),
    ensures
        r@ == bytes@.subrange(lo as int, hi as int),
{
    let mut out: Vec<u8> = Vec::new();
    let mut i: usize = lo;
    while i < hi
        invariant
            lo <= i <= hi <= bytes@.len(),
            out@ == bytes@.subrange(lo as int, i as int),
        decreases hi - i,
    {
        out.push(bytes[i]);
        proof {
            assert(out@ =~= bytes@.subrange(lo as int, i + 1));
        }
        i = i + 1;
    }
    out
}

/// Parses four big-endian bytes.
pub fn parse_u32(bytes: &[u8], pos: usize) -> (r: Result<(u32, usize), WeechatErrorType>)
    ensures
        parse_matches(r, sp_u32(bytes@, pos as int)),
        r matches Ok((_, p2)) ==> pos < p2 <= bytes@.len(),
{
    if bytes.len() >= 4 && pos <= bytes.len() - 4 {
        Ok((crate::read_be_u32(bytes, pos), pos + 4))
    } else {
        Err(WeechatErrorType::ShortRead)
    }
}

/// Parses one signed byte.
fn parse_chr(bytes: &[u8], pos: usize) -> (r: Result<(i8, usize), WeechatErrorType>)
    ensures
        parse_matches(r, sp_chr(bytes@, pos as int)),
        r matches Ok((_, p2)) ==> pos < p2 <= bytes@.len(),
{
    if pos < bytes.len() {
        let b = bytes[pos];
        let c: i8 = if b >= 0x80 {
            ((b as i16) - 0x100) as i8
        } else {
            b as i8
        };
        Ok((c, pos + 1))
    } else {
        Err(WeechatErrorType::ShortRead)
    }
}

/// The value of a decimal digit byte, or `None` off the digit range.
fn dec_digit(b: u8) -> (r: Option<u8>)
    ensures
        r matches Some(v) ==> is_dec_digit(b) && v == dec_val(b),
        r is None ==> !is_dec_digit(b),
{
    if b >= 48 && b <= 57 {
        Some(b - 48)
    } else {
        None
    }
}

/// The value of a hexadecimal digit byte, or `None` off the digit range.
fn hex_digit(b: u8) -> (r: Option<u8>)
    ensures
        r matches Some(v) ==> is_hex_digit(b) && v == hex_val(b),
        r is None ==> !is_hex_digit(b),
{
    if b >= 48 && b <= 57 {
        Some(b - 48)
    } else if b >= 97 && b <= 102 {
        Some(b - 97 + 10)
    } else if b >= 65 && b <= 70 {
        Some(b - 65 + 10)
    } else {
        None
    }
}

/// Accumulates the digits in `[lo, hi)` as one unsigned number; `None` when a
/// byte is no digit or the value exceeds `u128`.
fn scan_digits(bytes: &[u8], lo: usize, hi: usize, hex: bool) -> (r: Option<u128>)
    requires
        lo <= hi <= bytes@.len(),
    ensures
        ({
            let d = bytes@.subrange(lo as int, hi as int);
            match r {
                Some(v) => if hex {
                    all_hex_digits(d) && hex_nat_of(d) == v
                } else {
                    all_dec_digits(d) && dec_nat_of(d) == v
                },
                None => if hex {
                    !(all_hex_digits(d) && hex_nat_of(d) <= u128::MAX)
                } else {
                    !(all_dec_digits(d) && dec_nat_of(d) <= u128::MAX)
                },
            }
        }),
{
    let ghost d = bytes@.subrange(lo as int, hi as int);
    let base: u128 = if hex {
        16
    } else {
        10
    };
    let mut acc: u128 = 0;
    let mut i: usize = lo;
    while i < hi
        invariant
            lo <= i <= hi <= bytes@.len(),
            d == bytes@.subrange(lo as int, hi as int),
            base == (if hex {
                16u128
            } else {
                10u128
            }),
            if hex {
                all_hex_digits(d.take(i - lo)) && acc == hex_nat_of(d.take(i - lo))
            } else {
                all_dec_digits(d.take(i - lo)) && acc == dec_nat_of(d.take(i - lo))
            },
        decreases hi - i,
    {
        let b = bytes[i];
        proof {
            assert(d[i - lo] == b);
            assert(d.take(i + 1 - lo) =~= d.take(i - lo).push(b));
        }
        let dv = if hex {
            hex_digit(b)
        } else {
            dec_digit(b)
        };
        match dv {
            None => {
                return None;
            },
            Some(v) => {
                proof {
                    if hex {
                        lemma_hex_nat_push(d.take(i - lo), b);
                        lemma_hex_prefix_le(d, i + 1 - lo);
                    } else {
                        lemma_dec_nat_push(d.take(i - lo), b);
                        lemma_dec_prefix_le(d, i + 1 - lo);
                    }
                }
                match acc.checked_mul(base) {
                    None => {
                        return None;
                    },
                    Some(x) => match x.checked_add(v as u128) {
                        None => {
                            return None;
                        },
                        Some(y) => {
                            acc = y;
                        },
                    },
                }
            },
        }
        i = i + 1;
    }
    proof {
        assert(d.take(hi - lo) =~= d);
    }
    Some(acc)
}

/// Parses a length-prefixed unsigned ASCII integer.
fn parse_uint_digits(bytes: &[u8], pos: usize, hex: bool) -> (r: Result<
    (u128, usize),
    WeechatErrorType,
>)
    ensures
        parse_matches(r, sp_uint_digits(bytes@, pos as int, hex)),
        r matches Ok((_, p2)) ==> pos < p2 <= bytes@.len(),
{
    if pos >= bytes.len() {
        return Err(WeechatErrorType::ShortRead);
    }
    let n = bytes[pos] as usize;
    if n > bytes.len() - pos - 1 {
        return Err(WeechatErrorType::ShortRead);
    }
    if n == 0 {
        return Err(WeechatErrorType::BadDigits);
    }
    match scan_digits(bytes, pos + 1, pos + 1 + n, hex) {
        Some(v) => Ok((v, pos + 1 + n)),
        None => Err(WeechatErrorType::BadDigits),
    }
}

/// Parses a length-prefixed signed decimal ASCII integer.
fn parse_long(bytes: &[u8], pos: usize) -> (r: Result<(i128, usize), WeechatErrorType>)
    ensures
        parse_matches(r, sp_long(bytes@, pos as int)),
        r matches Ok((_, p2)) ==> pos < p2 <= bytes@.len(),
{
    if pos >= bytes.len() {
        return Err(WeechatErrorType::ShortRead);
    }
    let n = bytes[pos] as usize;
    if n > bytes.len() - pos - 1 {
        return Err(WeechatErrorType::ShortRead);
    }
    let ghost d = bytes@.subrange(pos + 1, pos + 1 + n);
    if n == 0 {
        return Err(WeechatErrorType::BadDigits);
    }
    if bytes[pos + 1] == 45 {
        // a leading minus sign
        proof {
            assert(d[0] == bytes@[pos + 1]);
            assert(d.skip(1) =~= bytes@.subrange(pos + 2, pos + 1 + n));
        }
        if n == 1 {
            return Err(WeechatErrorType::BadDigits);
        }
        match scan_digits(bytes, pos + 2, pos + 1 + n, false) {
            Some(v) => {
                if v <= 0x8000_0000_0000_0000_0000_0000_0000_0000u128 {
                    let l: i128 = if v == 0x8000_0000_0000_0000_0000_0000_0000_0000u128 {
                        i128::MIN
                    } else {
                        -(v as i128)
                    };
                    Ok((l, pos + 1 + n))
                } else {
                    Err(WeechatErrorType::BadDigits)
                }
            },
            None => Err(WeechatErrorType::BadDigits),
        }
    } else {
        proof {
            assert(d[0] == bytes@[pos + 1]);
        }
        match scan_digits(bytes, pos + 1, pos + 1 + n, false) {
            Some(v) => {
                if v <= i128::MAX as u128 {
                    Ok((v as i128, pos + 1 + n))
                } else {
                    Err(WeechatErrorType::BadDigits)
                }
            },
            None => Err(WeechatErrorType::BadDigits),
        }
    }
}

/// Parses a tri-state string.
pub fn parse_wstring(bytes: &[u8], pos: usize) -> (r: Result<
    (WeechatString, usize),
    WeechatErrorType,
>)
    ensures
        parse_matches(r, sp_wstring(bytes@, pos as int)),
        r matches Ok((_, p2)) ==> pos < p2 <= bytes@.len(),
{
    match parse_u32(bytes, pos) {
        Err(e) => Err(e),
        Ok((u, p)) => {
            if u == 0xFFFF_FFFF {
                Ok((WeechatString::Null, p))
            } else {
                let ulen = u as usize;
                if ulen > bytes.len() - p {
                    Err(WeechatErrorType::ShortRead)
                } else {
                    if utf8_check(bytes, p, p + ulen) {
                        Ok((WeechatString::Str(copy_range(bytes, p, p + ulen)), p + ulen))
                    } else {
                        Err(WeechatErrorType::BadUtf8)
                    }
                }
            }
        },
    }
}

/// Parses a buffer.
fn parse_buffer(bytes: &[u8], pos: usize) -> (r: Result<
    (Option<Vec<u8>>, usize),
    WeechatErrorType,
>)
    ensures
        parse_matches(r, sp_buffer(bytes@, pos as int)),
        r matches Ok((_, p2)) ==> pos < p2 <= bytes@.len(),
{
    match parse_u32(bytes, pos) {
        Err(e) => Err(e),
        Ok((u, p)) => {
            if u == 0xFFFF_FFFF {
                Ok((None, p))
            } else {
                let ulen = u as usize;
                if ulen > bytes.len() - p {
                    Err(WeechatErrorType::ShortRead)
                } else {
                    let b = copy_range(bytes, p, p + ulen);
                    proof {
                        assert(b.deep_view() =~= b@);
                    }
                    Ok((Some(b), p + ulen))
                }
            }
        },
    }
}

/// Parses a three-byte type tag.
fn parse_tag_at(bytes: &[u8], pos: usize) -> (r: Result<(Tag, usize), WeechatErrorType>)
    ensures
        parse_matches(r, sp_tag(bytes@, pos as int)),
        r matches Ok((_, p2)) ==> pos < p2 <= bytes@.len(),
{
    if bytes.len() >= 3 && pos <= bytes.len() - 3 {
        match crate::message::read_tag(bytes, pos) {
            Some(t) => Ok((t, pos + 3)),
            None => Err(
                WeechatErrorType::UnknownTypeTag(bytes[pos], bytes[pos + 1], bytes[pos + 2]),
            ),
        }
    } else {
        Err(WeechatErrorType::ShortRead)
    }
}

/// Splits the bytes of `b` from `from` on, on the separator.
fn split_vec(b: &[u8], from: usize, sep: u8) -> (r: Vec<Vec<u8>>)
    requires
        from <= b@.len(),
    ensures
        r.deep_view() == split_bytes(b@.skip(from as int), sep),
    decreases b@.len() - from,
{
    let ghost s = b@.skip(from as int);
    if from >= b.len() {
        let mut out: Vec<Vec<u8>> = Vec::new();
        out.push(Vec::new());
        proof {
            assert(s.len() == 0);
            assert(out.deep_view() =~~= split_bytes(s, sep));
        }
        out
    } else {
        proof {
            assert(s[0] == b@[from as int]);
            assert(s.skip(1) =~= b@.skip(from + 1));
        }
        if b[from] == sep {
            let mut rest = split_vec(b, from + 1, sep);
            let ghost rd = rest.deep_view();
            rest.insert(0, Vec::new());
            proof {
                assert(rest.deep_view() =~~= seq![Seq::<u8>::empty()] + rd);
            }
            rest
        } else {
            let mut rest = split_vec(b, from + 1, sep);
            let ghost rd = rest.deep_view();
            proof {
                assert(rd.len() >= 1) by {
                    lemma_split_nonempty(b@.skip(from + 1), sep);
                }
            }
            let mut first = rest.remove(0);
            let ghost f0 = first@;
            first.insert(0, b[from]);
            proof {
                assert(first@ =~= seq![b@[from as int]] + f0);
            }
            let ghost rd1 = rest.deep_view();
            rest.insert(0, first);
            proof {
                assert(rd1 =~~= rd.drop_first());
                assert(rest.deep_view() =~~= seq![first@] + rd.skip(1));
                assert(rest.deep_view() =~~= split_bytes(s, sep));
            }
            rest
        }
    }
}

/// A split always has at least one piece.
pub proof fn lemma_split_nonempty(s: Seq<u8>, sep: u8)
    ensures
        split_bytes(s, sep).len() >= 1,
    decreases s.len(),
{
    if s.len() != 0 && s[0] != sep {
        lemma_split_nonempty(s.skip(1), sep);
    }
}

/// Parses one `name:tag` schema piece.
fn parse_key_piece_exec(p: &Vec<u8>) -> (r: Result<(Vec<u8>, Tag), WeechatErrorType>)
    ensures
        match r {
            Ok((nm, t)) => parse_key_piece(p@) == Ok::<(Seq<u8>, Tag), WeechatErrorType>((nm@, t)),
            Err(e) => parse_key_piece(p@) == Err::<(Seq<u8>, Tag), WeechatErrorType>(e),
        },
{
    let parts = split_vec(p.as_slice(), 0, 58);
    proof {
        assert(p@.skip(0) =~= p@);
    }
    if parts.len() < 2 {
        return Err(WeechatErrorType::UnknownTypeTag(32, 32, 32));
    }
    let t = &parts[1];
    proof {
        assert(t@ == parts.deep_view()[1]);
    }
    if t.len() == 3 {
        match crate::message::read_tag(t.as_slice(), 0) {
            Some(tag) => {
                let nm = crate::message::copy_bytes(&parts[0]);
                proof {
                    assert(nm@ == parts.deep_view()[0]);
                }
                return Ok((nm, tag));
            },
            None => {
                return Err(WeechatErrorType::UnknownTypeTag(t[0], t[1], t[2]));
            },
        }
    }
    let b0: u8 = if t.len() > 0 {
        t[0]
    } else {
        32
    };
    let b1: u8 = if t.len() > 1 {
        t[1]
    } else {
        32
    };
    let b2: u8 = if t.len() > 2 {
        t[2]
    } else {
        32
    };
    Err(WeechatErrorType::UnknownTypeTag(b0, b1, b2))
}

/// Parses the schema pieces from index `j` on.
fn parse_key_pieces_exec(pieces: &Vec<Vec<u8>>, j: usize) -> (r: Result<
    Vec<(Vec<u8>, Tag)>,
    WeechatErrorType,
>)
    requires
        j <= pieces@.len(),
    ensures
        match r {
            Ok(ks) => parse_key_pieces(pieces.deep_view().skip(j as int)) == Ok::<
                Seq<(Seq<u8>, Tag)>,
                WeechatErrorType,
            >(ks.deep_view()),
            Err(e) => parse_key_pieces(pieces.deep_view().skip(j as int)) == Err::<
                Seq<(Seq<u8>, Tag)>,
                WeechatErrorType,
            >(e),
        },
    decreases pieces@.len() - j,
{
    let ghost ps = pieces.deep_view().skip(j as int);
    if j >= pieces.len() {
        let out: Vec<(Vec<u8>, Tag)> = Vec::new();
        proof {
            assert(out.deep_view() =~~= parse_key_pieces(ps)->Ok_0);
        }
        Ok(out)
    } else {
        proof {
            assert(ps[0] == pieces.deep_view()[j as int]);
            assert(ps.drop_first() =~~= pieces.deep_view().skip(j + 1));
        }
        match parse_key_piece_exec(&pieces[j]) {
            Err(e) => Err(e),
            Ok((nm, t)) => match parse_key_pieces_exec(pieces, j + 1) {
                Err(e) => Err(e),
                Ok(mut rest) => {
                    let ghost rd = rest.deep_view();
                    rest.insert(0, (nm, t));
                    proof {
                        assert(rest.deep_view() =~~= seq![(nm@, t)] + rd);
                    }
                    Ok(rest)
                },
            },
        }
    }
}

/// Parses an hdata schema string into its named, tagged columns.
fn parse_keys_exec(kb: &Vec<u8>) -> (r: Result<Vec<(Vec<u8>, Tag)>, WeechatErrorType>)
    ensures
        match r {
            Ok(ks) => parse_keys_text(kb@) == Ok::<Seq<(Seq<u8>, Tag)>, WeechatErrorType>(
                ks.deep_view(),
            ),
            Err(e) => parse_keys_text(kb@) == Err::<Seq<(Seq<u8>, Tag)>, WeechatErrorType>(e),
        },
{
    let pieces = split_vec(kb.as_slice(), 0, 44);
    proof {
        assert(kb@.skip(0) =~= kb@);
        assert(pieces.deep_view().skip(0) =~~= pieces.deep_view());
    }
    parse_key_pieces_exec(&pieces, 0)
}

/// Parses one value of the given tag.
#[verifier::rlimit(60)]
pub fn parse_value(bytes: &[u8], pos: usize, tag: Tag) -> (r: Result<
    (WeechatType, usize),
    WeechatErrorType,
>)
    requires
        pos <= bytes@.len(),
    ensures
        parse_matches(r, sp_value(bytes@, pos as int, tag)),
        r matches Ok((_, p2)) ==> pos <= p2 <= bytes@.len(),
    decreases bytes@.len() - pos, 0int, 0int,
{
    match tag {
        Tag::Chr => match parse_chr(bytes, pos) {
            Err(e) => Err(e),
            Ok((c, p)) => Ok((WeechatType::Char(c), p)),
        },
        Tag::Int => match parse_u32(bytes, pos) {
            Err(e) => Err(e),
            Ok((u, p)) => {
                let v: i32 = if u >= 0x8000_0000 {
                    ((u as i64) - 0x1_0000_0000i64) as i32
                } else {
                    u as i32
                };
                Ok((WeechatType::Int(v), p))
            },
        },
        Tag::Lon => match parse_long(bytes, pos) {
            Err(e) => Err(e),
            Ok((l, p)) => Ok((WeechatType::Long(l), p)),
        },
        Tag::Str => match parse_wstring(bytes, pos) {
            Err(e) => Err(e),
            Ok((w, p)) => Ok((WeechatType::Str(w), p)),
        },
        Tag::Buf => match parse_buffer(bytes, pos) {
            Err(e) => Err(e),
            Ok((b, p)) => Ok((WeechatType::Buffer(b), p)),
        },
        Tag::Ptr => match parse_uint_digits(bytes, pos, true) {
            Err(e) => Err(e),
            Ok((u, p)) => Ok((WeechatType::Pointer(u), p)),
        },
        Tag::Tim => match parse_uint_digits(bytes, pos, false) {
            Err(e) => Err(e),
            Ok((u, p)) => Ok((WeechatType::Time(u), p)),
        },
        Tag::Htb => match parse_tag_at(bytes, pos) {
            Err(e) => Err(e),
            Ok((kt, p1)) => match parse_tag_at(bytes, p1) {
                Err(e) => Err(e),
                Ok((vt, p2)) => match parse_u32(bytes, p2) {
                    Err(e) => Err(e),
                    Ok((cnt, p3)) => match parse_pair_seq(bytes, p3, kt, vt, cnt as usize) {
                        Err(e) => Err(e),
                        Ok((pairs, p4)) => {
                            proof {
                                crate::message::lemma_view_hashtable(kt, vt, pairs);
                            }
                            Ok((WeechatType::HashTable(kt, vt, pairs), p4))
                        },
                    },
                },
            },
        },
        Tag::Hda => match parse_wstring(bytes, pos) {
            Err(e) => Err(e),
            Ok((WeechatString::Null, _)) => Err(WeechatErrorType::NullHdataId),
            Ok((WeechatString::Str(pb), p1)) => {
                let h_path = split_vec(pb.as_slice(), 0, 47);
                proof {
                    assert(pb@.skip(0) =~= pb@);
                }
                match parse_wstring(bytes, p1) {
                    Err(e) => Err(e),
                    Ok((WeechatString::Null, _)) => Err(WeechatErrorType::NullHdataId),
                    Ok((WeechatString::Str(kb), p2)) => match parse_keys_exec(&kb) {
                        Err(e) => Err(e),
                        Ok(keys) => match parse_u32(bytes, p2) {
                            Err(e) => Err(e),
                            Ok((cnt, p3)) => match parse_records(
                                bytes,
                                p3,
                                h_path.len(),
                                &keys,
                                cnt as usize,
                            ) {
                                Err(e) => Err(e),
                                Ok((records, p4)) => {
                                    let h = Hdata { h_path, keys, values: records };
                                    proof {
                                        crate::message::lemma_view_hdata(&h);
                                    }
                                    Ok((WeechatType::Hdata(h), p4))
                                },
                            },
                        },
                    },
                }
            },
        },
        Tag::Inf => match parse_wstring(bytes, pos) {
            Err(e) => Err(e),
            Ok((n, p1)) => match parse_wstring(bytes, p1) {
                Err(e) => Err(e),
                Ok((v, p2)) => Ok((WeechatType::Info(n, v), p2)),
            },
        },
        Tag::Inl => match parse_wstring(bytes, pos) {
            Err(e) => Err(e),
            Ok((n, p1)) => match parse_u32(bytes, p1) {
                Err(e) => Err(e),
                Ok((cnt, p2)) => match parse_inl_entries(bytes, p2, cnt as usize) {
                    Err(e) => Err(e),
                    Ok((items, p3)) => {
                        proof {
                            crate::message::lemma_view_infolist(n, items);
                        }
                        Ok((WeechatType::InfoList(n, items), p3))
                    },
                },
            },
        },
        Tag::Arr => match parse_tag_at(bytes, pos) {
            Err(e) => Err(e),
            Ok((t, p1)) => match parse_u32(bytes, p1) {
                Err(e) => Err(e),
                Ok((cnt, p2)) => match parse_value_seq(bytes, p2, t, cnt as usize) {
                    Err(e) => Err(e),
                    Ok((elems, p3)) => {
                        proof {
                            crate::message::lemma_view_array(t, elems);
                        }
                        Ok((WeechatType::Array(t, elems), p3))
                    },
                },
            },
        },
    }
}

/// Parses `n` values of one tag.
fn parse_value_seq(bytes: &[u8], pos: usize, tag: Tag, n: usize) -> (r: Result<
    (Vec<WeechatType>, usize),
    WeechatErrorType,
>)
    requires
        pos <= bytes@.len(),
    ensures
        parse_matches(r, sp_value_seq(bytes@, pos as int, tag, n as int)),
        r matches Ok((_, p2)) ==> pos <= p2 <= bytes@.len(),
    decreases bytes@.len() - pos, n + 1, 0int,
{
    if n == 0 {
        let out: Vec<WeechatType> = Vec::new();
        proof {
            assert(out.deep_view() =~= Seq::<WeechatTypeView>::empty());
        }
        Ok((out, pos))
    } else {
        match parse_value(bytes, pos, tag) {
            Err(e) => Err(e),
            Ok((v, p2)) => match parse_value_seq(bytes, p2, tag, n - 1) {
                Err(e) => Err(e),
                Ok((mut rest, p3)) => {
                    let ghost rd = rest.deep_view();
                    rest.insert(0, v);
                    proof {
                        assert(rest.deep_view() =~= seq![v.deep_view()] + rd);
                    }
                    Ok((rest, p3))
                },
            },
        }
    }
}

/// Parses `n` key/value pairs of the declared tags.
#[verifier::rlimit(60)]
fn parse_pair_seq(bytes: &[u8], pos: usize, kt: Tag, vt: Tag, n: usize) -> (r: Result<
    (Vec<(WeechatType, WeechatType)>, usize),
    WeechatErrorType,
>)
    requires
        pos <= bytes@.len(),
    ensures
        parse_matches(r, sp_pair_seq(bytes@, pos as int, kt, vt, n as int)),
        r matches Ok((_, p2)) ==> pos <= p2 <= bytes@.len(),
    decreases bytes@.len() - pos, n + 1, 0int,
{
    if n == 0 {
        let out: Vec<(WeechatType, WeechatType)> = Vec::new();
        proof {
            assert(out.deep_view() =~= Seq::<(WeechatTypeView, WeechatTypeView)>::empty());
        }
        Ok((out, pos))
    } else {
        match parse_value(bytes, pos, kt) {
            Err(e) => Err(e),
            Ok((k, p2)) => match parse_value(bytes, p2, vt) {
                Err(e) => Err(e),
                Ok((v, p3)) => match parse_pair_seq(bytes, p3, kt, vt, n - 1) {
                    Err(e) => Err(e),
                    Ok((mut rest, p4)) => {
                        let ghost rd = rest.deep_view();
                        rest.insert(0, (k, v));
                        proof {
                            assert(rest.deep_view() =~= seq![(k.deep_view(), v.deep_view())] + rd);
                        }
                        Ok((rest, p4))
                    },
                },
            },
        }
    }
}

/// Parses `n` info-list entries.
fn parse_inl_entries(bytes: &[u8], pos: usize, n: usize) -> (r: Result<
    (Vec<(Vec<u8>, WeechatType)>, usize),
    WeechatErrorType,
>)
    requires
        pos <= bytes@.len(),
    ensures
        parse_matches(r, sp_inl_entries(bytes@, pos as int, n as int)),
        r matches Ok((_, p2)) ==> pos <= p2 <= bytes@.len(),
    decreases bytes@.len() - pos, n + 1, 0int,
{
    if n == 0 {
        let out: Vec<(Vec<u8>, WeechatType)> = Vec::new();
        proof {
            assert(out.deep_view() =~= Seq::<(Seq<u8>, WeechatTypeView)>::empty());
        }
        Ok((out, pos))
    } else {
        match parse_wstring(bytes, pos) {
            Err(e) => Err(e),
            Ok((WeechatString::Null, _)) => Err(WeechatErrorType::NullEntryName),
            Ok((WeechatString::Str(nm), p1)) => match parse_tag_at(bytes, p1) {
                Err(e) => Err(e),
                Ok((t, p2)) => match parse_value(bytes, p2, t) {
                    Err(e) => Err(e),
                    Ok((v, p3)) => match parse_inl_entries(bytes, p3, n - 1) {
                        Err(e) => Err(e),
                        Ok((mut rest, p4)) => {
                            let ghost rd = rest.deep_view();
                            rest.insert(0, (nm, v));
                            proof {
                                assert(rest.deep_view() =~= seq![(nm@, v.deep_view())] + rd);
                            }
                            Ok((rest, p4))
                        },
                    },
                },
            },
        }
    }
}

/// Parses `n` pointers.
fn parse_ptr_seq(bytes: &[u8], pos: usize, n: usize) -> (r: Result<
    (Vec<u128>, usize),
    WeechatErrorType,
>)
    requires
        pos <= bytes@.len(),
    ensures
        parse_matches(r, sp_ptr_seq(bytes@, pos as int, n as int)),
        r matches Ok((_, p2)) ==> pos <= p2 <= bytes@.len(),
    decreases bytes@.len() - pos, 0int, n,
{
    if n == 0 {
        let out: Vec<u128> = Vec::new();
        proof {
            assert(out.deep_view() =~= Seq::<u128>::empty());
        }
        Ok((out, pos))
    } else {
        match parse_uint_digits(bytes, pos, true) {
            Err(e) => Err(e),
            Ok((v, p2)) => match parse_ptr_seq(bytes, p2, n - 1) {
                Err(e) => Err(e),
                Ok((mut rest, p3)) => {
                    let ghost rd = rest.deep_view();
                    rest.insert(0, v);
                    proof {
                        assert(rest.deep_view() =~= seq![v] + rd);
                    }
                    Ok((rest, p3))
                },
            },
        }
    }
}

/// Parses one value per schema column, from column `j` on.
fn parse_fields(bytes: &[u8], pos: usize, keys: &Vec<(Vec<u8>, Tag)>, j: usize) -> (r: Result<
    (Vec<(Vec<u8>, WeechatType)>, usize),
    WeechatErrorType,
>)
    requires
        pos <= bytes@.len(),
        j <= keys@.len(),
    ensures
        parse_matches(r, sp_fields(bytes@, pos as int, keys.deep_view(), j as int)),
        r matches Ok((_, p2)) ==> pos <= p2 <= bytes@.len(),
    decreases bytes@.len() - pos, 0int, keys@.len() - j,
{
    if j >= keys.len() {
        let out: Vec<(Vec<u8>, WeechatType)> = Vec::new();
        proof {
            assert(out.deep_view() =~= Seq::<(Seq<u8>, WeechatTypeView)>::empty());
        }
        Ok((out, pos))
    } else {
        let ktag = keys[j].1;
        proof {
            assert(keys.deep_view()[j as int] == (keys@[j as int].0@, keys@[j as int].1));
        }
        match parse_value(bytes, pos, ktag) {
            Err(e) => Err(e),
            Ok((v, p2)) => match parse_fields(bytes, p2, keys, j + 1) {
                Err(e) => Err(e),
                Ok((mut rest, p3)) => {
                    let nm = crate::message::copy_bytes(&keys[j].0);
                    let ghost rd = rest.deep_view();
                    rest.insert(0, (nm, v));
                    proof {
                        assert(rest.deep_view() =~= seq![(nm@, v.deep_view())] + rd);
                    }
                    Ok((rest, p3))
                },
            },
        }
    }
}

/// Parses `n` hdata records.
fn parse_records(bytes: &[u8], pos: usize, path_len: usize, keys: &Vec<(Vec<u8>, Tag)>, n: usize) -> (r:
    Result<(Vec<HdataRecord>, usize), WeechatErrorType>)
    requires
        pos <= bytes@.len(),
    ensures
        parse_matches(
            r,
            sp_records(bytes@, pos as int, path_len as int, keys.deep_view(), n as int),
        ),
        r matches Ok((_, p2)) ==> pos <= p2 <= bytes@.len(),
    decreases bytes@.len() - pos, n + 1, 2int,
{
    if n == 0 {
        let out: Vec<HdataRecord> = Vec::new();
        proof {
            assert(out.deep_view() =~= Seq::<HdataRecordView>::empty());
        }
        Ok((out, pos))
    } else {
        match parse_ptr_seq(bytes, pos, path_len) {
            Err(e) => Err(e),
            Ok((pp, p2)) => match parse_fields(bytes, p2, keys, 0) {
                Err(e) => Err(e),
                Ok((fields, p3)) => match parse_records(bytes, p3, path_len, keys, n - 1) {
                    Err(e) => Err(e),
                    Ok((mut rest, p4)) => {
                        let rec = HdataRecord { p_path: pp, fields };
                        proof {
                            crate::message::lemma_view_record(&rec);
                            assert(rec.p_path.deep_view() =~= rec.p_path@);
                        }
                        let ghost rd = rest.deep_view();
                        rest.insert(0, rec);
                        proof {
                            assert(rest.deep_view() =~= seq![rec.deep_view()] + rd);
                        }
                        Ok((rest, p4))
                    },
                },
            },
        }
    }
}

/// Parses the top-level values of a message body.
fn parse_body_values(bytes: &[u8], pos: usize) -> (r: Result<
    (Vec<WeechatType>, usize),
    WeechatErrorType,
>)
    requires
        pos <= bytes@.len(),
    ensures
        parse_matches(r, sp_body_values(bytes@, pos as int)),
        r matches Ok((_, p2)) ==> pos <= p2 <= bytes@.len(),
    decreases bytes@.len() - pos, 0int, 1int,
{
    if bytes.len() - pos < 3 {
        let out: Vec<WeechatType> = Vec::new();
        proof {
            assert(out.deep_view() =~= Seq::<WeechatTypeView>::empty());
        }
        Ok((out, pos))
    } else {
        match parse_tag_at(bytes, pos) {
            Err(e) => Err(e),
            Ok((t, p2)) => match parse_value(bytes, p2, t) {
                Err(e) => Err(e),
                Ok((v, p3)) => match parse_body_values(bytes, p3) {
                    Err(e) => Err(e),
                    Ok((mut rest, p4)) => {
                        let ghost rd = rest.deep_view();
                        rest.insert(0, v);
                        proof {
                            assert(rest.deep_view() =~= seq![v.deep_view()] + rd);
                        }
                        Ok((rest, p4))
                    },
                },
            },
        }
    }
}

/// Parses a whole decompressed message body into its id and values.
pub fn parse_body(bytes: &[u8]) -> (r: Result<(Vec<u8>, Vec<WeechatType>), WeechatErrorType>)
    ensures
        match r {
            Ok((id, data)) => sp_body(bytes@) == Ok::<MessageView, WeechatErrorType>(
                MessageView { id: id@, data: data.deep_view() },
            ),
            Err(e) => sp_body(bytes@) == Err::<MessageView, WeechatErrorType>(e),
        },
{
    match parse_wstring(bytes, 0) {
        Err(e) => Err(e),
        Ok((ws, p)) => {
            let id: Vec<u8> = match ws {
                WeechatString::Null => Vec::new(),
                WeechatString::Str(b) => b,
            };
            match parse_body_values(bytes, p) {
                Err(e) => Err(e),
                Ok((vals, _)) => Ok((id, vals)),
            }
        },
    }
}

/// A parsed value carries the tag it was parsed under.
pub proof fn lemma_value_tag(s: Seq<u8>, pos: int, tag: Tag)
    ensures
        sp_value(s, pos, tag) matches Ok((v, _)) ==> tag_of_value(v) == tag,
{
}

/// Parsed array elements: exactly the declared count, all of the one
/// declared tag.
pub proof fn lemma_value_seq_tags(s: Seq<u8>, pos: int, tag: Tag, n: int)
    ensures
        sp_value_seq(s, pos, tag, n) matches Ok((l, _)) ==> l.len() == (if n >= 0 {
            n
        } else {
            0
        }) && forall|i: int| 0 <= i < l.len() ==> tag_of_value(#[trigger] l[i]) == tag,
    decreases s.len() - pos, n + 1, 0int,
{
    if n > 0 {
        match bounded(sp_value(s, pos, tag), pos, s) {
            Ok((v, p2)) => {
                lemma_value_tag(s, pos, tag);
                lemma_value_seq_tags(s, p2, tag, n - 1);
            },
            Err(_) => {
            },
        }
    }
}

/// Parsed hash-table pairs: keys and values carry the declared tags.
pub proof fn lemma_pair_seq_tags(s: Seq<u8>, pos: int, kt: Tag, vt: Tag, n: int)
    ensures
        sp_pair_seq(s, pos, kt, vt, n) matches Ok((l, _)) ==> forall|i: int|
            0 <= i < l.len() ==> tag_of_value((#[trigger] l[i]).0) == kt && tag_of_value(l[i].1)
                == vt,
    decreases s.len() - pos, n + 1, 0int,
{
    if n > 0 {
        match bounded(sp_value(s, pos, kt), pos, s) {
            Ok((k, p2)) => {
                lemma_value_tag(s, pos, kt);
                match bounded(sp_value(s, p2, vt), p2, s) {
                    Ok((v, p3)) => {
                        lemma_value_tag(s, p2, vt);
                        lemma_pair_seq_tags(s, p3, kt, vt, n - 1);
                    },
                    Err(_) => {
                    },
                }
            },
            Err(_) => {
            },
        }
    }
}

/// Parsed record columns carry the declared names, in declared order, with
/// values of the declared tags.
pub proof fn lemma_fields_shape(s: Seq<u8>, pos: int, keys: Seq<(Seq<u8>, Tag)>, j: int)
    ensures
        sp_fields(s, pos, keys, j) matches Ok((fs, _)) ==> (0 <= j <= keys.len() ==> fs.len()
            == keys.len() - j) && forall|k: int|
            0 <= k < fs.len() && 0 <= j ==> (#[trigger] fs[k]).0 == keys[j + k].0 && tag_of_value(
                fs[k].1,
            ) == keys[j + k].1,
    decreases s.len() - pos, 0int, keys.len() - j,
{
    if 0 <= j < keys.len() {
        match bounded(sp_value(s, pos, keys[j].1), pos, s) {
            Ok((v, p2)) => {
                lemma_value_tag(s, pos, keys[j].1);
                lemma_fields_shape(s, p2, keys, j + 1);
            },
            Err(_) => {
            },
        }
    }
}

/// Parsed records: the declared count of them, each with one pointer per
/// path segment and the declared columns in declared order.
pub proof fn lemma_records_shape(
    s: Seq<u8>,
    pos: int,
    path_len: int,
    keys: Seq<(Seq<u8>, Tag)>,
    n: int,
)
    ensures
        sp_records(s, pos, path_len, keys, n) matches Ok((rs, _)) ==> (n >= 0 ==> rs.len() == n)
            && forall|i: int|
            0 <= i < rs.len() ==> {
                &&& (path_len >= 0 ==> (#[trigger] rs[i]).p_path.len() == path_len)
                &&& rs[i].fields.len() == keys.len()
                &&& forall|k: int|
                    0 <= k < keys.len() ==> (#[trigger] rs[i].fields[k]).0 == keys[k].0
                        && tag_of_value(rs[i].fields[k].1) == keys[k].1
            },
    decreases s.len() - pos, n + 1, 2int,
{
    if n > 0 {
        match bounded(sp_ptr_seq(s, pos, path_len), pos, s) {
            Ok((pp, p2)) => {
                lemma_ptr_seq_len(s, pos, path_len);
                match bounded(sp_fields(s, p2, keys, 0), p2, s) {
                    Ok((fs, p3)) => {
                        lemma_fields_shape(s, p2, keys, 0);
                        lemma_records_shape(s, p3, path_len, keys, n - 1);
                    },
                    Err(_) => {
                    },
                }
            },
            Err(_) => {
            },
        }
    }
}

/// A parsed pointer prefix has the requested length.
pub proof fn lemma_ptr_seq_len(s: Seq<u8>, pos: int, n: int)
    ensures
        sp_ptr_seq(s, pos, n) matches Ok((l, _)) ==> (n >= 0 ==> l.len() == n),
    decreases s.len() - pos, 0int, n,
{
    if n > 0 {
        match bounded(sp_uint_digits(s, pos, true), pos, s) {
            Ok((v, p2)) => {
                lemma_ptr_seq_len(s, p2, n - 1);
            },
            Err(_) => {
            },
        }
    }
}

/// Every parsed array holds elements of one declared tag, exactly as many as
/// the wire announced.
pub proof fn lemma_parsed_array_tags(s: Seq<u8>, pos: int)
    ensures
        sp_value(s, pos, Tag::Arr) matches Ok((v, _)) ==> v matches WeechatTypeView::Array(
            t,
            elems,
        ) && forall|i: int| 0 <= i < elems.len() ==> tag_of_value(#[trigger] elems[i]) == t,
{
    match sp_tag(s, pos) {
        Ok((t, _)) => match sp_u32(s, pos + 3) {
            Ok((cnt, _)) => {
                lemma_value_seq_tags(s, pos + 7, t, cnt as int);
            },
            Err(_) => {
            },
        },
        Err(_) => {
        },
    }
}

/// Every parsed hdata is rectangular: each record carries one pointer per
/// path segment and exactly the declared columns, names in declared order,
/// values of the declared tags.
pub proof fn lemma_parsed_hdata_shape(s: Seq<u8>, pos: int)
    ensures
        sp_value(s, pos, Tag::Hda) matches Ok((v, _)) ==> v matches WeechatTypeView::Hdata(h)
            && forall|i: int|
            0 <= i < h.records.len() ==> {
                &&& (#[trigger] h.records[i]).p_path.len() == h.h_path.len()
                &&& h.records[i].fields.len() == h.keys.len()
                &&& forall|k: int|
                    0 <= k < h.keys.len() ==> (#[trigger] h.records[i].fields[k]).0 == h.keys[k].0
                        && tag_of_value(h.records[i].fields[k].1) == h.keys[k].1
            },
{
    match bounded(sp_wstring(s, pos), pos, s) {
        Ok((WeechatStringView::Str(pb), p1)) => {
            let h_path = split_bytes(pb, '/' as u8);
            lemma_split_nonempty(pb, '/' as u8);
            match bounded(sp_wstring(s, p1), p1, s) {
                Ok((WeechatStringView::Str(kb), p2)) => match parse_keys_text(kb) {
                    Ok(keys) => match sp_u32(s, p2) {
                        Ok((cnt, p3)) => {
                            lemma_records_shape(s, p3, h_path.len() as int, keys, cnt as int);
                        },
                        Err(_) => {
                        },
                    },
                    Err(_) => {
                    },
                },
                _ => {
                },
            }
        },
        _ => {
        },
    }
}

} // verus!
