//! Wire decoder: frames, every value tag, and every decoder error.
use libdingy::codec::{parse_length, WeechatCodec};
use libdingy::message::{Message, Tag, WeechatString, WeechatType};
use libdingy::parse::{parse_body, parse_value, WeechatErrorType};
use std::io::Write;

fn u32be(n: u32) -> Vec<u8> {
    n.to_be_bytes().to_vec()
}

fn wstr(s: &str) -> Vec<u8> {
    let mut out = u32be(s.len() as u32);
    out.extend_from_slice(s.as_bytes());
    out
}

fn frame(payload: &[u8]) -> Vec<u8> {
    let mut out = u32be(payload.len() as u32 + 5);
    out.push(0);
    out.extend_from_slice(payload);
    out
}

#[test]
fn parse_length_reads_the_header() {
    let mut bytes = u32be(9);
    bytes.push(0);
    bytes.extend_from_slice(&[0xFF, 0xFF, 0xFF, 0xFF]);
    assert_eq!(parse_length(&bytes), 9);
    assert_eq!(parse_length(&bytes[..4]), 0);
    assert_eq!(parse_length(&[]), 0);
}

#[test]
fn frame_with_empty_id() {
    // header length 9 = 4 + 1 + 4, no compression, a zero-length id string
    let mut bytes = u32be(9);
    bytes.push(0);
    bytes.extend_from_slice(&u32be(0));
    let (m, used) = Message::parse(&bytes).unwrap().unwrap();
    assert_eq!(used, 9);
    assert_eq!(m.header.length, 9);
    assert_eq!(m.header.compression, 0);
    assert_eq!(m.id, b"".to_vec());
    assert_eq!(m.data.len(), 0);
}

#[test]
fn null_id_is_normalized_to_empty() {
    let payload = [0xFF, 0xFF, 0xFF, 0xFF];
    let (m, _) = Message::parse(&frame(&payload)).unwrap().unwrap();
    assert_eq!(m.id, b"".to_vec());
    assert_eq!(m.data.len(), 0);
}

#[test]
fn incomplete_frame_yields_nothing() {
    let bytes = frame(&wstr("id"));
    assert!(matches!(Message::parse(&bytes[..6]), Ok(None)));
    assert!(matches!(Message::parse(&bytes[..3]), Ok(None)));
}

#[test]
fn null_string_value_decodes_to_null() {
    let mut payload = wstr("x");
    payload.extend_from_slice(b"str");
    payload.extend_from_slice(&[0xFF, 0xFF, 0xFF, 0xFF]);
    let (m, _) = Message::parse(&frame(&payload)).unwrap().unwrap();
    assert_eq!(m.data.len(), 1);
    assert!(matches!(&m.data[0], WeechatType::Str(WeechatString::Null)));
}

#[test]
fn chr_int_and_negative_values() {
    let mut payload = wstr("x");
    payload.extend_from_slice(b"chr");
    payload.push(0xFF);
    payload.extend_from_slice(b"int");
    payload.extend_from_slice(&u32be(0xFFFF_FFFE));
    payload.extend_from_slice(b"int");
    payload.extend_from_slice(&u32be(305_419_896));
    let (m, _) = Message::parse(&frame(&payload)).unwrap().unwrap();
    assert!(matches!(m.data[0], WeechatType::Char(-1)));
    assert!(matches!(m.data[1], WeechatType::Int(-2)));
    assert!(matches!(m.data[2], WeechatType::Int(305_419_896)));
}

#[test]
fn lon_tim_ptr_values() {
    let mut payload = wstr("x");
    payload.extend_from_slice(b"lon");
    payload.push(4);
    payload.extend_from_slice(b"-123");
    payload.extend_from_slice(b"tim");
    payload.push(10);
    payload.extend_from_slice(b"1321993456");
    payload.extend_from_slice(b"ptr");
    payload.push(5);
    payload.extend_from_slice(b"1a2Fe");
    let (m, _) = Message::parse(&frame(&payload)).unwrap().unwrap();
    assert!(matches!(m.data[0], WeechatType::Long(-123)));
    assert!(matches!(m.data[1], WeechatType::Time(1_321_993_456)));
    assert!(matches!(m.data[2], WeechatType::Pointer(0x1a2fe)));
}

#[test]
fn str_and_buf_values() {
    let mut payload = wstr("x");
    payload.extend_from_slice(b"str");
    payload.extend_from_slice(&wstr("hello"));
    payload.extend_from_slice(b"buf");
    payload.extend_from_slice(&u32be(3));
    payload.extend_from_slice(&[0, 159, 146]);  // raw bytes: buffers skip the UTF-8 check
    payload.extend_from_slice(b"buf");
    payload.extend_from_slice(&[0xFF, 0xFF, 0xFF, 0xFF]);
    let (m, _) = Message::parse(&frame(&payload)).unwrap().unwrap();
    match &m.data[0] {
        WeechatType::Str(WeechatString::Str(b)) => assert_eq!(b, &b"hello".to_vec()),
        other => panic!("unexpected value: {:?}", other),
    }
    match &m.data[1] {
        WeechatType::Buffer(Some(b)) => assert_eq!(b, &vec![0, 159, 146]),
        other => panic!("unexpected value: {:?}", other),
    }
    assert!(matches!(m.data[2], WeechatType::Buffer(None)));
}

#[test]
fn array_elements_share_the_declared_tag() {
    let mut payload = wstr("x");
    payload.extend_from_slice(b"arr");
    payload.extend_from_slice(b"int");
    payload.extend_from_slice(&u32be(2));
    payload.extend_from_slice(&u32be(7));
    payload.extend_from_slice(&u32be(8));
    let (m, _) = Message::parse(&frame(&payload)).unwrap().unwrap();
    match &m.data[0] {
        WeechatType::Array(t, elems) => {
            assert_eq!(*t, Tag::Int);
            assert_eq!(elems.len(), 2);
            for e in elems {
                assert!(matches!(e, WeechatType::Int(_)));
            }
            assert!(matches!(elems[0], WeechatType::Int(7)));
            assert!(matches!(elems[1], WeechatType::Int(8)));
        },
        other => panic!("unexpected value: {:?}", other),
    }
}

#[test]
fn hashtable_preserves_wire_order() {
    let mut payload = wstr("x");
    payload.extend_from_slice(b"htb");
    payload.extend_from_slice(b"str");
    payload.extend_from_slice(b"int");
    payload.extend_from_slice(&u32be(2));
    payload.extend_from_slice(&wstr("zz"));
    payload.extend_from_slice(&u32be(1));
    payload.extend_from_slice(&wstr("aa"));
    payload.extend_from_slice(&u32be(2));
    let (m, _) = Message::parse(&frame(&payload)).unwrap().unwrap();
    match &m.data[0] {
        WeechatType::HashTable(kt, vt, pairs) => {
            assert_eq!((*kt, *vt), (Tag::Str, Tag::Int));
            assert_eq!(pairs.len(), 2);
            match (&pairs[0].0, &pairs[0].1) {
                (WeechatType::Str(WeechatString::Str(k)), WeechatType::Int(1)) => {
                    assert_eq!(k, &b"zz".to_vec())
                },
                other => panic!("unexpected first pair: {:?}", other),
            }
        },
        other => panic!("unexpected value: {:?}", other),
    }
}

#[test]
fn info_and_infolist() {
    let mut payload = wstr("x");
    payload.extend_from_slice(b"inf");
    payload.extend_from_slice(&wstr("version"));
    payload.extend_from_slice(&wstr("4.0"));
    payload.extend_from_slice(b"inl");
    payload.extend_from_slice(&wstr("buffers"));
    payload.extend_from_slice(&u32be(1));
    payload.extend_from_slice(&wstr("number"));
    payload.extend_from_slice(b"int");
    payload.extend_from_slice(&u32be(1));
    let (m, _) = Message::parse(&frame(&payload)).unwrap().unwrap();
    match &m.data[0] {
        WeechatType::Info(WeechatString::Str(n), WeechatString::Str(v)) => {
            assert_eq!(n, &b"version".to_vec());
            assert_eq!(v, &b"4.0".to_vec());
        },
        other => panic!("unexpected value: {:?}", other),
    }
    match &m.data[1] {
        WeechatType::InfoList(WeechatString::Str(n), items) => {
            assert_eq!(n, &b"buffers".to_vec());
            assert_eq!(items.len(), 1);
            assert_eq!(items[0].0, b"number".to_vec());
            assert!(matches!(items[0].1, WeechatType::Int(1)));
        },
        other => panic!("unexpected value: {:?}", other),
    }
}

fn nicklist_record(ptr: &str, group: u8, level: u32, name: &str) -> Vec<u8> {
    let mut r = Vec::new();
    r.push(ptr.len() as u8);
    r.extend_from_slice(ptr.as_bytes());
    r.push(group);
    r.push(1); // visible
    r.extend_from_slice(&u32be(level));
    r.extend_from_slice(&wstr(name));
    r.extend_from_slice(&wstr("green"));
    r.extend_from_slice(&wstr("@"));
    r.extend_from_slice(&wstr("blue"));
    r
}

fn nicklist_payload(id: &str) -> Vec<u8> {
    let mut payload = wstr(id);
    payload.extend_from_slice(b"hda");
    payload.extend_from_slice(&wstr("nicklist_item"));
    payload.extend_from_slice(&wstr(
        "group:chr,visible:chr,level:int,name:str,color:str,prefix:str,prefix_color:str",
    ));
    payload.extend_from_slice(&u32be(2));
    payload.extend_from_slice(&nicklist_record("1a", 0, 3, "alice"));
    payload.extend_from_slice(&nicklist_record("2b", 1, 0, "ops"));
    payload
}

#[test]
fn hdata_records_match_the_schema() {
    let (m, _) = Message::parse(&frame(&nicklist_payload("_nicklist")))
        .unwrap()
        .unwrap();
    match &m.data[0] {
        WeechatType::Hdata(h) => {
            assert_eq!(h.h_path.len(), 1);
            assert_eq!(h.h_path[0], b"nicklist_item".to_vec());
            assert_eq!(h.keys.len(), 7);
            assert_eq!(h.keys[0], (b"group".to_vec(), Tag::Chr));
            assert_eq!(h.keys[3], (b"name".to_vec(), Tag::Str));
            assert_eq!(h.len(), 2);
            assert!(!h.is_empty());
            for rec in &h.values {
                // every record: one pointer per path segment, one value per
                // declared column, in declared order and of the declared tag
                assert_eq!(rec.p_path.len(), h.h_path.len());
                assert_eq!(rec.fields.len(), h.keys.len());
                for (f, k) in rec.fields.iter().zip(h.keys.iter()) {
                    assert_eq!(f.0, k.0);
                }
            }
            assert_eq!(h.values[0].p_path[0], 0x1a);
            assert_eq!(h.get_int(0, "level"), Some(3));
            assert_eq!(
                h.get_string(1, "name"),
                Some(WeechatString::Str(b"ops".to_vec()))
            );
        },
        other => panic!("unexpected value: {:?}", other),
    }
}

#[test]
fn projection_preserves_null_and_refuses_bool_for_str() {
    let mut payload = wstr("x");
    payload.extend_from_slice(b"hda");
    payload.extend_from_slice(&wstr("thing"));
    payload.extend_from_slice(&wstr("title:str"));
    payload.extend_from_slice(&u32be(1));
    payload.push(2);
    payload.extend_from_slice(b"1f");
    payload.extend_from_slice(&[0xFF, 0xFF, 0xFF, 0xFF]); // a null title
    let (m, _) = Message::parse(&frame(&payload)).unwrap().unwrap();
    match &m.data[0] {
        WeechatType::Hdata(h) => {
            assert_eq!(h.get_string(0, "title"), Some(WeechatString::Null));
            assert_eq!(h.get_bool(0, "title"), None);
            assert_eq!(h.get_string(0, "absent"), None);
        },
        other => panic!("unexpected value: {:?}", other),
    }
}

#[test]
fn bad_utf8_in_str_fails() {
    let mut payload = wstr("x");
    payload.extend_from_slice(b"str");
    payload.extend_from_slice(&u32be(2));
    payload.extend_from_slice(&[0xC3, 0x28]);
    assert_eq!(
        Message::parse(&frame(&payload)),
        Err(WeechatErrorType::BadUtf8)
    );
}

#[test]
fn truncated_value_fails_short_read() {
    let mut payload = wstr("x");
    payload.extend_from_slice(b"int");
    payload.extend_from_slice(&[0, 0]); // two of four bytes
    assert_eq!(
        Message::parse(&frame(&payload)),
        Err(WeechatErrorType::ShortRead)
    );
}

#[test]
fn bad_digits_fails() {
    let mut payload = wstr("x");
    payload.extend_from_slice(b"lon");
    payload.push(2);
    payload.extend_from_slice(b"4x");
    assert_eq!(
        Message::parse(&frame(&payload)),
        Err(WeechatErrorType::BadDigits)
    );
}

#[test]
fn unknown_tag_fails_with_its_bytes() {
    let mut payload = wstr("x");
    payload.extend_from_slice(b"zzz");
    payload.push(0);
    assert_eq!(
        Message::parse(&frame(&payload)),
        Err(WeechatErrorType::UnknownTypeTag(b'z', b'z', b'z'))
    );
}

#[test]
fn null_hdata_path_fails() {
    let mut payload = wstr("x");
    payload.extend_from_slice(b"hda");
    payload.extend_from_slice(&[0xFF, 0xFF, 0xFF, 0xFF]);
    assert_eq!(
        Message::parse(&frame(&payload)),
        Err(WeechatErrorType::NullHdataId)
    );
}

#[test]
fn null_entry_name_fails() {
    let mut payload = wstr("x");
    payload.extend_from_slice(b"inl");
    payload.extend_from_slice(&wstr("things"));
    payload.extend_from_slice(&u32be(1));
    payload.extend_from_slice(&[0xFF, 0xFF, 0xFF, 0xFF]);
    assert_eq!(
        Message::parse(&frame(&payload)),
        Err(WeechatErrorType::NullEntryName)
    );
}

#[test]
fn bad_compression_flag_fails() {
    let mut bytes = u32be(9);
    bytes.push(7);
    bytes.extend_from_slice(&u32be(0));
    assert_eq!(
        Message::parse(&bytes),
        Err(WeechatErrorType::InvalidHeader)
    );
}

#[test]
fn compressed_frame_inflates() {
    let mut payload = wstr("zipped");
    payload.extend_from_slice(b"str");
    payload.extend_from_slice(&wstr("squeezed"));
    let mut enc = libflate::zlib::Encoder::new(Vec::new()).unwrap();
    enc.write_all(&payload).unwrap();
    let compressed = enc.finish().into_result().unwrap();
    let mut bytes = u32be(compressed.len() as u32 + 5);
    bytes.push(1);
    bytes.extend_from_slice(&compressed);
    let (m, used) = Message::parse(&bytes).unwrap().unwrap();
    assert_eq!(used, bytes.len());
    assert_eq!(m.id, b"zipped".to_vec());
    match &m.data[0] {
        WeechatType::Str(WeechatString::Str(b)) => assert_eq!(b, &b"squeezed".to_vec()),
        other => panic!("unexpected value: {:?}", other),
    }
}

#[test]
fn corrupt_zlib_stream_fails() {
    let mut bytes = u32be(9);
    bytes.push(1);
    bytes.extend_from_slice(&[1, 2, 3, 4]);
    assert_eq!(
        Message::parse(&bytes),
        Err(WeechatErrorType::InvalidHeader)
    );
}

#[test]
fn codec_buffers_until_a_frame_is_complete() {
    let mut payload = wstr("hi");
    payload.extend_from_slice(b"chr");
    payload.push(1);
    let bytes = frame(&payload);
    let mut codec = WeechatCodec::new();
    codec.feed(&bytes[..7]);
    assert!(matches!(codec.decode(), Ok(None)));
    codec.feed(&bytes[7..]);
    let m = codec.decode().unwrap().unwrap();
    assert_eq!(m.id, b"hi".to_vec());
    assert!(matches!(m.data[0], WeechatType::Char(1)));
    assert!(matches!(codec.decode(), Ok(None)));
}

#[test]
fn codec_hands_out_consecutive_frames() {
    let mut two = frame(&wstr("one"));
    two.extend_from_slice(&frame(&wstr("two")));
    let mut codec = WeechatCodec::new();
    codec.feed(&two);
    assert_eq!(codec.decode().unwrap().unwrap().id, b"one".to_vec());
    assert_eq!(codec.decode().unwrap().unwrap().id, b"two".to_vec());
    assert!(matches!(codec.decode(), Ok(None)));
}

#[test]
fn parse_body_round_trips_a_reference_encoding() {
    // parse_body inverts the reference encoding of a message body
    let mut body = wstr("resp");
    body.extend_from_slice(b"arr");
    body.extend_from_slice(b"str");
    body.extend_from_slice(&u32be(2));
    body.extend_from_slice(&wstr("a"));
    body.extend_from_slice(&wstr("b"));
    let (id, data) = parse_body(&body).unwrap();
    assert_eq!(id, b"resp".to_vec());
    assert_eq!(data.len(), 1);
    let (v, used) = parse_value(&body, 11, Tag::Arr).unwrap();
    assert_eq!(used, body.len());
    assert!(matches!(v, WeechatType::Array(Tag::Str, _)));
}
