//! Typed projection of pushed events.
use libdingy::message::{Message, WeechatString, WeechatType};
use libdingy::server::Fanout;
use libdingy::sync::{BufferClosing, Nicklist, SyncErrorType, SyncMessage};

fn u32be(n: u32) -> Vec<u8> {
    n.to_be_bytes().to_vec()
}

fn wstr(s: &str) -> Vec<u8> {
    let mut out = u32be(s.len() as u32);
    out.extend_from_slice(s.as_bytes());
    out
}

fn frame(payload: &[u8]) -> Vec<u8> {
    let mut out = u32be(payload.len() as u32 + 5);
    out.push(0);
    out.extend_from_slice(payload);
    out
}

fn nicklist_record(ptr: &str, group: u8, level: u32, name: &str) -> Vec<u8> {
    let mut r = Vec::new();
    r.push(ptr.len() as u8);
    r.extend_from_slice(ptr.as_bytes());
    r.push(group);
    r.push(1);
    r.extend_from_slice(&u32be(level));
    r.extend_from_slice(&wstr(name));
    r.extend_from_slice(&wstr("green"));
    r.extend_from_slice(&wstr("@"));
    r.extend_from_slice(&wstr("blue"));
    r
}

fn nicklist_frame() -> Vec<u8> {
    let mut payload = wstr("_nicklist");
    payload.extend_from_slice(b"hda");
    payload.extend_from_slice(&wstr("nicklist_item"));
    payload.extend_from_slice(&wstr(
        "group:chr,visible:chr,level:int,name:str,color:str,prefix:str,prefix_color:str",
    ));
    payload.extend_from_slice(&u32be(2));
    payload.extend_from_slice(&nicklist_record("1a", 0, 3, "alice"));
    payload.extend_from_slice(&nicklist_record("2b", 1, 0, "ops"));
    frame(&payload)
}

#[test]
fn nicklist_projects_to_typed_records() {
    let (m, _) = Message::parse(&nicklist_frame()).unwrap().unwrap();
    let items = Nicklist::parse(&m.data[0]).unwrap();
    assert_eq!(items.len(), 2);
    assert_eq!(items[0].group, false);
    assert_eq!(items[0].visible, true);
    assert_eq!(items[0].level, 3);
    assert_eq!(items[0].name, WeechatString::Str(b"alice".to_vec()));
    assert_eq!(items[1].group, true);
    assert_eq!(items[1].name, WeechatString::Str(b"ops".to_vec()));
}

#[test]
fn sync_fanout_delivers_one_batch_of_two_to_both_subscribers() {
    let (m, _) = Message::parse(&nicklist_frame()).unwrap().unwrap();
    let batches = SyncMessage::parse(&m).unwrap();
    assert_eq!(batches.len(), 1);
    assert_eq!(batches[0].len(), 2);
    let mut f: Fanout<Vec<SyncMessage>> = Fanout::new();
    let s1 = f.subscribe();
    let s2 = f.subscribe();
    for batch in batches {
        f.publish(batch);
    }
    for s in [s1, s2] {
        let batch = f.peek(s).unwrap();
        assert_eq!(batch.len(), 2);
        match (&batch[0], &batch[1]) {
            (SyncMessage::Nicklist(a), SyncMessage::Nicklist(b)) => {
                assert_eq!(a.name, WeechatString::Str(b"alice".to_vec()));
                assert_eq!(b.name, WeechatString::Str(b"ops".to_vec()));
            },
            other => panic!("unexpected batch: {:?}", other),
        }
    }
}

#[test]
fn missing_field_fails_the_whole_projection() {
    let mut payload = wstr("_buffer_closing");
    payload.extend_from_slice(b"hda");
    payload.extend_from_slice(&wstr("buffer"));
    payload.extend_from_slice(&wstr("number:int"));  // full_name is missing
    payload.extend_from_slice(&u32be(1));
    payload.push(2);
    payload.extend_from_slice(b"1f");
    payload.extend_from_slice(&u32be(1));
    let (m, _) = Message::parse(&frame(&payload)).unwrap().unwrap();
    match BufferClosing::parse(&m.data[0]) {
        Err(SyncErrorType::InvalidField(name)) => assert_eq!(name, b"full_name".to_vec()),
        other => panic!("unexpected projection result: {:?}", other),
    }
    assert!(SyncMessage::parse(&m).is_err());
}

#[test]
fn buffer_closing_projects() {
    let mut payload = wstr("_buffer_closing");
    payload.extend_from_slice(b"hda");
    payload.extend_from_slice(&wstr("buffer"));
    payload.extend_from_slice(&wstr("number:int,full_name:str"));
    payload.extend_from_slice(&u32be(1));
    payload.push(2);
    payload.extend_from_slice(b"1f");
    payload.extend_from_slice(&u32be(4));
    payload.extend_from_slice(&wstr("irc.#chan"));
    let (m, _) = Message::parse(&frame(&payload)).unwrap().unwrap();
    let batches = SyncMessage::parse(&m).unwrap();
    assert_eq!(batches.len(), 1);
    match &batches[0][0] {
        SyncMessage::BufferClosing(b) => {
            assert_eq!(b.number, 4);
            assert_eq!(b.full_name, WeechatString::Str(b"irc.#chan".to_vec()));
        },
        other => panic!("unexpected event: {:?}", other),
    }
}

#[test]
fn non_hdata_payload_is_the_wrong_shape() {
    let item = WeechatType::Int(3);
    assert!(matches!(
        Nicklist::parse(&item),
        Err(SyncErrorType::UnexpectedShape)
    ));
}

#[test]
fn pong_carries_its_string() {
    let batch = SyncMessage::parse_message_item(
        &b"_pong".to_vec(),
        &WeechatType::Str(WeechatString::Str(b"abc".to_vec())),
    )
    .unwrap();
    assert_eq!(batch.len(), 1);
    match &batch[0] {
        SyncMessage::Pong(WeechatString::Str(s)) => assert_eq!(s, &b"abc".to_vec()),
        other => panic!("unexpected event: {:?}", other),
    }
    assert!(matches!(
        SyncMessage::parse_message_item(&b"_pong".to_vec(), &WeechatType::Int(1)),
        Err(SyncErrorType::UnexpectedShape)
    ));
}

#[test]
fn upgrade_events_have_empty_payloads() {
    let up = SyncMessage::parse_message_item(&b"_upgrade".to_vec(), &WeechatType::Int(0)).unwrap();
    assert!(matches!(up[0], SyncMessage::Upgrade));
    let done =
        SyncMessage::parse_message_item(&b"_upgrade_ended".to_vec(), &WeechatType::Int(0)).unwrap();
    assert!(matches!(done[0], SyncMessage::UpgradeEnded));
}

#[test]
fn unknown_event_id_is_refused() {
    assert!(matches!(
        SyncMessage::parse_message_item(&b"_mystery".to_vec(), &WeechatType::Int(0)),
        Err(SyncErrorType::UnknownEventId)
    ));
}
