//! Session bookkeeping: reply correlation, id generation, and fan-out.
use libdingy::message::{Message, MessageHeader};
use libdingy::server::{is_sync_message, Fanout, PendingList, ServerError};

fn msg(id: &str) -> Message {
    Message {
        header: MessageHeader { length: 9, compression: 0 },
        id: id.as_bytes().to_vec(),
        data: Vec::new(),
    }
}

#[test]
fn sync_classification() {
    assert!(is_sync_message(&b"_nicklist".to_vec()));
    assert!(is_sync_message(&b"_buffer_line_added".to_vec()));
    assert!(!is_sync_message(&b"_pong".to_vec()));
    assert!(!is_sync_message(&b"".to_vec()));
    assert!(!is_sync_message(&b"q1".to_vec()));
}

#[test]
fn register_rejects_a_duplicate_id() {
    let mut p = PendingList::new();
    assert!(p.register(&b"q1".to_vec()));
    assert!(!p.register(&b"q1".to_vec()));
    assert!(p.is_pending(&b"q1".to_vec()));
    assert!(p.register(&b"q2".to_vec()));
}

#[test]
fn deliver_removes_the_id_and_stores_the_reply() {
    let mut p = PendingList::new();
    assert!(p.register(&b"q1".to_vec()));
    assert!(p.deliver(msg("q1")));
    assert!(!p.is_pending(&b"q1".to_vec()));
    // the id can be reused once resolved
    assert!(p.register(&b"q1".to_vec()));
    let got = p.take_message(&b"q1".to_vec()).unwrap();
    assert_eq!(got.id, b"q1".to_vec());
    assert!(p.take_message(&b"q1".to_vec()).is_none());
}

#[test]
fn unexpected_response_is_discarded() {
    let mut p = PendingList::new();
    assert!(!p.deliver(msg("nobody")));
    assert!(p.take_message(&b"nobody".to_vec()).is_none());
}

#[test]
fn generated_ids_are_alphanumeric_and_fresh() {
    let mut p = PendingList::new();
    for _ in 0..16 {
        let id = p.generate_id();
        assert!(id.len() >= 10);
        assert!(id
            .iter()
            .all(|b| b.is_ascii_alphanumeric()));
        assert!(!p.is_pending(&id));
        assert!(p.register(&id));
    }
}

#[test]
fn register_send_honours_and_generates_ids() {
    let mut p = PendingList::new();
    let id = p
        .register_send(Some(&b"q7".to_vec()), true)
        .unwrap();
    assert_eq!(id, b"q7".to_vec());
    assert!(p.is_pending(&b"q7".to_vec()));
    assert_eq!(
        p.register_send(Some(&b"q7".to_vec()), true),
        Err(ServerError::DuplicateId)
    );
    let fresh = p.register_send(None, true).unwrap();
    assert!(p.is_pending(&fresh));
    // a command without a reply leaves no pending entry
    let fire = p.register_send(Some(&b"log".to_vec()), false).unwrap();
    assert_eq!(fire, b"log".to_vec());
    assert!(!p.is_pending(&b"log".to_vec()));
}

#[test]
fn ping_reply_routes_to_the_ping_only() {
    // a ping registered under its effective id `_pong`, then another command
    let mut p = PendingList::new();
    assert!(p.register(&b"_pong".to_vec()));
    assert!(p.register(&b"other".to_vec()));
    // `_pong` is a response, not a pushed event
    let pong = msg("_pong");
    assert!(!is_sync_message(&pong.id));
    assert!(p.deliver(pong));
    // only the ping waiter finds its reply
    assert!(p.take_message(&b"other".to_vec()).is_none());
    assert_eq!(
        p.take_message(&b"_pong".to_vec()).unwrap().id,
        b"_pong".to_vec()
    );
    assert!(p.is_pending(&b"other".to_vec()));
}

#[test]
fn fanout_delivers_every_batch_to_every_subscriber_in_order() {
    let mut f: Fanout<Vec<u32>> = Fanout::new();
    let s1 = f.subscribe();
    let s2 = f.subscribe();
    f.publish(vec![1, 2]);
    f.publish(vec![3]);
    assert_eq!(f.peek(s1).unwrap(), &vec![1, 2]);
    assert_eq!(f.peek(s2).unwrap(), &vec![1, 2]);
    f.advance(s1);
    assert_eq!(f.peek(s1).unwrap(), &vec![3]);
    // subscribers advance independently; the laggard still sees the first
    assert_eq!(f.peek(s2).unwrap(), &vec![1, 2]);
    f.advance(s2);
    f.advance(s2);
    assert!(f.peek(s2).is_none());
    f.advance(s1);
    assert!(f.peek(s1).is_none());
}

#[test]
fn late_subscribers_start_at_the_present() {
    let mut f: Fanout<u32> = Fanout::new();
    f.publish(1);
    let s = f.subscribe();
    assert!(f.peek(s).is_none());
    f.publish(2);
    assert_eq!(f.peek(s).unwrap(), &2);
}
