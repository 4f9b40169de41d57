//! Command encoder: byte-exact lines for every command kind.
use libdingy::command::{
    Command, CommandType, CompressionType, DesyncCommand, HdataCommand, HdataCommandLength,
    InfoCommand, InfoListCommand, InitCommand, InputCommand, NicklistCommand, PingCommand,
    QuitCommand, SyncCommand, SyncOption, TestCommand,
};

#[test]
fn init_password_comma_is_escaped() {
    let c = InitCommand::new(None, Some("p,w".to_owned()), None);
    assert_eq!(c.encode(), b"init password=p\\,w\n".to_vec());
}

#[test]
fn init_password_and_compression() {
    let c = InitCommand::new(
        Some("login".to_owned()),
        Some("secret".to_owned()),
        Some(CompressionType::Zlib),
    );
    assert_eq!(
        c.encode(),
        b"(login) init password=secret,compression=zlib\n".to_vec()
    );
}

#[test]
fn init_compression_only() {
    let c = InitCommand::new(None, None, Some(CompressionType::Off));
    assert_eq!(c.encode(), b"init compression=none\n".to_vec());
}

#[test]
fn init_bare() {
    let c = InitCommand::new(None, None, None);
    assert_eq!(c.encode(), b"init\n".to_vec());
    assert!(!c.has_response());
}

#[test]
fn hdata_with_counts() {
    let c = HdataCommand::new(
        Some("q1".to_owned()),
        "buffer".to_owned(),
        ("gui_buffers".to_owned(), Some(HdataCommandLength::Infinite)),
        vec![("lines".to_owned(), Some(HdataCommandLength::Finite(5)))],
        Some(vec!["number".to_owned(), "name".to_owned()]),
    );
    assert_eq!(
        c.encode(),
        b"(q1) hdata buffer:gui_buffers(*)/lines(5) number,name\n".to_vec()
    );
    assert!(c.has_response());
}

#[test]
fn hdata_without_counts_or_keys() {
    let c = HdataCommand::new(
        None,
        "buffer".to_owned(),
        ("gui_buffers".to_owned(), None),
        vec![],
        None,
    );
    assert_eq!(c.encode(), b"hdata buffer:gui_buffers\n".to_vec());
}

#[test]
fn hdata_negative_count() {
    let c = HdataCommand::new(
        None,
        "buffer".to_owned(),
        ("gui_buffers".to_owned(), Some(HdataCommandLength::Finite(-3))),
        vec![],
        None,
    );
    assert_eq!(c.encode(), b"hdata buffer:gui_buffers(-3)\n".to_vec());
}

#[test]
fn info_has_trailing_newline() {
    let c = InfoCommand::new(None, "version".to_owned());
    assert_eq!(c.encode(), b"info version\n".to_vec());
}

#[test]
fn infolist_arguments_only_with_pointer() {
    let without = InfoListCommand::new(
        None,
        "buffer".to_owned(),
        None,
        Some(vec!["dropped".to_owned()]),
    );
    assert_eq!(without.encode(), b"infolist buffer\n".to_vec());
    let with = InfoListCommand::new(
        None,
        "buffer".to_owned(),
        Some("0x1234".to_owned()),
        Some(vec!["a".to_owned(), "b".to_owned()]),
    );
    assert_eq!(with.encode(), b"infolist buffer 0x1234 a b\n".to_vec());
}

#[test]
fn nicklist_with_and_without_buffer() {
    assert_eq!(
        NicklistCommand::new(None, None).encode(),
        b"nicklist\n".to_vec()
    );
    assert_eq!(
        NicklistCommand::new(Some("nicks".to_owned()), Some("irc.#chan".to_owned())).encode(),
        b"(nicks) nicklist irc.#chan\n".to_vec()
    );
}

#[test]
fn input_line() {
    let c = InputCommand::new(None, "irc.#chan".to_owned(), "hello there".to_owned());
    assert_eq!(c.encode(), b"input irc.#chan hello there\n".to_vec());
    assert!(!c.has_response());
}

#[test]
fn sync_lists_match_up() {
    let c = SyncCommand::new(
        None,
        vec![
            ("irc.#a".to_owned(), SyncOption::Buffer),
            ("irc.#b".to_owned(), SyncOption::Nicklist),
        ],
    );
    assert_eq!(c.encode(), b"sync irc.#a,irc.#b buffer,nicklist\n".to_vec());
}

#[test]
fn sync_bare() {
    assert_eq!(SyncCommand::new(None, vec![]).encode(), b"sync\n".to_vec());
}

#[test]
fn desync_lists() {
    let c = DesyncCommand::new(None, vec![("*".to_owned(), SyncOption::Buffers)]);
    assert_eq!(c.encode(), b"desync * buffers\n".to_vec());
}

#[test]
fn test_and_quit_are_bare_verbs() {
    assert_eq!(TestCommand::new(None).encode(), b"test\n".to_vec());
    assert_eq!(
        QuitCommand::new(Some("bye".to_owned())).encode(),
        b"(bye) quit\n".to_vec()
    );
}

#[test]
fn ping_args_are_spaced() {
    let c = PingCommand::new(None, Some(vec!["abc".to_owned(), "def".to_owned()]));
    assert_eq!(c.encode(), b"ping abc def\n".to_vec());
}

#[test]
fn ping_reply_id_is_always_pong() {
    let mut c = PingCommand::new(None, None);
    assert_eq!(c.get_id(), Some("_pong".to_owned()));
    c.set_id(Some("mine".to_owned()));
    assert_eq!(c.get_id(), Some("_pong".to_owned()));
    assert_eq!(c.encode(), b"(mine) ping\n".to_vec());
}

#[test]
fn encoding_is_deterministic() {
    let c = HdataCommand::new(
        Some("q1".to_owned()),
        "buffer".to_owned(),
        ("gui_buffers".to_owned(), Some(HdataCommandLength::Infinite)),
        vec![("lines".to_owned(), Some(HdataCommandLength::Finite(5)))],
        Some(vec!["number".to_owned(), "name".to_owned()]),
    );
    assert_eq!(c.encode(), c.encode());
    let i = InitCommand::new(None, Some("p,w".to_owned()), None);
    assert_eq!(i.encode(), i.encode());
}

#[test]
fn command_type_words() {
    assert_eq!(CommandType::Init.as_str(), "init");
    assert_eq!(CommandType::Hdata.as_str(), "hdata");
    assert_eq!(CommandType::Info.as_str(), "info");
    assert_eq!(CommandType::Infolist.as_str(), "infolist");
    assert_eq!(CommandType::Nicklist.as_str(), "nicklist");
    assert_eq!(CommandType::Input.as_str(), "input");
    assert_eq!(CommandType::Sync.as_str(), "sync");
    assert_eq!(CommandType::Desync.as_str(), "desync");
    assert_eq!(CommandType::Quit.as_str(), "quit");
}
