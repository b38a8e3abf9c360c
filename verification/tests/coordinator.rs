use chat_server::server::{
    HELP, HELP_COMMAND, INVALID_COMMAND, INVALID_LIST, LIST, NAME_TAKEN, PROMPT, QUIT,
};
use chat_server::{Action, ChatServer, EncryptedStream, Message, SharedSecret};

fn stream(secret: u128) -> EncryptedStream {
    EncryptedStream::from_secret(SharedSecret::from_value(secret))
}

fn text(s: &str) -> Message {
    Message::Text(s.to_string())
}

/// The sends among `actions` as (address, text), sorted by address; panics on
/// a frame that is not the text sealed for that address.
fn sends(actions: &[Action], secrets: &[(u64, u128)]) -> Vec<(u64, String)> {
    let mut out = Vec::new();
    for action in actions {
        if let Action::Send { to, text, frame } = action {
            let secret = secrets.iter().find(|(a, _)| a == to).unwrap().1;
            assert_eq!(frame, &stream(secret).send(text));
            out.push((*to, text.clone()));
        }
    }
    out.sort();
    out
}

fn closes(actions: &[Action]) -> Vec<u64> {
    let mut out = Vec::new();
    for action in actions {
        if let Action::CloseRead { addr } = action {
            out.push(*addr);
        }
    }
    out
}

const SECRETS: [(u64, u128); 4] = [(1, 1001), (2, 2002), (3, 3003), (4, 4004)];

/// A server with sessions 1 ("alice"), 2 ("bob") and 3 (no name yet).
fn three_sessions() -> ChatServer {
    let mut server = ChatServer::new();
    for (addr, secret) in &SECRETS[..3] {
        server.handle_msg(*addr, Message::Connected(stream(*secret)));
    }
    assert!(server.handle_msg(1, text("alice")).is_empty());
    assert!(server.handle_msg(2, text("bob")).is_empty());
    server
}

#[test]
fn literal_replies() {
    assert_eq!(PROMPT, "Enter username: ");
    assert_eq!(NAME_TAKEN, "Username taken!\nEnter username: ");
    assert_eq!(INVALID_LIST, "Invalid command. Type /help for help.\n");
    assert_eq!(INVALID_COMMAND, "Invalid command! Type /help for help.\n");
    assert_eq!(
        HELP,
        "
                    /quit - quit the chat
                    /list - list usernames
                    /help - show this help message"
    );
    assert_eq!((QUIT, LIST, HELP_COMMAND), ("/quit", "/list", "/help"));
}

#[test]
fn new_server_is_empty() {
    let server = ChatServer::new();
    assert_eq!(server.session_count(), 0);
    assert!(!server.is_registered(1));
    assert_eq!(server.username_of(1), None);
    assert_eq!(server.read_side_open(1), None);
}

#[test]
fn default_server_is_empty() {
    let server = ChatServer::default();
    assert_eq!(server.session_count(), 0);
    assert!(!server.is_registered(0));
}

#[test]
fn connect_registers_without_a_name_and_prompts() {
    let mut server = ChatServer::new();
    let actions = server.handle_msg(7, Message::Connected(stream(70)));
    assert_eq!(sends(&actions, &[(7, 70)]), vec![(7, "Enter username: ".to_string())]);
    assert_eq!(actions.len(), 1);
    assert!(server.is_registered(7));
    assert_eq!(server.username_of(7), None);
    assert_eq!(server.read_side_open(7), Some(true));
    assert_eq!(server.session_count(), 1);
}

#[test]
fn first_text_becomes_the_name_without_an_answer() {
    let mut server = ChatServer::new();
    server.handle_msg(7, Message::Connected(stream(70)));
    let actions = server.handle_msg(7, text("alice"));
    assert!(actions.is_empty());
    assert_eq!(server.username_of(7), Some("alice".to_string()));
}

#[test]
fn taken_name_is_refused_and_proposer_stays_unnamed() {
    let mut server = three_sessions();
    let actions = server.handle_msg(3, text("alice"));
    assert_eq!(
        sends(&actions, &SECRETS),
        vec![(3, "Username taken!\nEnter username: ".to_string())]
    );
    assert_eq!(actions.len(), 1);
    assert_eq!(server.username_of(3), None);
    assert_eq!(server.username_of(1), Some("alice".to_string()));
    let actions = server.handle_msg(3, text("carol"));
    assert!(actions.is_empty());
    assert_eq!(server.username_of(3), Some("carol".to_string()));
}

#[test]
fn names_are_case_sensitive() {
    let mut server = three_sessions();
    assert!(server.handle_msg(3, text("Alice")).is_empty());
    assert_eq!(server.username_of(3), Some("Alice".to_string()));
}

#[test]
fn a_name_is_free_again_after_its_holder_left() {
    let mut server = three_sessions();
    server.handle_msg(1, Message::Disconnected);
    assert!(server.handle_msg(3, text("alice")).is_empty());
    assert_eq!(server.username_of(3), Some("alice".to_string()));
}

#[test]
fn a_command_may_be_a_name() {
    let mut server = ChatServer::new();
    server.handle_msg(1, Message::Connected(stream(1001)));
    assert!(server.handle_msg(1, text("/quit")).is_empty());
    assert_eq!(server.username_of(1), Some("/quit".to_string()));
    assert_eq!(server.read_side_open(1), Some(true));
}

#[test]
fn broadcast_reaches_every_other_session_once() {
    let mut server = three_sessions();
    let actions = server.handle_msg(1, text("hello"));
    assert_eq!(actions.len(), 2);
    assert_eq!(
        sends(&actions, &SECRETS),
        vec![(2, "alice: hello".to_string()), (3, "alice: hello".to_string())]
    );
    assert!(closes(&actions).is_empty());
    assert_eq!(server.session_count(), 3);
    assert_eq!(server.username_of(1), Some("alice".to_string()));
}

#[test]
fn broadcast_frames_are_sealed_per_recipient() {
    let mut server = three_sessions();
    let actions = server.handle_msg(2, text("hi"));
    for action in &actions {
        match action {
            Action::Send { to, text, frame } => {
                let secret = SECRETS.iter().find(|(a, _)| a == to).unwrap().1;
                assert_eq!(text, "bob: hi");
                assert_eq!(stream(secret).recv(frame), Ok(Some("bob: hi".to_string())));
            }
            Action::CloseRead { .. } => panic!("no read side is shut by a chat message"),
        }
    }
    assert_eq!(actions.len(), 2);
}

#[test]
fn broadcast_with_nobody_else_sends_nothing() {
    let mut server = ChatServer::new();
    server.handle_msg(1, Message::Connected(stream(1001)));
    server.handle_msg(1, text("alice"));
    assert!(server.handle_msg(1, text("hello")).is_empty());
}

#[test]
fn broadcast_among_many() {
    let mut server = ChatServer::new();
    let mut secrets = Vec::new();
    for addr in 0..50u64 {
        secrets.push((addr, 1000 + addr as u128));
        server.handle_msg(addr, Message::Connected(stream(1000 + addr as u128)));
    }
    server.handle_msg(17, text("u17"));
    let actions = server.handle_msg(17, text("hello"));
    let got = sends(&actions, &secrets);
    assert_eq!(actions.len(), 49);
    let want: Vec<(u64, String)> =
        (0..50u64).filter(|a| *a != 17).map(|a| (a, "u17: hello".to_string())).collect();
    assert_eq!(got, want);
}

#[test]
fn empty_text_from_a_named_session_does_nothing() {
    let mut server = three_sessions();
    assert!(server.handle_msg(1, text("")).is_empty());
    assert_eq!(server.session_count(), 3);
    assert_eq!(server.username_of(1), Some("alice".to_string()));
    assert_eq!(server.read_side_open(1), Some(true));
    assert!(server.handle_chat_msg(1, "").is_empty());
}

#[test]
fn empty_text_from_an_unnamed_session_proposes_the_empty_name() {
    let mut server = three_sessions();
    assert!(server.handle_msg(3, text("")).is_empty());
    assert_eq!(server.username_of(3), Some(String::new()));
    server.handle_msg(4, Message::Connected(stream(4004)));
    let actions = server.handle_msg(4, text(""));
    assert_eq!(sends(&actions, &SECRETS), vec![(4, NAME_TAKEN.to_string())]);
    assert_eq!(server.username_of(4), None);
}

#[test]
fn help_yields_the_help_text() {
    let mut server = three_sessions();
    let actions = server.handle_msg(1, text("/help"));
    assert_eq!(actions.len(), 1);
    assert_eq!(sends(&actions, &SECRETS), vec![(1, HELP.to_string())]);
    assert_eq!(server.session_count(), 3);
}

#[test]
fn list_yields_its_own_refusal() {
    let mut server = three_sessions();
    let actions = server.handle_msg(1, text("/list"));
    assert_eq!(actions.len(), 1);
    assert_eq!(
        sends(&actions, &SECRETS),
        vec![(1, "Invalid command. Type /help for help.\n".to_string())]
    );
}

#[test]
fn unknown_command_is_refused_without_a_change() {
    let mut server = three_sessions();
    for command in ["/foo", "/", "/quit ", "/QUIT", "/help me", "//"] {
        let actions = server.handle_msg(2, text(command));
        assert_eq!(actions.len(), 1, "{:?}", command);
        assert_eq!(
            sends(&actions, &SECRETS),
            vec![(2, "Invalid command! Type /help for help.\n".to_string())]
        );
    }
    assert_eq!(server.session_count(), 3);
    assert_eq!(server.username_of(2), Some("bob".to_string()));
    assert_eq!(server.read_side_open(2), Some(true));
}

#[test]
fn quit_shuts_the_read_side_and_the_disconnect_removes() {
    let mut server = three_sessions();
    let actions = server.handle_msg(1, text("/quit"));
    assert_eq!(closes(&actions), vec![1]);
    assert_eq!(actions.len(), 1);
    assert!(server.is_registered(1));
    assert_eq!(server.username_of(1), Some("alice".to_string()));
    assert_eq!(server.read_side_open(1), Some(false));
    assert_eq!(server.read_side_open(2), Some(true));
    let actions = server.handle_msg(1, Message::Disconnected);
    assert!(actions.is_empty());
    assert!(!server.is_registered(1));
    assert_eq!(server.session_count(), 2);
    assert_eq!(server.username_of(2), Some("bob".to_string()));
    assert!(server.is_registered(3));
}

#[test]
fn a_session_that_quit_still_gets_broadcasts_until_it_is_removed() {
    let mut server = three_sessions();
    server.handle_msg(1, text("/quit"));
    let actions = server.handle_msg(2, text("bye"));
    assert_eq!(
        sends(&actions, &SECRETS),
        vec![(1, "bob: bye".to_string()), (3, "bob: bye".to_string())]
    );
}

#[test]
fn disconnect_is_idempotent() {
    let mut server = three_sessions();
    assert!(server.handle_msg(9, Message::Disconnected).is_empty());
    assert_eq!(server.session_count(), 3);
    assert!(server.handle_msg(2, Message::Disconnected).is_empty());
    assert!(server.handle_msg(2, Message::Disconnected).is_empty());
    assert_eq!(server.session_count(), 2);
    assert!(!server.is_registered(2));
}

#[test]
fn unnamed_sessions_receive_broadcasts() {
    let mut server = three_sessions();
    let actions = server.handle_msg(2, text("anyone?"));
    let got = sends(&actions, &SECRETS);
    assert!(got.contains(&(3, "bob: anyone?".to_string())));
}

#[test]
fn handle_chat_msg_dispatches_like_handle_msg() {
    let mut server = three_sessions();
    let actions = server.handle_chat_msg(1, "hello");
    assert_eq!(
        sends(&actions, &SECRETS),
        vec![(2, "alice: hello".to_string()), (3, "alice: hello".to_string())]
    );
    let actions = server.handle_chat_msg(1, "/help");
    assert_eq!(sends(&actions, &SECRETS), vec![(1, HELP.to_string())]);
    let actions = server.handle_chat_msg(3, "/list");
    assert_eq!(sends(&actions, &SECRETS), vec![(3, INVALID_LIST.to_string())]);
    let actions = server.handle_chat_msg(1, "/quit");
    assert_eq!(closes(&actions), vec![1]);
    assert_eq!(server.read_side_open(1), Some(false));
}

#[test]
fn reconnecting_address_starts_over() {
    let mut server = three_sessions();
    let actions = server.handle_msg(1, Message::Connected(stream(5005)));
    assert_eq!(sends(&actions, &[(1, 5005)]), vec![(1, PROMPT.to_string())]);
    assert_eq!(server.username_of(1), None);
    assert_eq!(server.session_count(), 3);
}
