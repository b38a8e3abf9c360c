use chat_server::frame::{char_is_whitespace, frame_payload, read_frame, trim_trailing};
use chat_server::text::{make_chat_line, starts_with_slash, str_eq};
use chat_server::{EncryptedStream, HandshakeError, KeyPair, RecvError, SharedSecret};

fn stream(secret: u128) -> EncryptedStream {
    EncryptedStream::from_secret(SharedSecret::from_value(secret))
}

#[test]
fn frame_pads_with_spaces() {
    assert_eq!(frame_payload(b"hello"), b"hello           ".to_vec());
    assert_eq!(frame_payload(b""), b"                ".to_vec());
    assert_eq!(frame_payload(b"0123456789abcdef"), b"0123456789abcdef".to_vec());
}

#[test]
fn frame_truncates_long_payloads() {
    assert_eq!(frame_payload(b"0123456789abcdefXYZ"), b"0123456789abcdef".to_vec());
}

#[test]
fn whitespace_is_the_unicode_property() {
    for c in [' ', '\t', '\n', '\r', '\u{b}', '\u{c}', '\u{85}', '\u{a0}', '\u{1680}', '\u{2000}',
        '\u{200a}', '\u{2028}', '\u{2029}', '\u{202f}', '\u{205f}', '\u{3000}']
    {
        assert!(char_is_whitespace(c), "{:?}", c);
    }
    for c in ['a', '0', '\0', '\u{8}', '\u{e}', '\u{1f}', '!', '\u{84}', '\u{200b}', '\u{2060}',
        '\u{feff}']
    {
        assert!(!char_is_whitespace(c), "{:?}", c);
    }
}

#[test]
fn whitespace_agrees_with_std_on_every_char() {
    let mut code: u32 = 0;
    while code <= 0x10ffff {
        if let Some(c) = char::from_u32(code) {
            assert_eq!(char_is_whitespace(c), c.is_whitespace(), "{:#x}", code);
        }
        code += 1;
    }
}

#[test]
fn trimming_drops_only_the_end() {
    assert_eq!(trim_trailing("hi  "), "hi");
    assert_eq!(trim_trailing("  hi"), "  hi");
    assert_eq!(trim_trailing("a b \t\n"), "a b");
    assert_eq!(trim_trailing("   "), "");
    assert_eq!(trim_trailing(""), "");
    assert_eq!(trim_trailing("x\u{3000}\u{a0}"), "x");
    assert_eq!(trim_trailing("héllo "), "héllo");
}

#[test]
fn read_frame_decodes_and_trims() {
    assert_eq!(read_frame(b"hello           ".to_vec()), Some("hello".to_string()));
    assert_eq!(read_frame(b"                ".to_vec()), Some(String::new()));
    assert_eq!(read_frame("héllo".as_bytes().to_vec()), Some("héllo".to_string()));
}

#[test]
fn read_frame_skips_what_is_not_text() {
    assert_eq!(read_frame(vec![0xff, 0xfe, 0x20, 0x20]), None);
    assert_eq!(read_frame(vec![0xc3]), None);
    assert_eq!(read_frame(vec![b'a', 0x80]), None);
}

#[test]
fn read_frame_draws_the_line_of_utf8_where_std_does() {
    assert_eq!(read_frame(vec![0xc0, 0x80]), None);
    assert_eq!(read_frame(vec![0xe0, 0x80, 0x80]), None);
    assert_eq!(read_frame(vec![0xed, 0xa0, 0x80]), None);
    assert_eq!(read_frame(vec![0xf4, 0x90, 0x80, 0x80]), None);
    assert_eq!(read_frame(vec![0xf8, 0x88, 0x80, 0x80, 0x80]), None);
    assert_eq!(read_frame(vec![0xf0, 0x9f, 0x98, 0x80]), Some("\u{1f600}".to_string()));
    assert_eq!(read_frame(vec![0xf4, 0x8f, 0xbf, 0xbf]), Some("\u{10ffff}".to_string()));
    assert_eq!(read_frame(vec![0xed, 0x9f, 0xbf]), Some("\u{d7ff}".to_string()));
    assert_eq!(read_frame(vec![0]), Some("\0".to_string()));
    assert_eq!(read_frame(vec![]), Some(String::new()));
}

#[test]
fn encryption_changes_the_bytes_and_decryption_restores_them() {
    let secret = SharedSecret::from_value(20296742465100339851977090886115360999);
    let plain = b"hello           ".to_vec();
    let sealed = secret.encrypt(&plain);
    assert_eq!(
        sealed,
        vec![103, 32, 110, 198, 74, 56, 159, 160, 72, 164, 40, 80, 215, 89, 160, 199]
    );
    assert_ne!(sealed, plain);
    assert_eq!(secret.decrypt(&sealed), plain);
}

#[test]
fn encryption_keeps_the_length_and_repeats_the_key() {
    let secret = SharedSecret::from_value(0x0102030405060708090a0b0c0d0e0f10);
    assert_eq!(secret.encrypt(&[]), Vec::<u8>::new());
    assert_eq!(secret.encrypt(&[0, 0, 0]), vec![1, 2, 3]);
    let long = vec![0u8; 18];
    let sealed = secret.encrypt(&long);
    assert_eq!(sealed.len(), 18);
    assert_eq!(sealed[16], 1);
    assert_eq!(sealed[17], 2);
    assert_eq!(secret.decrypt(&sealed), long);
}

#[test]
fn send_writes_exactly_one_frame() {
    let s = stream(77);
    assert_eq!(s.send("hi").len(), 16);
    assert_eq!(s.send("").len(), 16);
    assert_eq!(s.send("a message that is much longer than a frame").len(), 16);
}

#[test]
fn send_is_deterministic() {
    let s = stream(123456789);
    assert_eq!(s.send("hello"), s.send("hello"));
    assert_ne!(s.send("hello"), s.send("hellp"));
    assert_ne!(s.send("hello"), stream(987654321).send("hello"));
}

#[test]
fn text_survives_the_round_trip() {
    let s = stream(20296742465100339851977090886115360999);
    for text in ["hello", "a", "0123456789abcdef", "héllo wörld", "  lead", "/quit", "x y z"] {
        let frame = s.send(text);
        assert_eq!(s.recv(&frame), Ok(Some(text.to_string())), "{:?}", text);
    }
}

#[test]
fn trailing_whitespace_is_lost_on_the_round_trip() {
    let s = stream(42);
    assert_eq!(s.recv(&s.send("hi  ")), Ok(Some("hi".to_string())));
    assert_eq!(s.recv(&s.send("hi\n")), Ok(Some("hi".to_string())));
    assert_eq!(s.recv(&s.send("   ")), Ok(Some(String::new())));
    assert_eq!(s.recv(&s.send("")), Ok(Some(String::new())));
}

#[test]
fn long_text_is_truncated_to_one_frame() {
    let s = stream(42);
    let frame = s.send("0123456789abcdefghij");
    assert_eq!(s.recv(&frame), Ok(Some("0123456789abcdef".to_string())));
    let frame = s.send("Username taken!\nEnter username: ");
    assert_eq!(s.recv(&frame), Ok(Some("Username taken!".to_string())));
}

#[test]
fn text_cut_inside_a_character_is_skipped() {
    let s = stream(42);
    let frame = s.send("0123456789abcdeé");
    assert_eq!(s.recv(&frame), Ok(None));
}

#[test]
fn undecodable_frame_is_not_an_error() {
    let secret = SharedSecret::from_value(99);
    let s = EncryptedStream::from_secret(secret);
    let frame = secret.encrypt(&[0xffu8; 16]);
    assert_eq!(s.recv(&frame), Ok(None));
}

#[test]
fn wrong_key_does_not_read_the_text() {
    let a = stream(1 << 100);
    let b = stream(3 << 100);
    let frame = a.send("hello");
    assert_ne!(b.recv(&frame), Ok(Some("hello".to_string())));
}

#[test]
fn recv_fails_on_end_of_stream() {
    assert_eq!(stream(5).recv(&[]), Err(RecvError::EndOfStream));
}

#[test]
fn recv_fails_on_a_partial_frame() {
    assert_eq!(stream(5).recv(&[1, 2, 3]), Err(RecvError::BadFrameLength));
    assert_eq!(stream(5).recv(&[0u8; 17]), Err(RecvError::BadFrameLength));
}

#[test]
fn recv_fails_after_close() {
    let mut s = stream(5);
    let frame = s.send("hello");
    assert!(s.read_side_open());
    s.close();
    assert!(!s.read_side_open());
    assert_eq!(s.recv(&frame), Err(RecvError::Closed));
    assert_eq!(s.recv(&[]), Err(RecvError::Closed));
    assert_eq!(s.send("hello"), frame);
}

#[test]
fn clone_shares_secret_and_framing() {
    let reader = stream(31337);
    let writer = reader.try_clone();
    assert_eq!(writer.shared_secret().to_value(), 31337);
    assert_eq!(writer.read_side_open(), reader.read_side_open());
    assert_eq!(reader.recv(&writer.send("ping")), Ok(Some("ping".to_string())));
    assert_eq!(writer.recv(&reader.send("pong")), Ok(Some("pong".to_string())));
}

#[test]
fn clone_of_a_closed_handle_is_closed() {
    let mut s = stream(1);
    s.close();
    assert!(!s.try_clone().read_side_open());
}

#[test]
fn handshake_yields_matching_streams() {
    let alice = KeyPair::from_scalar(0x5eed_0001).unwrap();
    let bob = KeyPair::from_scalar(0x5eed_0002_0000_0000_0000).unwrap();
    let alice_block = alice.public_block();
    let bob_block = bob.public_block();
    let a = EncryptedStream::establish(alice, 16, &bob_block).unwrap();
    let b = EncryptedStream::establish(bob, 16, &alice_block).unwrap();
    assert_eq!(a.shared_secret().to_value(), b.shared_secret().to_value());
    assert!(a.read_side_open());
    assert_eq!(b.recv(&a.send("hello bob")), Ok(Some("hello bob".to_string())));
    assert_eq!(a.recv(&b.send("hi alice")), Ok(Some("hi alice".to_string())));
}

#[test]
fn handshake_fails_on_a_short_write() {
    let block = KeyPair::from_scalar(12345).unwrap().public_block();
    for written in [0usize, 1, 15, 17] {
        let pair = KeyPair::from_scalar(777).unwrap();
        let r = EncryptedStream::establish(pair, written, &block);
        assert_eq!(r.err(), Some(HandshakeError::ShortWrite));
    }
}

#[test]
fn handshake_fails_on_a_short_read() {
    let block = KeyPair::from_scalar(12345).unwrap().public_block();
    for n in [0usize, 1, 15] {
        let pair = KeyPair::from_scalar(777).unwrap();
        let r = EncryptedStream::establish(pair, 16, &block[..n]);
        assert_eq!(r.err(), Some(HandshakeError::ShortRead));
    }
    let pair = KeyPair::from_scalar(777).unwrap();
    let r = EncryptedStream::establish(pair, 16, &[0u8; 17]);
    assert_eq!(r.err(), Some(HandshakeError::ShortRead));
}

#[test]
fn short_write_is_reported_before_short_read() {
    let pair = KeyPair::from_scalar(777).unwrap();
    let r = EncryptedStream::establish(pair, 3, &[]);
    assert_eq!(r.err(), Some(HandshakeError::ShortWrite));
}

#[test]
fn peer_public_value_is_taken_as_it_comes() {
    let pair = KeyPair::from_scalar(777).unwrap();
    let s = EncryptedStream::establish(pair, 16, &[0u8; 16]).unwrap();
    assert_eq!(s.shared_secret().to_value(), 0);
    let pair = KeyPair::from_scalar(777).unwrap();
    let s = EncryptedStream::establish(pair, 16, &[255u8; 16]).unwrap();
    assert_eq!(
        s.shared_secret().to_value(),
        chat_server::modular::mod_pow(u128::MAX, 777, chat_server::key_exchange::MODULUS)
    );
}

#[test]
fn text_helpers() {
    assert!(str_eq("/quit", "/quit"));
    assert!(!str_eq("/quit", "/quit "));
    assert!(!str_eq("/quit", "/quiT"));
    assert!(str_eq("", ""));
    assert!(starts_with_slash("/"));
    assert!(starts_with_slash("/help"));
    assert!(!starts_with_slash(""));
    assert!(!starts_with_slash(" /help"));
    assert_eq!(make_chat_line("alice", "hello"), "alice: hello");
    assert_eq!(make_chat_line("", ""), ": ");
}
