//! One end of an encrypted connection, without the socket.
//!
//! An [`EncryptedStream`] holds what a connection needs besides its byte
//! stream: the shared secret and whether the read side is still open. The
//! caller moves the bytes; the stream says which bytes to write and what the
//! bytes that arrived mean.

use crate::cipher::{decrypted, encrypted, lemma_decrypt_encrypt};
use crate::frame::{
    frame_payload, frame_text, lemma_padding_is_invisible, pad_frame, read_frame, trim_end, PAD,
};
use crate::key_exchange::{shared_secret_of, KeyPair, SharedSecret};
use crate::wire::{be_value, decode_block, BLOCK_WIDTH};
use vstd::prelude::*;
use vstd::string::*;
use vstd::utf8::*;

verus! {

/// Why a handshake did not produce a stream.
#[derive(Clone, Copy, Debug, PartialEq, Eq, Structural)]
pub enum HandshakeError {
    /// The local public value did not go out as one whole block.
    ShortWrite,
    /// The peer's public value did not arrive as one whole block.
    ShortRead,
}

/// Why no frame could be taken from the connection. Each of these ends the
/// connection.
#[derive(Clone, Copy, Debug, PartialEq, Eq, Structural)]
pub enum RecvError {
    /// The read side of this stream was closed.
    Closed,
    /// The peer closed the connection: no byte arrived.
    EndOfStream,
    /// Fewer or more bytes than one frame arrived.
    BadFrameLength,
}

/// The frame that carries `text` under `secret`.
pub open spec fn sealed_frame(secret: SharedSecret, text: Seq<char>) -> Seq<u8> {
    encrypted(secret, pad_frame(encode_utf8(text)))
}

/// The text that the frame `raw` holds under `secret`, if it holds any.
pub open spec fn opened_frame(secret: SharedSecret, raw: Seq<u8>) -> Option<Seq<char>> {
    frame_text(decrypted(secret, raw))
}

/// What a read delivered, with the text as contracts see it.
pub open spec fn delivery(result: Result<Option<String>, RecvError>) -> Result<
    Option<Seq<char>>,
    RecvError,
> {
    match result {
        Ok(text) => Ok(text.deep_view()),
        Err(e) => Err(e),
    }
}

/// Encrypting then decrypting a payload that fits the frame gives back the
/// payload, followed by padding up to the frame width. Read as text that is
/// what the payload itself holds, up to trailing whitespace: its text with
/// the whitespace at the end trimmed, or nothing where it is not UTF-8.
pub proof fn lemma_frame_round_trip(secret: SharedSecret, payload: Seq<u8>)
    requires
        payload.len() <= BLOCK_WIDTH,
    ensures
        ({
            let back = decrypted(secret, encrypted(secret, pad_frame(payload)));
            &&& back.len() == BLOCK_WIDTH
            &&& back.take(payload.len() as int) == payload
            &&& forall|i: int| payload.len() <= i < BLOCK_WIDTH ==> back[i] == PAD
            &&& frame_text(back) == frame_text(payload)
        }),
{
    lemma_decrypt_encrypt(secret, pad_frame(payload));
    lemma_padding_is_invisible(payload);
    assert(pad_frame(payload).take(payload.len() as int) =~= payload);
}

/// A text that fits the frame arrives as it was sent, without its trailing
/// whitespace.
pub proof fn lemma_send_recv_round_trip(secret: SharedSecret, text: Seq<char>)
    requires
        encode_utf8(text).len() <= BLOCK_WIDTH,
    ensures
        opened_frame(secret, sealed_frame(secret, text)) == Some(trim_end(text)),
{
    lemma_frame_round_trip(secret, encode_utf8(text));
    encode_utf8_valid_utf8(text);
    encode_utf8_decode_utf8(text);
}

/// The protocol state of one end of a connection.
#[derive(Debug)]
pub struct EncryptedStream {
    secret: SharedSecret,
    read_open: bool,
}

impl EncryptedStream {
    /// The secret that this end shares with its peer.
    pub closed spec fn secret(&self) -> SharedSecret {
        self.secret
    }

    /// Whether frames may still be read through this handle.
    pub closed spec fn is_open(&self) -> bool {
        self.read_open
    }

    /// What `raw`, the bytes of one read from the transport, means to this
    /// stream.
    pub open spec fn received(self, raw: Seq<u8>) -> Result<Option<Seq<char>>, RecvError> {
        if !self.is_open() {
            Err(RecvError::Closed)
        } else if raw.len() == 0 {
            Err(RecvError::EndOfStream)
        } else if raw.len() != BLOCK_WIDTH {
            Err(RecvError::BadFrameLength)
        } else {
            Ok(opened_frame(self.secret(), raw))
        }
    }

    /// This stream with its read side closed.
    pub closed spec fn closed(self) -> EncryptedStream {
        EncryptedStream { secret: self.secret, read_open: false }
    }

    /// Closing keeps the secret and shuts the read side.
    pub proof fn lemma_closed(self)
        ensures
            self.closed().secret() == self.secret(),
            !self.closed().is_open(),
            self.closed().closed() == self.closed(),
    {
    }

    /// Completes the handshake. `pair` is the local key pair whose public
    /// block was handed to the transport, `written` the number of bytes that
    /// the transport accepted of it, and `received` what arrived from the
    /// peer in answer. Anything but one whole block in each direction fails
    /// the handshake; the peer's public value itself is taken as it comes.
    pub fn establish(pair: KeyPair, written: usize, received: &[u8]) -> (result: Result<
        EncryptedStream,
        HandshakeError,
    >)
        ensures
            written != BLOCK_WIDTH ==> result == Err::<EncryptedStream, HandshakeError>(
                HandshakeError::ShortWrite,
            ),
            written == BLOCK_WIDTH && received@.len() != BLOCK_WIDTH ==> result == Err::<
                EncryptedStream,
                HandshakeError,
            >(HandshakeError::ShortRead),
            written == BLOCK_WIDTH && received@.len() == BLOCK_WIDTH ==> (result matches Ok(s)
                && s.is_open() && s.secret().value() == shared_secret_of(
                pair.private_scalar(),
                be_value(received@),
            )),
    {
        if written != BLOCK_WIDTH {
            return Err(HandshakeError::ShortWrite);
        }
        match decode_block(received) {
            None => Err(HandshakeError::ShortRead),
            Some(peer_public) => {
                let secret = pair.agree(peer_public);
                Ok(EncryptedStream { secret, read_open: true })
            },
        }
    }

    /// A stream over key material that was agreed on elsewhere, with its
    /// read side open.
    pub fn from_secret(secret: SharedSecret) -> (stream: EncryptedStream)
        ensures
            stream.secret() == secret,
            stream.is_open(),
    {
        EncryptedStream { secret, read_open: true }
    }

    /// Whether frames may still be read through this handle.
    pub fn read_side_open(&self) -> (open: bool)
        ensures
            open == self.is_open(),
    {
        self.read_open
    }

    /// The secret that this end shares with its peer.
    pub fn shared_secret(&self) -> (secret: SharedSecret)
        ensures
            secret == self.secret(),
    {
        self.secret
    }

    /// Shuts the read side of this handle. The secret stays, so the handle
    /// can still send.
    pub fn close(&mut self)
        ensures
            *final(self) == old(self).closed(),
            final(self).secret() == old(self).secret(),
            !final(self).is_open(),
    {
        self.read_open = false;
    }

    /// The one frame to write for `msg`. Text longer than a frame is cut off
    /// at the frame width.
    pub fn send(&self, msg: &str) -> (frame: Vec<u8>)
        ensures
            frame@ == sealed_frame(self.secret(), msg@),
            frame@.len() == BLOCK_WIDTH,
    {
        let plain = frame_payload(msg.as_bytes());
        self.secret.encrypt(plain.as_slice())
    }

    /// A second handle on the same connection: same secret, same framing,
    /// same state of the read side.
    pub fn try_clone(&self) -> (copy: EncryptedStream)
        ensures
            copy == *self,
    {
        EncryptedStream { secret: self.secret, read_open: self.read_open }
    }

    /// Interprets what one read from the transport delivered. A closed
    /// handle, an empty read and a partial frame are failures that end the
    /// connection. One whole frame gives the text it holds, or `None` where
    /// its content is not text: such a frame is skipped and reading goes on.
    pub fn recv(&self, raw: &[u8]) -> (result: Result<Option<String>, RecvError>)
        ensures
            delivery(result) == self.received(raw@),
    {
        if !self.read_open {
            return Err(RecvError::Closed);
        }
        if raw.len() == 0 {
            return Err(RecvError::EndOfStream);
        }
        if raw.len() != BLOCK_WIDTH {
            return Err(RecvError::BadFrameLength);
        }
        let plain = self.secret.decrypt(raw);
        Ok(read_frame(plain))
    }
}

} // verus!
