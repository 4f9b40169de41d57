//! The frame layer: a 4-byte big-endian total length, a 1-byte compression
//! flag, and the (possibly zlib-compressed) message body. A growable inbound
//! buffer accumulates socket bytes and hands out complete messages.
use crate::be_u32;
use crate::message::{lemma_deep_values, Message, MessageHeader, MessageView, WeechatType};
use crate::parse::{copy_range, parse_body, sp_body, WeechatErrorType};
use vstd::prelude::*;

verus! {

broadcast use crate::message::lemma_bytes_deep_view;

/// The bytes a zlib stream inflates to, if it is a well-formed stream.
/// Inflation is a function of the compressed bytes alone.
pub uninterp spec fn zlib_decoded(compressed: Seq<u8>) -> Option<Seq<u8>>;

/// Relies on libflate::zlib::Decoder: reading it to the end yields the
/// decompressed bytes of the stream, or fails on a malformed stream; the
/// result depends on the input bytes alone.
#[verifier::external_body]
fn zlib_inflate(data: &[u8]) -> (r: Option<Vec<u8>>)
    ensures
        match r {
            Some(v) => zlib_decoded(data@) == Some(v@),
            None => zlib_decoded(data@) == None::<Seq<u8>>,
        },
{
    let mut dec = match libflate::zlib::Decoder::new(data) {
        Ok(d) => d,
        Err(_) => return None,
    };
    let mut buf: Vec<u8> = Vec::new();
    match std::io::Read::read_to_end(&mut dec, &mut buf) {
        Ok(_) => Some(buf),
        Err(_) => None,
    }
}

/// The frame header at the front of `s`, when five bytes are there.
pub open spec fn sp_header(s: Seq<u8>) -> Option<MessageHeader> {
    if s.len() >= 5 {
        Some(MessageHeader { length: be_u32(s[0], s[1], s[2], s[3]), compression: s[4] })
    } else {
        None
    }
}

/// One frame at the front of `s`: `Ok(None)` while the frame is incomplete,
/// the decoded header and body of the first complete frame, or the first
/// decode error. A flag other than 0 or 1, a declared length shorter than the
/// header itself, and a compressed payload that does not inflate all fail
/// with `InvalidHeader`.
pub open spec fn sp_frame(s: Seq<u8>) -> Result<
    Option<(MessageHeader, MessageView)>,
    WeechatErrorType,
> {
    match sp_header(s) {
        None => Ok(None),
        Some(h) => if s.len() < h.length {
            Ok(None)
        } else if h.length < 5 {
            Err(WeechatErrorType::InvalidHeader)
        } else {
            let payload = s.subrange(5, h.length as int);
            if h.compression == 0 {
                sp_frame_body(h, payload)
            } else if h.compression == 1 {
                match zlib_decoded(payload) {
                    Some(d) => sp_frame_body(h, d),
                    None => Err(WeechatErrorType::InvalidHeader),
                }
            } else {
                Err(WeechatErrorType::InvalidHeader)
            }
        },
    }
}

/// The outcome of a frame whose decompressed body is `p`.
pub open spec fn sp_frame_body(h: MessageHeader, p: Seq<u8>) -> Result<
    Option<(MessageHeader, MessageView)>,
    WeechatErrorType,
> {
    match sp_body(p) {
        Ok(mv) => Ok(Some((h, mv))),
        Err(e) => Err(e),
    }
}

impl MessageHeader {
    /// Reads the frame header at the front of the buffer, if five bytes are
    /// there.
    pub fn parse(bytes: &[u8]) -> (r: Option<MessageHeader>)
        ensures
            r == sp_header(bytes@),
    {
        if bytes.len() >= 5 {
            Some(MessageHeader { length: crate::read_be_u32(bytes, 0), compression: bytes[4] })
        } else {
            None
        }
    }
}

/// The total frame length declared by the header, or 0 when fewer than five
/// bytes have arrived.
pub fn parse_length(bytes: &[u8]) -> (r: u32)
    ensures
        bytes@.len() >= 5 ==> r == be_u32(bytes@[0], bytes@[1], bytes@[2], bytes@[3]),
        bytes@.len() < 5 ==> r == 0,
{
    if bytes.len() >= 5 {
        crate::read_be_u32(bytes, 0)
    } else {
        0
    }
}

impl Message {
    /// Decodes the first frame of the buffer: `None` while it is incomplete,
    /// else the message and the count of frame bytes to discard.
    pub fn parse(bytes: &[u8]) -> (r: Result<Option<(Message, usize)>, WeechatErrorType>)
        ensures
            match r {
                Ok(None) => sp_frame(bytes@) == Ok::<
                    Option<(MessageHeader, MessageView)>,
                    WeechatErrorType,
                >(None),
                Ok(Some((m, used))) => {
                    &&& sp_frame(bytes@) == Ok::<
                        Option<(MessageHeader, MessageView)>,
                        WeechatErrorType,
                    >(Some((m.header, m@)))
                    &&& used == m.header.length
                    &&& 5 <= used <= bytes@.len()
                },
                Err(e) => sp_frame(bytes@) == Err::<
                    Option<(MessageHeader, MessageView)>,
                    WeechatErrorType,
                >(e),
            },
    {
        if bytes.len() < 5 {
            return Ok(None);
        }
        let length = crate::read_be_u32(bytes, 0);
        let compression = bytes[4];
        let header = MessageHeader { length, compression };
        if bytes.len() < length as usize {
            return Ok(None);
        }
        if length < 5 {
            return Err(WeechatErrorType::InvalidHeader);
        }
        let used = length as usize;
        let payload = copy_range(bytes, 5, used);
        let body: Vec<u8> = if compression == 0 {
            payload
        } else if compression == 1 {
            match zlib_inflate(payload.as_slice()) {
                Some(d) => d,
                None => {
                    return Err(WeechatErrorType::InvalidHeader);
                },
            }
        } else {
            return Err(WeechatErrorType::InvalidHeader);
        };
        match parse_body(body.as_slice()) {
            Err(e) => Err(e),
            Ok((id, data)) => {
                let m = Message { header, id, data };
                proof {
                    lemma_deep_values(m.data);
                }
                Ok(Some((m, used)))
            },
        }
    }
}

/// The inbound frame buffer: bytes accumulate as they arrive, and complete
/// frames are taken off the front.
pub struct WeechatCodec {
    buf: Vec<u8>,
}

impl View for WeechatCodec {
    type V = Seq<u8>;

    closed spec fn view(&self) -> Seq<u8> {
        self.buf@
    }
}

impl WeechatCodec {
    /// An empty buffer.
    pub fn new() -> (r: WeechatCodec)
        ensures
            r@ == Seq::<u8>::empty(),
    {
        WeechatCodec { buf: Vec::new() }
    }

    /// Appends newly arrived bytes.
    pub fn feed(&mut self, data: &[u8])
        ensures
            final(self)@ == old(self)@ + data@,
    {
        let mut i: usize = 0;
        while i < data.len()
            invariant
                i <= data@.len(),
                self.buf@ == old(self)@ + data@.subrange(0, i as int),
            decreases data@.len() - i,
        {
            self.buf.push(data[i]);
            proof {
                assert(old(self)@ + data@.subrange(0, i as int) + seq![data@[i as int]] =~= old(
                    self,
                )@ + data@.subrange(0, i + 1));
            }
            i = i + 1;
        }
        proof {
            assert(old(self)@ + data@.subrange(0, data@.len() as int) =~= old(self)@ + data@);
        }
    }

    /// Takes one message off the front of the buffer: `Ok(None)` while the
    /// first frame is incomplete. A decode error empties the buffer, since
    /// the stream is not self-synchronizing; the session should close.
    pub fn decode(&mut self) -> (r: Result<Option<Message>, WeechatErrorType>)
        ensures
            match r {
                Ok(None) => sp_frame(old(self)@) == Ok::<
                    Option<(MessageHeader, MessageView)>,
                    WeechatErrorType,
                >(None) && final(self)@ == old(self)@,
                Ok(Some(m)) => {
                    &&& sp_frame(old(self)@) == Ok::<
                        Option<(MessageHeader, MessageView)>,
                        WeechatErrorType,
                    >(Some((m.header, m@)))
                    &&& final(self)@ == old(self)@.skip(m.header.length as int)
                },
                Err(e) => sp_frame(old(self)@) == Err::<
                    Option<(MessageHeader, MessageView)>,
                    WeechatErrorType,
                >(e) && final(self)@ == Seq::<u8>::empty(),
            },
    {
        match Message::parse(self.buf.as_slice()) {
            Ok(None) => Ok(None),
            Ok(Some((m, used))) => {
                let rest = copy_range(self.buf.as_slice(), used, self.buf.len());
                self.buf = rest;
                proof {
                    assert(self.buf@ =~= old(self)@.skip(m.header.length as int));
                }
                Ok(Some(m))
            },
            Err(e) => {
                self.buf = Vec::new();
                Err(e)
            },
        }
    }
}

} // verus!
