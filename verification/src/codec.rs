//! The IPC frame codec: 8-byte header, compression policy and strict or
//! lenient header validation.
//!
//! [`KdbCodec::decode_frame`] is incremental: on a short buffer it answers
//! "need more data" (`Ok(None)`) — exactly when fewer than 8 bytes have
//! arrived or the declared frame length has not been reached — and
//! otherwise consumes exactly one frame.  [`KdbCodec::encode_message`]
//! emits the frame that the configured compression policy prescribes.

use vstd::prelude::*;
use vstd::string::StringExecFns;
use crate::endian::{uint_bytes, uint_value, read_uint, write_uint, pow256, lemma_pow256_8,
    lemma_uint_bytes_len};
use crate::error::Error;
use crate::qtype;
use crate::types::{K, wf, kheight, lists_bounded};
use crate::serialize::{ser, ENCODING};
use crate::deserialize::{q_ipc_decode_sync, MAX_LIST_SIZE, MAX_RECURSION_DEPTH};
pub use crate::compress::{compress_sync, decompress_sync};

verus! {

/// Size of the IPC message header in bytes.
pub const HEADER_SIZE: usize = 8;

/// Frames whose total size is above this threshold may be compressed.
pub const COMPRESSION_THRESHOLD: usize = 2000;

/// Default ceiling on a declared frame length (256 MiB).
pub const MAX_MESSAGE_SIZE: usize = 268435456;

/// Default ceiling on a declared decompressed size (512 MiB).
pub const MAX_DECOMPRESSED_SIZE: usize = 536870912;

/// Compression behavior for outgoing messages.
#[derive(Debug, Clone, Copy, PartialEq, Eq, Structural)]
pub enum CompressionMode {
    /// Compress large messages on remote connections only.
    Auto,
    /// Compress every message above the threshold.
    Always,
    /// Never compress.
    Never,
}

impl Default for CompressionMode {
    fn default() -> (r: CompressionMode)
        ensures
            r == CompressionMode::Auto,
    {
        CompressionMode::Auto
    }
}

/// Validation strictness for incoming headers.
#[derive(Debug, Clone, Copy, PartialEq, Eq, Structural)]
pub enum ValidationMode {
    /// Reject a compressed flag above 1 and a message type above 2.
    Strict,
    /// Accept any compressed flag and message type.
    Lenient,
}

impl Default for ValidationMode {
    fn default() -> (r: ValidationMode)
        ensures
            r == ValidationMode::Strict,
    {
        ValidationMode::Strict
    }
}

/// Header of a q IPC frame.
#[derive(Debug, Clone, Copy)]
pub struct MessageHeader {
    /// 0: big-endian, 1: little-endian.
    pub encoding: u8,
    /// 0: asynchronous, 1: synchronous, 2: response.
    pub message_type: u8,
    /// 0: uncompressed, 1: compressed.
    pub compressed: u8,
    /// Reserved.
    pub _unused: u8,
    /// Total frame length including this header, in the byte order named by
    /// `encoding`.
    pub length: u32,
}

/// The 8 bytes of a header on the wire.
pub open spec fn header_bytes(h: MessageHeader) -> Seq<u8> {
    seq![h.encoding, h.message_type, h.compressed, h._unused] + uint_bytes(
        h.length as nat,
        4,
        h.encoding,
    )
}

impl MessageHeader {
    /// Size of the message header in bytes.
    pub fn size() -> (r: usize)
        ensures
            r == HEADER_SIZE,
    {
        HEADER_SIZE
    }

    /// Parse a header from the first 8 bytes of a buffer.
    pub fn from_bytes(buf: &[u8]) -> (r: Result<MessageHeader, Error>)
        ensures
            match r {
                Ok(h) => {
                    &&& buf@.len() >= 8
                    &&& h.encoding == buf@[0]
                    &&& h.message_type == buf@[1]
                    &&& h.compressed == buf@[2]
                    &&& h._unused == buf@[3]
                    &&& h.length as nat == uint_value(buf@.subrange(4, 8), buf@[0])
                },
                Err(er) => buf@.len() < 8 && er is InvalidMessageSize,
            },
    {
        if buf.len() < HEADER_SIZE {
            return Err(Error::InvalidMessageSize);
        }
        let encoding = buf[0];
        proof {
            lemma_pow256_8();
        }
        let length_u64 = read_uint(buf, 4, 4, encoding);
        Ok(
            MessageHeader {
                encoding,
                message_type: buf[1],
                compressed: buf[2],
                _unused: buf[3],
                length: #[verifier::truncate] (length_u64 as u32),
            },
        )
    }

    /// Serialize the header to its 8 wire bytes.
    pub fn to_bytes(&self) -> (r: Vec<u8>)
        ensures
            r@ == header_bytes(*self),
            r@.len() == 8,
    {
        let mut out: Vec<u8> = Vec::new();
        out.push(self.encoding);
        out.push(self.message_type);
        out.push(self.compressed);
        out.push(self._unused);
        proof {
            lemma_pow256_8();
            lemma_uint_bytes_len(self.length as nat, 4, self.encoding);
        }
        write_uint(&mut out, self.length as u64, 4, self.encoding);
        proof {
            assert(out@ =~= header_bytes(*self));
        }
        out
    }
}

/// A message: its type and its K payload.
#[derive(Debug, Clone)]
pub struct KdbMessage {
    /// 0: asynchronous, 1: synchronous, 2: response.
    pub message_type: u8,
    /// The K object carried by the frame.
    pub payload: K,
}

impl KdbMessage {
    pub fn new(message_type: u8, payload: K) -> (r: KdbMessage)
        ensures
            r.message_type == message_type && r.payload == payload,
    {
        KdbMessage { message_type, payload }
    }
}

/// A decoded message as the receive side hands it out.
#[derive(Debug)]
pub struct KdbResponse {
    /// 0: asynchronous, 1: synchronous, 2: response.
    pub message_type: u8,
    /// The K object carried by the frame.
    pub payload: K,
}

/// The frame codec: compression and validation policy plus the resource
/// budgets that decoding enforces.
#[derive(Debug, Clone)]
pub struct KdbCodec {
    is_local: bool,
    compression_mode: CompressionMode,
    validation_mode: ValidationMode,
    max_list_size: usize,
    max_recursion_depth: usize,
    max_message_size: Option<usize>,
    max_decompressed_size: Option<usize>,
}

/// Policy: compress exactly when the payload is over the threshold and the
/// mode (together with locality) asks for it.
pub open spec fn spec_should_compress(
    mode: CompressionMode,
    is_local: bool,
    payload_len: nat,
) -> bool {
    payload_len > COMPRESSION_THRESHOLD - HEADER_SIZE && (mode == CompressionMode::Always || (mode
        == CompressionMode::Auto && !is_local))
}

impl KdbCodec {
    pub closed spec fn spec_is_local(self) -> bool {
        self.is_local
    }

    pub closed spec fn spec_compression_mode(self) -> CompressionMode {
        self.compression_mode
    }

    pub closed spec fn spec_validation_mode(self) -> ValidationMode {
        self.validation_mode
    }

    pub closed spec fn spec_max_message_size(self) -> Option<usize> {
        self.max_message_size
    }

    pub closed spec fn spec_max_list_size(self) -> usize {
        self.max_list_size
    }

    pub closed spec fn spec_max_recursion_depth(self) -> usize {
        self.max_recursion_depth
    }

    pub closed spec fn spec_max_decompressed_size(self) -> Option<usize> {
        self.max_decompressed_size
    }

    /// Create a codec with the default policies and budgets.
    pub fn new(is_local: bool) -> (r: KdbCodec)
        ensures
            r.spec_is_local() == is_local,
            r.spec_compression_mode() == CompressionMode::Auto,
            r.spec_validation_mode() == ValidationMode::Strict,
            r.spec_max_list_size() == MAX_LIST_SIZE,
            r.spec_max_recursion_depth() == MAX_RECURSION_DEPTH,
            r.spec_max_message_size() == Some(MAX_MESSAGE_SIZE),
            r.spec_max_decompressed_size() == Some(MAX_DECOMPRESSED_SIZE),
    {
        KdbCodec {
            is_local,
            compression_mode: CompressionMode::Auto,
            validation_mode: ValidationMode::Strict,
            max_list_size: MAX_LIST_SIZE,
            max_recursion_depth: MAX_RECURSION_DEPTH,
            max_message_size: Some(MAX_MESSAGE_SIZE),
            max_decompressed_size: Some(MAX_DECOMPRESSED_SIZE),
        }
    }

    /// Create a codec with explicit compression and validation modes.
    pub fn with_options(
        is_local: bool,
        compression_mode: CompressionMode,
        validation_mode: ValidationMode,
    ) -> (r: KdbCodec)
        ensures
            r.spec_is_local() == is_local,
            r.spec_compression_mode() == compression_mode,
            r.spec_validation_mode() == validation_mode,
            r.spec_max_list_size() == MAX_LIST_SIZE,
            r.spec_max_recursion_depth() == MAX_RECURSION_DEPTH,
            r.spec_max_message_size() == Some(MAX_MESSAGE_SIZE),
            r.spec_max_decompressed_size() == Some(MAX_DECOMPRESSED_SIZE),
    {
        KdbCodec {
            is_local,
            compression_mode,
            validation_mode,
            max_list_size: MAX_LIST_SIZE,
            max_recursion_depth: MAX_RECURSION_DEPTH,
            max_message_size: Some(MAX_MESSAGE_SIZE),
            max_decompressed_size: Some(MAX_DECOMPRESSED_SIZE),
        }
    }

    /// Start building a codec with a fluent API.
    pub fn builder() -> (r: KdbCodecBuilder)
        ensures
            r.is_local == false,
            r.compression_mode == CompressionMode::Auto,
            r.validation_mode == ValidationMode::Strict,
    {
        KdbCodecBuilder {
            is_local: false,
            compression_mode: CompressionMode::Auto,
            validation_mode: ValidationMode::Strict,
        }
    }

    pub fn set_compression_mode(&mut self, mode: CompressionMode)
        ensures
            final(self).spec_compression_mode() == mode,
            final(self).spec_validation_mode() == old(self).spec_validation_mode(),
            final(self).spec_is_local() == old(self).spec_is_local(),
            final(self).spec_max_list_size() == old(self).spec_max_list_size(),
            final(self).spec_max_recursion_depth() == old(self).spec_max_recursion_depth(),
            final(self).spec_max_message_size() == old(self).spec_max_message_size(),
            final(self).spec_max_decompressed_size() == old(self).spec_max_decompressed_size(),
    {
        self.compression_mode = mode;
    }

    pub fn compression_mode(&self) -> (r: CompressionMode)
        ensures
            r == self.spec_compression_mode(),
    {
        self.compression_mode
    }

    pub fn set_validation_mode(&mut self, mode: ValidationMode)
        ensures
            final(self).spec_validation_mode() == mode,
            final(self).spec_compression_mode() == old(self).spec_compression_mode(),
            final(self).spec_is_local() == old(self).spec_is_local(),
            final(self).spec_max_list_size() == old(self).spec_max_list_size(),
            final(self).spec_max_recursion_depth() == old(self).spec_max_recursion_depth(),
            final(self).spec_max_message_size() == old(self).spec_max_message_size(),
            final(self).spec_max_decompressed_size() == old(self).spec_max_decompressed_size(),
    {
        self.validation_mode = mode;
    }

    pub fn validation_mode(&self) -> (r: ValidationMode)
        ensures
            r == self.spec_validation_mode(),
    {
        self.validation_mode
    }
}

/// Fluent builder for [`KdbCodec`].
#[derive(Debug, Clone)]
pub struct KdbCodecBuilder {
    pub is_local: bool,
    pub compression_mode: CompressionMode,
    pub validation_mode: ValidationMode,
}

impl KdbCodecBuilder {
    pub fn is_local(self, is_local: bool) -> (r: KdbCodecBuilder)
        ensures
            r.is_local == is_local,
            r.compression_mode == self.compression_mode,
            r.validation_mode == self.validation_mode,
    {
        KdbCodecBuilder { is_local, ..self }
    }

    pub fn compression_mode(self, compression_mode: CompressionMode) -> (r: KdbCodecBuilder)
        ensures
            r.compression_mode == compression_mode,
            r.is_local == self.is_local,
            r.validation_mode == self.validation_mode,
    {
        KdbCodecBuilder { compression_mode, ..self }
    }

    pub fn validation_mode(self, validation_mode: ValidationMode) -> (r: KdbCodecBuilder)
        ensures
            r.validation_mode == validation_mode,
            r.is_local == self.is_local,
            r.compression_mode == self.compression_mode,
    {
        KdbCodecBuilder { validation_mode, ..self }
    }

    pub fn build(self) -> (r: KdbCodec)
        ensures
            r.spec_is_local() == self.is_local,
            r.spec_compression_mode() == self.compression_mode,
            r.spec_validation_mode() == self.validation_mode,
            r.spec_max_list_size() == MAX_LIST_SIZE,
            r.spec_max_recursion_depth() == MAX_RECURSION_DEPTH,
            r.spec_max_message_size() == Some(MAX_MESSAGE_SIZE),
            r.spec_max_decompressed_size() == Some(MAX_DECOMPRESSED_SIZE),
    {
        KdbCodec::with_options(self.is_local, self.compression_mode, self.validation_mode)
    }
}

/// The uncompressed frame for a payload: header then serialized bytes.
pub open spec fn uncompressed_frame(message_type: u8, payload: K) -> Seq<u8> {
    seq![ENCODING, message_type, 0u8, 0u8] + uint_bytes(
        8 + ser(payload, ENCODING).len(),
        4,
        ENCODING,
    ) + ser(payload, ENCODING)
}

/// The raw frame handed to the compressor: placeholder header then the
/// serialized payload.
pub open spec fn raw_frame(message_type: u8, payload: K) -> Seq<u8> {
    seq![ENCODING, message_type, 0u8, 0u8, 0u8, 0u8, 0u8, 0u8] + ser(payload, ENCODING)
}

/// Serialize a payload into a complete IPC frame, compressing when asked
/// and worthwhile.  When the result carries the compressed flag, its
/// 12-byte prefix names the compressed and the original sizes and the frame
/// is at most half the raw size; otherwise the frame is byte-exactly the
/// uncompressed form.
fn encode_ipc(payload: &K, msg_type: u8, compress: bool) -> (r: Vec<u8>)
    requires
        wf(*payload),
        ser(*payload, ENCODING).len() + 8 <= u32::MAX,
    ensures
        !compress ==> r@ == uncompressed_frame(msg_type, *payload),
        r@.len() >= 12 || r@ == uncompressed_frame(msg_type, *payload),
        (compress && 8 + ser(*payload, ENCODING).len() >= 24) ==> (match
            crate::compress::spec_compress(raw_frame(msg_type, *payload)) {
            Some(stream) => r@ == stream,
            None => r@ == uncompressed_frame(msg_type, *payload),
        }),
        (compress && 8 + ser(*payload, ENCODING).len() < 24) ==> r@ == uncompressed_frame(
            msg_type,
            *payload,
        ),
        compress ==> (r@ == uncompressed_frame(msg_type, *payload) || {
            let rawlen = 8 + ser(*payload, ENCODING).len();
            &&& 12 <= r@.len() <= rawlen / 2
            &&& r@[0] == ENCODING
            &&& r@[1] == msg_type
            &&& r@[2] == 1
            &&& r@[3] == 0
            &&& r@.subrange(4, 8) == uint_bytes(r@.len() as nat, 4, ENCODING)
            &&& r@.subrange(8, 12) == uint_bytes(rawlen as nat, 4, ENCODING)
        }),
{
    let payload_bytes = payload.q_ipc_encode();
    let total_length = HEADER_SIZE + payload_bytes.len();
    proof {
        lemma_pow256_8();
        lemma_uint_bytes_len(total_length as nat, 4, ENCODING);
    }
    if compress && total_length >= 24 {
        let mut raw: Vec<u8> = Vec::new();
        raw.push(ENCODING);
        raw.push(msg_type);
        raw.push(0);
        raw.push(0);
        raw.push(0);
        raw.push(0);
        raw.push(0);
        raw.push(0);
        crate::serialize::push_bytes(&mut raw, payload_bytes.as_slice());
        let ghost raw_view = raw@;
        proof {
            assert(raw_view =~= raw_frame(msg_type, *payload));
        }
        let (was_compressed, mut out) = compress_sync(raw);
        if was_compressed {
            proof {
                assert(out@.subrange(8, 12) == uint_bytes(raw_view.len() as nat, 4, ENCODING));
            }
            return out;
        }
        // not worth compressing: patch the real total length into the raw
        // frame
        let mut len_bytes: Vec<u8> = Vec::new();
        write_uint(&mut len_bytes, total_length as u64, 4, ENCODING);
        out.set(4, len_bytes[0]);
        out.set(5, len_bytes[1]);
        out.set(6, len_bytes[2]);
        out.set(7, len_bytes[3]);
        proof {
            assert(out@ =~= uncompressed_frame(msg_type, *payload));
        }
        return out;
    }
    let header = MessageHeader {
        encoding: ENCODING,
        message_type: msg_type,
        compressed: 0,
        _unused: 0,
        length: #[verifier::truncate] (total_length as u32),
    };
    let mut out = header.to_bytes();
    crate::serialize::push_bytes(&mut out, payload_bytes.as_slice());
    proof {
        assert(out@ =~= uncompressed_frame(msg_type, *payload));
    }
    out
}

impl K {
    /// Serialize this value into a complete IPC frame including the 8-byte
    /// header, optionally attempting compression (worthwhile only when the
    /// compressed frame is at most half the raw size).
    pub fn ipc_msg_encode(&self, msg_type: u8, compress: bool) -> (r: Vec<u8>)
        requires
            wf(*self),
            ser(*self, ENCODING).len() + 8 <= u32::MAX,
        ensures
            !compress ==> r@ == uncompressed_frame(msg_type, *self),
            (compress && 8 + ser(*self, ENCODING).len() >= 24) ==> (match
                crate::compress::spec_compress(raw_frame(msg_type, *self)) {
                Some(stream) => r@ == stream,
                None => r@ == uncompressed_frame(msg_type, *self),
            }),
            (compress && 8 + ser(*self, ENCODING).len() < 24) ==> r@ == uncompressed_frame(
                msg_type,
                *self,
            ),
            compress ==> (r@ == uncompressed_frame(msg_type, *self) || {
                let rawlen = 8 + ser(*self, ENCODING).len();
                &&& 12 <= r@.len() <= rawlen / 2
                &&& r@[0] == ENCODING
                &&& r@[1] == msg_type
                &&& r@[2] == 1
                &&& r@[3] == 0
                &&& r@.subrange(4, 8) == uint_bytes(r@.len() as nat, 4, ENCODING)
                &&& r@.subrange(8, 12) == uint_bytes(rawlen as nat, 4, ENCODING)
            }),
    {
        encode_ipc(self, msg_type, compress)
    }

    /// Decode a complete IPC frame including the 8-byte header,
    /// decompressing when the header asks for it.
    pub fn ipc_msg_decode(bytes: &[u8]) -> (r: Result<(MessageHeader, K), Error>)
        ensures
            match r {
                Ok((h, k)) => {
                    &&& bytes@.len() >= 8
                    &&& h.encoding == bytes@[0]
                    &&& h.message_type == bytes@[1]
                    &&& h.compressed == bytes@[2]
                    &&& h.length as nat == uint_value(bytes@.subrange(4, 8), bytes@[0])
                    &&& wf(k)
                    &&& lists_bounded(k, MAX_LIST_SIZE as nat)
                    &&& kheight(k) <= MAX_RECURSION_DEPTH + 2
                    &&& h.compressed != 1 ==> (exists|n: int|
                        8 < n <= bytes@.len() && ser(k, h.encoding)
                            == #[trigger] bytes@.subrange(8, n))
                    &&& h.compressed == 1 ==> (match crate::compress::spec_decompress(
                        bytes@.subrange(8, bytes@.len() as int),
                        bytes@[0],
                    ) {
                        Some(out) => exists|n: int|
                            0 < n <= out.len() && ser(k, h.encoding) == #[trigger] out.subrange(
                                0,
                                n,
                            ),
                        None => false,
                    })
                },
                Err(er) => crate::error::is_codec_error(er) && (bytes@.len() < 8 ==> er
                    is InvalidMessageSize),
            },
            (bytes@.len() >= 8 && bytes@[2] != 1 && crate::deserialize::dec_len(
                bytes@,
                8,
                bytes@[0],
                MAX_LIST_SIZE as int,
                MAX_RECURSION_DEPTH + 1,
            ) is Some) ==> r is Ok,
            (bytes@.len() >= 8 && bytes@[2] != 1 && crate::deserialize::compound_chain(
                bytes@,
                8,
                bytes@[0],
                MAX_LIST_SIZE as int,
            ) > MAX_RECURSION_DEPTH) ==> (r matches Err(er) && er is MaxDepthExceeded),
            ({
                let payload = bytes@.subrange(8, bytes@.len() as int);
                &&& bytes@.len() >= 12
                &&& bytes@[2] == 1
                &&& ({
                    let v = uint_value(payload.subrange(0, 4), bytes@[0]);
                    8 <= v < 0x80000000
                })
                &&& crate::compress::spec_decompress(payload, bytes@[0]) matches Some(out)
                    && crate::deserialize::dec_len(
                    out,
                    0,
                    bytes@[0],
                    MAX_LIST_SIZE as int,
                    MAX_RECURSION_DEPTH + 1,
                ) is Some
            }) ==> r is Ok,
    {
        let header = match MessageHeader::from_bytes(bytes) {
            Ok(h) => h,
            Err(er) => {
                return Err(er);
            },
        };
        if header.compressed == 1 {
            let payload = slice_range_to_vec(bytes, HEADER_SIZE, bytes.len());
            let decoded_payload = match decompress_sync(payload, header.encoding, None) {
                Ok(p) => p,
                Err(er) => {
                    return Err(er);
                },
            };
            let k = match K::q_ipc_decode(decoded_payload.as_slice(), header.encoding) {
                Ok(k) => k,
                Err(er) => {
                    return Err(er);
                },
            };
            Ok((header, k))
        } else {
            let ghost blen = bytes@.len();
            let k = match q_ipc_decode_tail(bytes, HEADER_SIZE, header.encoding) {
                Ok(k) => k,
                Err(er) => {
                    return Err(er);
                },
            };
            Ok((header, k))
        }
    }
}

/// Copy the byte range `[start, end)` out of a slice.
fn slice_range_to_vec(bytes: &[u8], start: usize, end: usize) -> (r: Vec<u8>)
    requires
        start <= end <= bytes@.len(),
    ensures
        r@ == bytes@.subrange(start as int, end as int),
{
    let mut r: Vec<u8> = Vec::new();
    let mut i: usize = start;
    while i < end
        invariant
            start <= i <= end <= bytes@.len(),
            r@ =~= bytes@.subrange(start as int, i as int),
        decreases end - i,
    {
        r.push(bytes[i]);
        proof {
            assert(bytes@.subrange(start as int, i + 1) =~= bytes@.subrange(
                start as int,
                i as int,
            ).push(bytes@[i as int]));
        }
        i = i + 1;
    }
    r
}

/// Decode one K value at `start` in `bytes`, with the default budgets.
fn q_ipc_decode_tail(bytes: &[u8], start: usize, encoding: u8) -> (r: Result<K, Error>)
    requires
        start <= bytes@.len(),
    ensures
        r matches Ok(k) ==> wf(k) && lists_bounded(k, MAX_LIST_SIZE as nat) && kheight(k)
            <= MAX_RECURSION_DEPTH + 2 && (exists|n: int|
            start < n <= bytes@.len() && ser(k, encoding) == #[trigger] bytes@.subrange(
                start as int,
                n,
            )),
        r matches Err(er) ==> crate::error::is_deserialization_error(er),
        crate::deserialize::dec_len(
            bytes@,
            start as int,
            encoding,
            MAX_LIST_SIZE as int,
            MAX_RECURSION_DEPTH + 1,
        ) is Some ==> r is Ok,
        crate::deserialize::compound_chain(bytes@, start as int, encoding, MAX_LIST_SIZE as int)
            > MAX_RECURSION_DEPTH ==> (r matches Err(er) && er is MaxDepthExceeded),
{
    match crate::deserialize::deserialize_bytes_sync(
        bytes,
        start,
        encoding,
        0,
        MAX_LIST_SIZE,
        MAX_RECURSION_DEPTH,
    ) {
        Ok((k, next)) => {
            proof {
                assert(ser(k, encoding) == bytes@.subrange(start as int, next as int));
            }
            Ok(k)
        },
        Err(er) => Err(er),
    }
}

impl KdbCodec {
    /// Encode one message into a frame, following the compression policy.
    pub fn encode_message(&self, item: &KdbMessage) -> (r: Vec<u8>)
        requires
            wf(item.payload),
            ser(item.payload, ENCODING).len() + 8 <= u32::MAX,
        ensures
            !spec_should_compress(
                self.spec_compression_mode(),
                self.spec_is_local(),
                ser(item.payload, ENCODING).len(),
            ) ==> r@ == uncompressed_frame(item.message_type, item.payload),
            spec_should_compress(
                self.spec_compression_mode(),
                self.spec_is_local(),
                ser(item.payload, ENCODING).len(),
            ) ==> (match crate::compress::spec_compress(
                raw_frame(item.message_type, item.payload),
            ) {
                Some(stream) => r@ == stream,
                None => r@ == uncompressed_frame(item.message_type, item.payload),
            }),
            spec_should_compress(
                self.spec_compression_mode(),
                self.spec_is_local(),
                ser(item.payload, ENCODING).len(),
            ) ==> (r@ == uncompressed_frame(item.message_type, item.payload) || {
                let rawlen = 8 + ser(item.payload, ENCODING).len();
                &&& 12 <= r@.len() <= rawlen / 2
                &&& r@[0] == ENCODING
                &&& r@[1] == item.message_type
                &&& r@[2] == 1
                &&& r@[3] == 0
                &&& r@.subrange(4, 8) == uint_bytes(r@.len() as nat, 4, ENCODING)
                &&& r@.subrange(8, 12) == uint_bytes(rawlen as nat, 4, ENCODING)
            }),
    {
        let payload_len = item.payload.q_ipc_encode().len();
        let should_compress = match self.compression_mode {
            CompressionMode::Never => false,
            CompressionMode::Always => payload_len > COMPRESSION_THRESHOLD - HEADER_SIZE,
            CompressionMode::Auto => payload_len > COMPRESSION_THRESHOLD - HEADER_SIZE
                && !self.is_local,
        };
        encode_ipc(&item.payload, item.message_type, should_compress)
    }

    /// Try to decode one frame from the front of `src`.  Answers `Ok(None)`
    /// exactly when fewer than 8 bytes are present or the declared length
    /// has not arrived yet; otherwise consumes `header.length` bytes (the
    /// second component of the result) and returns the decoded message.
    pub fn decode_frame(&self, src: &[u8]) -> (r: Result<Option<(KdbMessage, usize)>, Error>)
        ensures
            src@.len() < 8 ==> r matches Ok(None),
            r matches Err(er) ==> crate::error::is_codec_error(er),
            src@.len() >= 8 ==> {
                let length = uint_value(src@.subrange(4, 8), src@[0]);
                &&& (length > 0x7fffffff || length < 8) ==> (r matches Err(er) && er
                    is InvalidMessageSize)
                &&& (8 <= length <= 0x7fffffff && (self.spec_max_message_size() matches Some(m)
                    && length > m)) ==> (r matches Err(er) && er is MessageTooLarge)
                &&& (self.spec_validation_mode() == ValidationMode::Strict && src@[2] > 1
                    && length <= 0x7fffffff && 8 <= length && (self.spec_max_message_size()
                    matches Some(m) ==> length <= m)) ==> (r matches Err(er)
                    && er is InvalidCompressedFlag)
                &&& (self.spec_validation_mode() == ValidationMode::Strict && src@[2] <= 1
                    && src@[1] > 2 && length <= 0x7fffffff && 8 <= length && (
                self.spec_max_message_size() matches Some(m) ==> length <= m)) ==> (r matches Err(
                    er,
                ) && er is InvalidMessageType)
                &&& (8 <= length <= 0x7fffffff && (self.spec_max_message_size() matches Some(m)
                    ==> length <= m) && (self.spec_validation_mode() == ValidationMode::Strict
                    ==> src@[2] <= 1 && src@[1] <= 2) && src@.len() < length) ==> (r matches Ok(
                    None,
                ))
                &&& r matches Ok(None) ==> src@.len() < length
                &&& ({
                    &&& src@.len() >= 8
                    &&& 8 <= length <= 0x7fffffff
                    &&& (self.spec_max_message_size() matches Some(m) ==> length <= m)
                    &&& (self.spec_validation_mode() == ValidationMode::Strict ==> src@[2] <= 1
                        && src@[1] <= 2)
                    &&& src@.len() >= length
                    &&& src@[2] != 1
                    &&& self.spec_max_recursion_depth() < usize::MAX
                    &&& crate::deserialize::dec_len(
                        src@.subrange(8, length as int),
                        0,
                        src@[0],
                        self.spec_max_list_size() as int,
                        self.spec_max_recursion_depth() + 1,
                    ) is Some
                }) ==> (r matches Ok(s) && s is Some)
                &&& ({
                    let payload = src@.subrange(8, length as int);
                    &&& src@.len() >= 8
                    &&& 12 <= length <= 0x7fffffff
                    &&& (self.spec_max_message_size() matches Some(m) ==> length <= m)
                    &&& (self.spec_validation_mode() == ValidationMode::Strict ==> src@[2] <= 1
                        && src@[1] <= 2)
                    &&& src@.len() >= length
                    &&& src@[2] == 1
                    &&& self.spec_max_recursion_depth() < usize::MAX
                    &&& ({
                        let v = uint_value(payload.subrange(0, 4), src@[0]);
                        &&& 8 <= v < 0x80000000
                        &&& (self.spec_max_decompressed_size() matches Some(m2) ==> v - 8 <= m2)
                    })
                    &&& crate::compress::spec_decompress(payload, src@[0]) matches Some(out)
                        && crate::deserialize::dec_len(
                        out,
                        0,
                        src@[0],
                        self.spec_max_list_size() as int,
                        self.spec_max_recursion_depth() + 1,
                    ) is Some
                }) ==> (r matches Ok(s) && s is Some)
                &&& r matches Ok(Some((m, consumed))) ==> {
                    &&& consumed == length <= src@.len()
                    &&& m.message_type == src@[1]
                    &&& wf(m.payload)
                    &&& src@[2] != 1 ==> (exists|n: int|
                        8 < n <= length && ser(m.payload, src@[0]) == #[trigger] src@.subrange(
                            8,
                            n,
                        ))
                    &&& src@[2] == 1 ==> (match crate::compress::spec_decompress(
                        src@.subrange(8, length as int),
                        src@[0],
                    ) {
                        Some(out) => exists|n: int|
                            0 < n <= out.len() && ser(m.payload, src@[0])
                                == #[trigger] out.subrange(0, n),
                        None => false,
                    })
                }
            },
    {
        if src.len() < HEADER_SIZE {
            return Ok(None);
        }
        let header = match MessageHeader::from_bytes(src) {
            Ok(h) => h,
            Err(er) => {
                return Err(er);
            },
        };
        proof {
            lemma_pow256_8();
        }
        let total_length_u32 = header.length;
        if total_length_u32 > 0x7fffffffu32 || total_length_u32 < 8 {
            return Err(Error::InvalidMessageSize);
        }
        let total_length = total_length_u32 as usize;
        match self.max_message_size {
            Some(m) => {
                if total_length > m {
                    return Err(Error::MessageTooLarge { size: total_length, max: m });
                }
            },
            None => {},
        }
        match self.validation_mode {
            ValidationMode::Strict => {
                if header.compressed > 1 {
                    return Err(Error::InvalidCompressedFlag(header.compressed));
                }
                if header.message_type > 2 {
                    return Err(Error::InvalidMessageType(header.message_type));
                }
            },
            ValidationMode::Lenient => {},
        }
        if src.len() < total_length {
            return Ok(None);
        }
        let max_depth = if self.max_recursion_depth < usize::MAX {
            self.max_recursion_depth
        } else {
            usize::MAX - 1
        };
        let payload_k = if header.compressed == 1 {
            let payload = slice_range_to_vec(src, HEADER_SIZE, total_length);
            let decompressed = match decompress_sync(
                payload,
                header.encoding,
                self.max_decompressed_size,
            ) {
                Ok(p) => p,
                Err(er) => {
                    return Err(er);
                },
            };
            match q_ipc_decode_sync(
                decompressed.as_slice(),
                header.encoding,
                self.max_list_size,
                max_depth,
            ) {
                Ok(k) => k,
                Err(er) => {
                    return Err(er);
                },
            }
        } else {
            match decode_payload_span(src, HEADER_SIZE, total_length, header.encoding,
                self.max_list_size, max_depth) {
                Ok(k) => k,
                Err(er) => {
                    return Err(er);
                },
            }
        };
        Ok(Some((KdbMessage { message_type: header.message_type, payload: payload_k }, total_length)))
    }
}

/// Decode one K value inside `[start, end)` of `bytes`.
fn decode_payload_span(
    bytes: &[u8],
    start: usize,
    end: usize,
    encoding: u8,
    max_list_size: usize,
    max_recursion_depth: usize,
) -> (r: Result<K, Error>)
    requires
        start <= end <= bytes@.len(),
        max_recursion_depth < usize::MAX,
    ensures
        r matches Ok(k) ==> wf(k) && (exists|n: int|
            start < n <= end && ser(k, encoding) == #[trigger] bytes@.subrange(start as int, n)),
        r matches Err(er) ==> crate::error::is_deserialization_error(er),
        crate::deserialize::dec_len(
            bytes@.subrange(start as int, end as int),
            0,
            encoding,
            max_list_size as int,
            max_recursion_depth + 1,
        ) is Some ==> r is Ok,
{
    let payload = slice_range_to_vec(bytes, start, end);
    match q_ipc_decode_sync(payload.as_slice(), encoding, max_list_size, max_recursion_depth) {
        Ok(k) => {
            proof {
                let n = choose|n: int|
                    0 < n <= payload@.len() && ser(k, encoding) == #[trigger] payload@.subrange(
                        0,
                        n,
                    );
                assert(payload@.subrange(0, n) =~= bytes@.subrange(start as int, start + n));
            }
            Ok(k)
        },
        Err(er) => Err(er),
    }
}

#[verifier::external_type_specification]
#[verifier::external_body]
pub struct ExIoError(std::io::Error);

/// Relies on std's `io::Error` and its `Display` text.
#[verifier::external_body]
pub fn io_error_to_kdb_error(err: std::io::Error) -> (r: Error)
    ensures
        r is NetworkError,
{
    Error::NetworkError(err.to_string())
}

} // verus!
