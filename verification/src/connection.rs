//! Requests to an ADB server and its responses, as frames of bytes.

use crate::buffer::{self, advance, copy_range};
use crate::frame::{Decoded, MAX_MESSAGE_SIZE};
use crate::numeral;
use crate::text;
use crate::util::{AdbError, ErrorView, FrameTooLarge};
use tokio_util::bytes::BytesMut;
use vstd::prelude::*;
use vstd::utf8::*;

verus! {

broadcast use vstd::seq_lib::group_seq_properties;

/// The length of the number in front of a request, up to 65535 bytes of payload.
pub const ADB_REQUEST_HEADER_LENGTH: usize = 4;

/// The length of a response's status.
pub const ADB_RESPONSE_STATUS_LENGTH: usize = 4;

/// The length of a response's status and of the number behind it.
pub const ADB_RESPONSE_HEADER_LENGTH: usize = 8;

/// A request to the ADB server.
#[derive(Debug)]
pub struct AdbRequest {
    payload: Vec<u8>,
}

impl View for AdbRequest {
    type V = Seq<u8>;

    closed spec fn view(&self) -> Seq<u8> {
        self.payload@
    }
}

impl AdbRequest {
    /// The request that consists of the text `cmd`.
    pub fn new(cmd: &str) -> (request: AdbRequest)
        ensures
            request@ == encode_utf8(cmd@),
    {
        AdbRequest { payload: vstd::slice::slice_to_vec(cmd.as_bytes()) }
    }
}

/// The ADB server's response to a request.
#[derive(Debug, PartialEq)]
pub enum AdbResponse {
    /// The request succeeded.
    OKAY {
        /// What the server has to say.
        message: String,
    },
    /// The request failed.
    FAIL {
        /// Why it failed.
        message: String,
    },
}

/// A response as a mathematical value.
pub enum ResponseView {
    Okay(Seq<char>),
    Fail(Seq<char>),
}

impl View for AdbResponse {
    type V = ResponseView;

    open spec fn view(&self) -> ResponseView {
        match self {
            AdbResponse::OKAY { message } => ResponseView::Okay(message@),
            AdbResponse::FAIL { message } => ResponseView::Fail(message@),
        }
    }
}

/// How a response is laid out.
#[derive(Debug, Clone, Copy, PartialEq, Eq, Structural)]
pub enum AdbResponseDecoderImpl {
    /// A status, followed by a length and a payload only if it is a failure.
    Status,
    /// A status, a length and a payload.
    StatusLengthPayload,
    /// A status and a payload that ends with a newline.
    StatusPayloadNewline,
}

/// The number in front of a payload: four bytes that spell it in hexadecimal.
pub open spec fn payload_length(bytes: Seq<u8>) -> Result<nat, ErrorView> {
    if !valid_utf8(bytes) {
        Err(ErrorView::Utf8(text::utf8_error(bytes)))
    } else {
        match numeral::unsigned_value(decode_utf8(bytes), 16) {
            Some(n) => Ok(n),
            None => Err(ErrorView::ParseInt(numeral::radix_error(decode_utf8(bytes), 16))),
        }
    }
}

/// The response with the given status and message.
pub open spec fn response(status: Seq<char>, message: Seq<char>) -> Result<
    ResponseView,
    ErrorView,
> {
    if status == "OKAY"@ {
        Ok(ResponseView::Okay(message))
    } else if status == "FAIL"@ {
        Ok(ResponseView::Fail(message))
    } else {
        Err(ErrorView::Unknown(status))
    }
}

/// The response with the given status and message, as a frame of `size` bytes.
pub open spec fn response_frame(
    status: Seq<char>,
    message: Seq<char>,
    size: nat,
) -> Decoded<ResponseView> {
    match response(status, message) {
        Ok(item) => Decoded::Frame { item, size },
        Err(error) => Decoded::Invalid { error, size },
    }
}

/// What `src` starts with, as a status that has a length and a payload only if it is a failure.
pub open spec fn status_frame(src: Seq<u8>) -> Decoded<ResponseView> {
    let status = src.subrange(0, 4);
    if src.len() < 4 {
        Decoded::Incomplete
    } else if !valid_utf8(status) {
        Decoded::Invalid { error: ErrorView::Utf8(text::utf8_error(status)), size: 0 }
    } else if decode_utf8(status) == "OKAY"@ {
        Decoded::Frame { item: ResponseView::Okay(Seq::empty()), size: 4 }
    } else if decode_utf8(status) == "FAIL"@ {
        if src.len() < 8 {
            Decoded::Incomplete
        } else {
            match payload_length(src.subrange(4, 8)) {
                Err(error) => Decoded::Invalid { error, size: 0 },
                Ok(n) => if src.len() < 8 + n {
                    Decoded::Incomplete
                } else {
                    Decoded::Frame {
                        item: ResponseView::Fail(text::lossy_text(src.subrange(8, 8 + n as int))),
                        size: 8 + n,
                    }
                },
            }
        }
    } else {
        Decoded::Invalid { error: ErrorView::Unknown(decode_utf8(status)), size: 0 }
    }
}

/// What `src` starts with, as a status, a length and a payload.
pub open spec fn status_length_payload_frame(src: Seq<u8>) -> Decoded<ResponseView> {
    let status = src.subrange(0, 4);
    if src.len() < 8 {
        Decoded::Incomplete
    } else {
        match payload_length(src.subrange(4, 8)) {
            Err(error) => Decoded::Invalid { error, size: 0 },
            Ok(n) => if n > MAX_MESSAGE_SIZE {
                Decoded::Invalid { error: ErrorView::FrameTooLarge(n), size: 0 }
            } else if src.len() < 8 + n {
                Decoded::Incomplete
            } else if !valid_utf8(status) {
                Decoded::Invalid { error: ErrorView::Utf8(text::utf8_error(status)), size: 0 }
            } else {
                response_frame(
                    decode_utf8(status),
                    text::lossy_text(src.subrange(8, 8 + n as int)),
                    8 + n,
                )
            },
        }
    }
}

/// What `src` starts with, as a status and a payload that ends with a newline.
pub open spec fn status_payload_newline_frame(src: Seq<u8>) -> Decoded<ResponseView> {
    let status = src.subrange(0, 4);
    if src.len() < 4 {
        Decoded::Incomplete
    } else if src.len() > MAX_MESSAGE_SIZE {
        Decoded::Invalid { error: ErrorView::FrameTooLarge(src.len()), size: 0 }
    } else if !valid_utf8(status) {
        Decoded::Invalid { error: ErrorView::Utf8(text::utf8_error(status)), size: 0 }
    } else {
        match src.skip(4).index_of_first(0x0a) {
            None => Decoded::Incomplete,
            Some(offset) => response_frame(
                decode_utf8(status),
                text::lossy_text(src.subrange(4, 4 + offset)),
                (4 + offset + 1) as nat,
            ),
        }
    }
}

/// What `src` starts with, in the given layout.
pub open spec fn response_in(layout: AdbResponseDecoderImpl, src: Seq<u8>) -> Decoded<
    ResponseView,
> {
    match layout {
        AdbResponseDecoderImpl::Status => status_frame(src),
        AdbResponseDecoderImpl::StatusLengthPayload => status_length_payload_frame(src),
        AdbResponseDecoderImpl::StatusPayloadNewline => status_payload_newline_frame(src),
    }
}

/// There are no more characters than bytes that encode them.
proof fn lemma_decoded_length(bytes: Seq<u8>)
    requires
        valid_utf8(bytes),
    ensures
        decode_utf8(bytes).len() <= bytes.len(),
    decreases bytes.len(),
{
    if bytes.len() > 0 {
        lemma_decoded_length(pop_first_scalar(bytes));
    }
}

/// The number that four bytes in front of a payload spell is at most 65535.
pub proof fn lemma_payload_length_bound(bytes: Seq<u8>)
    requires
        bytes.len() == 4,
    ensures
        payload_length(bytes) matches Ok(n) ==> n <= 0xffff,
{
    if valid_utf8(bytes) {
        lemma_decoded_length(bytes);
        numeral::lemma_four_hex_digits_bound(decode_utf8(bytes));
    }
}

/// Reads the number in front of a payload.
fn read_payload_length(bytes: &[u8]) -> (length: Result<usize, AdbError>)
    requires
        bytes@.len() == 4,
    ensures
        match payload_length(bytes@) {
            Ok(n) => n <= 0xffff && length == Ok::<usize, AdbError>(n as usize),
            Err(error) => length matches Err(e) && e@ == error,
        },
{
    proof {
        lemma_payload_length_bound(bytes@);
    }
    match core::str::from_utf8(bytes) {
        Err(e) => Err(AdbError::from(e)),
        Ok(digits) => match usize::from_str_radix(digits, 16) {
            Err(e) => Err(AdbError::from(e)),
            Ok(length) => Ok(length),
        },
    }
}

impl AdbResponse {
    /// The response with the given status and message, if the protocol knows that status.
    pub fn from_status(status: &str, message: String) -> (result: Result<AdbResponse, AdbError>)
        ensures
            match response(status@, message@) {
                Ok(item) => result matches Ok(r) && r@ == item,
                Err(error) => result matches Err(e) && e@ == error,
            },
    {
        if text::same_text(status, "OKAY") {
            Ok(AdbResponse::OKAY { message })
        } else if text::same_text(status, "FAIL") {
            Ok(AdbResponse::FAIL { message })
        } else {
            Err(AdbError::UnknownResponseStatus(status.to_owned()))
        }
    }
}

/// Takes responses from a stream of bytes.
#[derive(Debug)]
pub struct AdbResponseDecoder {
    /// How the next response is laid out.
    pub decoder_impl: AdbResponseDecoderImpl,
}

impl AdbResponseDecoder {
    /// A decoder for responses of a status, a length and a payload.
    pub fn new() -> (decoder: AdbResponseDecoder)
        ensures
            decoder.decoder_impl == AdbResponseDecoderImpl::StatusLengthPayload,
    {
        AdbResponseDecoder { decoder_impl: AdbResponseDecoderImpl::StatusLengthPayload }
    }

    /// Takes a status, and behind a failure its length and payload.
    fn decode_status(&mut self, src: &mut BytesMut) -> (result: Result<
        Option<AdbResponse>,
        AdbError,
    >)
        ensures
            *final(self) == *old(self),
            status_frame(buffer::buffered(*old(src))).reported(
                result,
                buffer::buffered(*old(src)),
                buffer::buffered(*final(src)),
            ),
    {
        let ghost bytes = buffer::buffered(*src);
        assert(bytes.skip(0) == bytes);
        if src.len() < ADB_RESPONSE_STATUS_LENGTH {
            // Not enough data for a status.
            return Ok(None);
        }
        let status = copy_range(src, 0, ADB_RESPONSE_STATUS_LENGTH);
        let status = match core::str::from_utf8(status.as_slice()) {
            Ok(status) => status,
            Err(e) => return Err(AdbError::from(e)),
        };
        if text::same_text(status, "OKAY") {
            advance(src, ADB_RESPONSE_STATUS_LENGTH);
            return Ok(Some(AdbResponse::OKAY { message: String::new() }));
        }
        if !text::same_text(status, "FAIL") {
            return Err(AdbError::UnknownResponseStatus(status.to_owned()));
        }
        if src.len() < ADB_RESPONSE_HEADER_LENGTH {
            return Ok(None);
        }
        let length = copy_range(src, ADB_RESPONSE_STATUS_LENGTH, ADB_RESPONSE_HEADER_LENGTH);
        let length = match read_payload_length(length.as_slice()) {
            Ok(length) => length,
            Err(e) => return Err(e),
        };
        if src.len() < ADB_RESPONSE_HEADER_LENGTH + length {
            return Ok(None);
        }
        let message = copy_range(
            src,
            ADB_RESPONSE_HEADER_LENGTH,
            ADB_RESPONSE_HEADER_LENGTH + length,
        );
        let message = text::from_utf8_lossy(message.as_slice());
        advance(src, ADB_RESPONSE_HEADER_LENGTH + length);
        Ok(Some(AdbResponse::FAIL { message }))
    }

    /// Takes a status, a length and a payload.
    fn decode_status_and_payload(&mut self, src: &mut BytesMut) -> (result: Result<
        Option<AdbResponse>,
        AdbError,
    >)
        ensures
            *final(self) == *old(self),
            status_length_payload_frame(buffer::buffered(*old(src))).reported(
                result,
                buffer::buffered(*old(src)),
                buffer::buffered(*final(src)),
            ),
    {
        let ghost bytes = buffer::buffered(*src);
        assert(bytes.skip(0) == bytes);
        if src.len() < ADB_RESPONSE_HEADER_LENGTH {
            // Not enough data for the length.
            return Ok(None);
        }
        let length = copy_range(src, ADB_RESPONSE_STATUS_LENGTH, ADB_RESPONSE_HEADER_LENGTH);
        let length = match read_payload_length(length.as_slice()) {
            Ok(length) => length,
            Err(e) => return Err(e),
        };
        // A frame that is too large could take up all memory.
        if length > MAX_MESSAGE_SIZE {
            return Err(AdbError::IOError(FrameTooLarge { length }));
        }
        if src.len() < ADB_RESPONSE_HEADER_LENGTH + length {
            // The whole payload has not arrived yet; make room for it.
            src.reserve(ADB_RESPONSE_HEADER_LENGTH + length - src.len());
            return Ok(None);
        }
        let status = copy_range(src, 0, ADB_RESPONSE_STATUS_LENGTH);
        let status = match core::str::from_utf8(status.as_slice()) {
            Ok(status) => status,
            Err(e) => return Err(AdbError::from(e)),
        };
        let payload = copy_range(
            src,
            ADB_RESPONSE_HEADER_LENGTH,
            ADB_RESPONSE_HEADER_LENGTH + length,
        );
        let message = text::from_utf8_lossy(payload.as_slice());
        advance(src, ADB_RESPONSE_HEADER_LENGTH + length);
        match AdbResponse::from_status(status, message) {
            Ok(response) => Ok(Some(response)),
            Err(e) => Err(e),
        }
    }

    /// Takes a status and a payload that ends with a newline.
    fn decode_status_and_read_until_new_line(&mut self, src: &mut BytesMut) -> (result: Result<
        Option<AdbResponse>,
        AdbError,
    >)
        ensures
            *final(self) == *old(self),
            status_payload_newline_frame(buffer::buffered(*old(src))).reported(
                result,
                buffer::buffered(*old(src)),
                buffer::buffered(*final(src)),
            ),
    {
        let ghost bytes = buffer::buffered(*src);
        assert(bytes.skip(0) == bytes);
        if src.len() < ADB_RESPONSE_STATUS_LENGTH {
            // Not enough data for a status.
            return Ok(None);
        }
        // A frame that is too large could take up all memory.
        if src.len() > MAX_MESSAGE_SIZE {
            return Err(AdbError::IOError(FrameTooLarge { length: src.len() }));
        }
        let status = copy_range(src, 0, ADB_RESPONSE_STATUS_LENGTH);
        let status = match core::str::from_utf8(status.as_slice()) {
            Ok(status) => status,
            Err(e) => return Err(AdbError::from(e)),
        };
        let all: &[u8] = &**src;
        let rest = &all[ADB_RESPONSE_STATUS_LENGTH..all.len()];
        assert(rest@ == bytes.skip(4));
        match newline_offset(rest) {
            None => Ok(None),
            Some(offset) => {
                let message = copy_range(
                    src,
                    ADB_RESPONSE_STATUS_LENGTH,
                    ADB_RESPONSE_STATUS_LENGTH + offset,
                );
                let message = text::from_utf8_lossy(message.as_slice());
                advance(src, ADB_RESPONSE_STATUS_LENGTH + offset + 1);
                match AdbResponse::from_status(status, message) {
                    Ok(response) => Ok(Some(response)),
                    Err(e) => Err(e),
                }
            },
        }
    }

    /// Takes the next response from `src`, if all of it is there.
    pub fn decode(&mut self, src: &mut BytesMut) -> (result: Result<Option<AdbResponse>, AdbError>)
        ensures
            *final(self) == *old(self),
            response_in(old(self).decoder_impl, buffer::buffered(*old(src))).reported(
                result,
                buffer::buffered(*old(src)),
                buffer::buffered(*final(src)),
            ),
    {
        if src.len() == 0 {
            assert(buffer::buffered(*src).skip(0) == buffer::buffered(*src));
            return Ok(None);
        }
        match self.decoder_impl {
            AdbResponseDecoderImpl::Status => self.decode_status(src),
            AdbResponseDecoderImpl::StatusLengthPayload => self.decode_status_and_payload(src),
            AdbResponseDecoderImpl::StatusPayloadNewline => {
                self.decode_status_and_read_until_new_line(src)
            },
        }
    }
}

/// The position of the first newline.
fn newline_offset(bytes: &[u8]) -> (offset: Option<usize>)
    ensures
        match bytes@.index_of_first(0x0a) {
            Some(i) => 0 <= i < bytes@.len() && offset == Some(i as usize),
            None => offset is None,
        },
{
    proof {
        bytes@.index_of_first_ensures(0x0a);
    }
    let mut i: usize = 0;
    while i < bytes.len()
        invariant
            i <= bytes@.len(),
            forall|j: int| 0 <= j < i ==> bytes@[j] != 0x0a,
            bytes@.index_of_first(0x0a) matches Some(f) ==> 0 <= f < bytes@.len() && bytes@[f]
                == 0x0a && forall|j: int| 0 <= j < f ==> bytes@[j] != 0x0a,
            bytes@.index_of_first(0x0a) is None ==> !bytes@.contains(0x0a),
        decreases bytes.len() - i,
    {
        if bytes[i] == 0x0a {
            return Some(i);
        }
        i += 1;
    }
    None
}

/// The frame of a request: the length of the payload in hexadecimal, at least four digits of it,
/// then the payload.
pub open spec fn request_frame(payload: Seq<u8>) -> Seq<u8> {
    encode_utf8(numeral::numeral(payload.len(), 16, 4)) + payload
}

/// Writes requests to a stream of bytes.
#[derive(Debug)]
pub struct AdbRequestEncoder {}

impl AdbRequestEncoder {
    /// An encoder for requests.
    pub fn new() -> (encoder: AdbRequestEncoder)
        ensures
            encoder == (AdbRequestEncoder {  }),
    {
        AdbRequestEncoder {  }
    }

    /// Appends the frame of `msg` to `dst`, unless it is longer than the server accepts.
    pub fn encode(&mut self, msg: AdbRequest, dst: &mut BytesMut) -> (result: Result<(), AdbError>)
        requires
            msg@.len() <= MAX_MESSAGE_SIZE ==> buffer::buffered(*old(dst)).len() + request_frame(
                msg@,
            ).len() <= isize::MAX,
        ensures
            *final(self) == *old(self),
            if msg@.len() > MAX_MESSAGE_SIZE {
                &&& result matches Err(e)
                &&& e@ == ErrorView::FrameTooLarge(msg@.len())
                &&& buffer::buffered(*final(dst)) == buffer::buffered(*old(dst))
            } else {
                &&& result is Ok
                &&& buffer::buffered(*final(dst)) == buffer::buffered(*old(dst)) + request_frame(
                    msg@,
                )
            },
    {
        let length = msg.payload.len();
        if length > MAX_MESSAGE_SIZE {
            return Err(AdbError::IOError(FrameTooLarge { length }));
        }
        let length_hex = numeral::to_numeral(length, 16, 4);
        proof {
            numeral::lemma_numeral(length as nat, 16, 4);
            is_ascii_chars_encode_utf8(length_hex@);
        }
        dst.reserve(ADB_REQUEST_HEADER_LENGTH + length);
        dst.extend_from_slice(length_hex.as_str().as_bytes());
        dst.extend_from_slice(msg.payload.as_slice());
        assert(buffer::buffered(*dst) == buffer::buffered(*old(dst)) + request_frame(msg@));
        Ok(())
    }
}

} // verus!
