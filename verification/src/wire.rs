//! What goes over the wire, call by call.
//!
//! Each law speaks of what the encoder and the decoders return, and of the bytes that they add to a
//! buffer or take from it.

use crate::buffer;
use crate::connection::{
    self, AdbRequest, AdbRequestEncoder, AdbResponse, AdbResponseDecoder, AdbResponseDecoderImpl,
};
use crate::numeral;
use crate::shell::{AdbShellDecoder, AdbShellPacket, AdbShellResponseId};
use crate::text;
use crate::util::AdbError;
use tokio_util::bytes::BytesMut;
use vstd::prelude::*;
use vstd::utf8::*;

verus! {

broadcast use vstd::seq_lib::group_seq_properties;

/// A request goes out as its length in hexadecimal, of four digits or as many more as it takes, and
/// the bytes of its text, behind what the buffer holds already.
pub proof fn law_request_goes_out(
    encoder: &mut AdbRequestEncoder,
    command: &str,
    request: AdbRequest,
    dst: &mut BytesMut,
    result: Result<(), AdbError>,
)
    requires
        call_ensures(AdbRequest::new, (command,), request),
        call_ensures(AdbRequestEncoder::encode, (encoder, request, dst), result),
        encode_utf8(command@).len() <= 8 * 1024 * 1024,
    ensures
        result is Ok,
        exists|digits: Seq<char>| #[trigger]
            numeral::spells(digits, encode_utf8(command@).len(), 16, 4) && buffer::buffered(
                *final(dst),
            ) == buffer::buffered(*old(dst)) + encode_utf8(digits) + encode_utf8(command@),
{
    let digits = numeral::numeral(encode_utf8(command@).len(), 16, 4);
    numeral::law_numeral_spells(encode_utf8(command@).len(), 16, 4);
    assert(buffer::buffered(*old(dst)) + encode_utf8(digits) + encode_utf8(command@)
        == buffer::buffered(*old(dst)) + (encode_utf8(digits) + encode_utf8(command@)));
}

/// Of any request as long as that, the length and the bytes go out.
pub proof fn law_request_bytes_go_out(
    encoder: &mut AdbRequestEncoder,
    request: AdbRequest,
    dst: &mut BytesMut,
    result: Result<(), AdbError>,
)
    requires
        call_ensures(AdbRequestEncoder::encode, (encoder, request, dst), result),
        request@.len() <= 8 * 1024 * 1024,
    ensures
        result is Ok,
        exists|digits: Seq<char>| #[trigger]
            numeral::spells(digits, request@.len(), 16, 4) && buffer::buffered(*final(dst))
                == buffer::buffered(*old(dst)) + encode_utf8(digits) + request@,
{
    let digits = numeral::numeral(request@.len(), 16, 4);
    numeral::law_numeral_spells(request@.len(), 16, 4);
    assert(buffer::buffered(*old(dst)) + encode_utf8(digits) + request@ == buffer::buffered(
        *old(dst),
    ) + (encode_utf8(digits) + request@));
}

/// Nothing goes out of a request that is longer than the server accepts; the error says how long
/// it is.
pub proof fn law_long_request_is_refused(
    encoder: &mut AdbRequestEncoder,
    request: AdbRequest,
    dst: &mut BytesMut,
    result: Result<(), AdbError>,
)
    requires
        call_ensures(AdbRequestEncoder::encode, (encoder, request, dst), result),
        request@.len() > 8 * 1024 * 1024,
    ensures
        result matches Err(AdbError::IOError(e)) && e.length == request@.len(),
        buffer::buffered(*final(dst)) == buffer::buffered(*old(dst)),
{
}

/// `message` is the text that the bytes encode, or where they encode none, what is made of them
/// with replacements.
pub open spec fn reads_as(message: Seq<char>, bytes: Seq<u8>) -> bool {
    if valid_utf8(bytes) {
        encode_utf8(message) == bytes
    } else {
        message == text::utf8_replaced(bytes)
    }
}

/// What the text of a status says of its bytes.
proof fn lemma_status_bytes(status: Seq<u8>)
    ensures
        encode_utf8("OKAY"@).len() == 4,
        encode_utf8("FAIL"@).len() == 4,
        encode_utf8("OKAY"@) != encode_utf8("FAIL"@),
        valid_utf8(encode_utf8("OKAY"@)),
        valid_utf8(encode_utf8("FAIL"@)),
        valid_utf8(status) ==> encode_utf8(decode_utf8(status)) == status,
        valid_utf8(status) ==> (decode_utf8(status) == "OKAY"@ <==> status == encode_utf8(
            "OKAY"@,
        )),
        valid_utf8(status) ==> (decode_utf8(status) == "FAIL"@ <==> status == encode_utf8(
            "FAIL"@,
        )),
{
    reveal_strlit("OKAY");
    reveal_strlit("FAIL");
    assert("OKAY"@[0] != "FAIL"@[0]);
    is_ascii_chars_encode_utf8("OKAY"@);
    is_ascii_chars_encode_utf8("FAIL"@);
    encode_utf8_valid_utf8("OKAY"@);
    encode_utf8_valid_utf8("FAIL"@);
    encode_utf8_decode_utf8("OKAY"@);
    encode_utf8_decode_utf8("FAIL"@);
    if valid_utf8(status) {
        decode_utf8_encode_utf8(status);
    }
}

/// The text of bytes reads as they do.
proof fn lemma_reads_as(bytes: Seq<u8>)
    ensures
        reads_as(text::lossy_text(bytes), bytes),
{
    if valid_utf8(bytes) {
        decode_utf8_encode_utf8(bytes);
    }
}

/// A status, a length and that many bytes are a response: a success or a failure with the text of
/// those bytes. Exactly those bytes are taken, also where the status is not known; one that is not
/// text is an error and left where it is.
pub proof fn law_response_with_length(
    decoder: &mut AdbResponseDecoder,
    src: &mut BytesMut,
    status: Seq<u8>,
    header: Seq<u8>,
    payload: Seq<u8>,
    rest: Seq<u8>,
    result: Result<Option<AdbResponse>, AdbError>,
)
    requires
        call_ensures(AdbResponseDecoder::decode, (decoder, src), result),
        old(decoder).decoder_impl == AdbResponseDecoderImpl::StatusLengthPayload,
        status.len() == 4,
        header.len() == 4,
        valid_utf8(header),
        numeral::unsigned_value(decode_utf8(header), 16) == Some(payload.len()),
        buffer::buffered(*old(src)) == status + header + payload + rest,
    ensures
        *final(decoder) == *old(decoder),
        status == encode_utf8("OKAY"@) ==> (result matches Ok(Some(AdbResponse::OKAY { message }))
            && reads_as(message@, payload)),
        status == encode_utf8("FAIL"@) ==> (result matches Ok(Some(AdbResponse::FAIL { message }))
            && reads_as(message@, payload)),
        valid_utf8(status) && status != encode_utf8("OKAY"@) && status != encode_utf8("FAIL"@) ==> (
        result matches Err(AdbError::UnknownResponseStatus(s)) && encode_utf8(s@) == status),
        !valid_utf8(status) ==> (result matches Err(AdbError::Utf8StringError(e)) && e
            == text::utf8_error(status)),
        buffer::buffered(*final(src)) == (if valid_utf8(status) {
            rest
        } else {
            buffer::buffered(*old(src))
        }),
{
    let all = buffer::buffered(*old(src));
    lemma_status_bytes(status);
    lemma_reads_as(payload);
    connection::lemma_payload_length_bound(header);
    assert(all.subrange(0, 4) == status);
    assert(all.subrange(4, 8) == header);
    assert(all.subrange(8, 8 + payload.len() as int) == payload);
    assert(all.skip(8 + payload.len() as int) == rest);
    assert(all.skip(0) == all);
}

/// Until all bytes that the length announces are there, none are taken, and nothing is made of
/// them.
pub proof fn law_response_with_length_waits(
    decoder: &mut AdbResponseDecoder,
    src: &mut BytesMut,
    status: Seq<u8>,
    header: Seq<u8>,
    part: Seq<u8>,
    n: nat,
    result: Result<Option<AdbResponse>, AdbError>,
)
    requires
        call_ensures(AdbResponseDecoder::decode, (decoder, src), result),
        old(decoder).decoder_impl == AdbResponseDecoderImpl::StatusLengthPayload,
        status.len() == 4,
        header.len() == 4,
        valid_utf8(header),
        numeral::unsigned_value(decode_utf8(header), 16) == Some(n),
        part.len() < n,
        buffer::buffered(*old(src)) == status + header + part,
    ensures
        *final(decoder) == *old(decoder),
        result matches Ok(None),
        buffer::buffered(*final(src)) == buffer::buffered(*old(src)),
{
    let all = buffer::buffered(*old(src));
    connection::lemma_payload_length_bound(header);
    assert(all.subrange(4, 8) == header);
    assert(all.skip(0) == all);
}

/// Until the length is there, nothing is made of what is.
pub proof fn law_response_waits_for_length(
    decoder: &mut AdbResponseDecoder,
    src: &mut BytesMut,
    result: Result<Option<AdbResponse>, AdbError>,
)
    requires
        call_ensures(AdbResponseDecoder::decode, (decoder, src), result),
        old(decoder).decoder_impl == AdbResponseDecoderImpl::StatusLengthPayload,
        buffer::buffered(*old(src)).len() < 8,
    ensures
        *final(decoder) == *old(decoder),
        result matches Ok(None),
        buffer::buffered(*final(src)) == buffer::buffered(*old(src)),
{
    assert(buffer::buffered(*old(src)).skip(0) == buffer::buffered(*old(src)));
}

/// A length that is not a number in hexadecimal is an error, whatever the status.
pub proof fn law_response_with_bad_length(
    decoder: &mut AdbResponseDecoder,
    src: &mut BytesMut,
    status: Seq<u8>,
    header: Seq<u8>,
    rest: Seq<u8>,
    result: Result<Option<AdbResponse>, AdbError>,
)
    requires
        call_ensures(AdbResponseDecoder::decode, (decoder, src), result),
        old(decoder).decoder_impl == AdbResponseDecoderImpl::StatusLengthPayload,
        status.len() == 4,
        header.len() == 4,
        !(valid_utf8(header) && numeral::unsigned_value(decode_utf8(header), 16) is Some),
        buffer::buffered(*old(src)) == status + header + rest,
    ensures
        *final(decoder) == *old(decoder),
        !valid_utf8(header) ==> (result matches Err(AdbError::Utf8StringError(e)) && e
            == text::utf8_error(header)),
        valid_utf8(header) ==> (result matches Err(AdbError::ParseIntError(e)) && e
            == numeral::radix_error(decode_utf8(header), 16)),
        buffer::buffered(*final(src)) == buffer::buffered(*old(src)),
{
    let all = buffer::buffered(*old(src));
    assert(all.subrange(4, 8) == header);
    assert(all.skip(0) == all);
}

/// Where only a status is expected, a success is its four bytes, and has nothing to say. A status
/// that is not known, or that is no text, is an error and left where it is.
pub proof fn law_status(
    decoder: &mut AdbResponseDecoder,
    src: &mut BytesMut,
    status: Seq<u8>,
    rest: Seq<u8>,
    result: Result<Option<AdbResponse>, AdbError>,
)
    requires
        call_ensures(AdbResponseDecoder::decode, (decoder, src), result),
        old(decoder).decoder_impl == AdbResponseDecoderImpl::Status,
        status.len() == 4,
        buffer::buffered(*old(src)) == status + rest,
    ensures
        *final(decoder) == *old(decoder),
        status == encode_utf8("OKAY"@) ==> (result matches Ok(Some(AdbResponse::OKAY { message }))
            && message@.len() == 0) && buffer::buffered(*final(src)) == rest,
        valid_utf8(status) && status != encode_utf8("OKAY"@) && status != encode_utf8("FAIL"@) ==> (
        result matches Err(AdbError::UnknownResponseStatus(s)) && encode_utf8(s@) == status),
        !valid_utf8(status) ==> (result matches Err(AdbError::Utf8StringError(e)) && e
            == text::utf8_error(status)),
        status != encode_utf8("OKAY"@) && status != encode_utf8("FAIL"@) ==> buffer::buffered(
            *final(src),
        ) == buffer::buffered(*old(src)),
{
    let all = buffer::buffered(*old(src));
    lemma_status_bytes(status);
    assert(all.subrange(0, 4) == status);
    assert(all.skip(4) == rest);
    assert(all.skip(0) == all);
}

/// Until the status is there, nothing is made of what is.
pub proof fn law_status_waits(
    decoder: &mut AdbResponseDecoder,
    src: &mut BytesMut,
    result: Result<Option<AdbResponse>, AdbError>,
)
    requires
        call_ensures(AdbResponseDecoder::decode, (decoder, src), result),
        buffer::buffered(*old(src)).len() < 4,
    ensures
        *final(decoder) == *old(decoder),
        result matches Ok(None),
        buffer::buffered(*final(src)) == buffer::buffered(*old(src)),
{
    assert(buffer::buffered(*old(src)).skip(0) == buffer::buffered(*old(src)));
}

/// Where only a status is expected, a failure still says why: a length follows it, and that many
/// bytes.
pub proof fn law_status_of_failure(
    decoder: &mut AdbResponseDecoder,
    src: &mut BytesMut,
    header: Seq<u8>,
    payload: Seq<u8>,
    rest: Seq<u8>,
    result: Result<Option<AdbResponse>, AdbError>,
)
    requires
        call_ensures(AdbResponseDecoder::decode, (decoder, src), result),
        old(decoder).decoder_impl == AdbResponseDecoderImpl::Status,
        header.len() == 4,
        valid_utf8(header),
        numeral::unsigned_value(decode_utf8(header), 16) == Some(payload.len()),
        buffer::buffered(*old(src)) == encode_utf8("FAIL"@) + header + payload + rest,
    ensures
        *final(decoder) == *old(decoder),
        result matches Ok(Some(AdbResponse::FAIL { message })) && reads_as(message@, payload),
        buffer::buffered(*final(src)) == rest,
{
    let all = buffer::buffered(*old(src));
    lemma_status_bytes(encode_utf8("FAIL"@));
    lemma_reads_as(payload);
    assert(all.subrange(0, 4) == encode_utf8("FAIL"@));
    assert(all.subrange(4, 8) == header);
    assert(all.subrange(8, 8 + payload.len() as int) == payload);
    assert(all.skip(8 + payload.len() as int) == rest);
}

/// Until all of why a request failed is there, nothing is made of it.
pub proof fn law_status_of_failure_waits(
    decoder: &mut AdbResponseDecoder,
    src: &mut BytesMut,
    part: Seq<u8>,
    n: nat,
    result: Result<Option<AdbResponse>, AdbError>,
)
    requires
        call_ensures(AdbResponseDecoder::decode, (decoder, src), result),
        old(decoder).decoder_impl == AdbResponseDecoderImpl::Status,
        part.len() >= 4 ==> valid_utf8(part.take(4)) && numeral::unsigned_value(
            decode_utf8(part.take(4)),
            16,
        ) == Some(n),
        part.len() >= 4 ==> part.len() < 4 + n,
        buffer::buffered(*old(src)) == encode_utf8("FAIL"@) + part,
    ensures
        *final(decoder) == *old(decoder),
        result matches Ok(None),
        buffer::buffered(*final(src)) == buffer::buffered(*old(src)),
{
    let all = buffer::buffered(*old(src));
    lemma_status_bytes(encode_utf8("FAIL"@));
    assert(all.subrange(0, 4) == encode_utf8("FAIL"@));
    if part.len() >= 4 {
        assert(all.subrange(4, 8) == part.take(4));
    }
    assert(all.skip(0) == all);
}

/// A failure whose length is not a number in hexadecimal is an error of its own.
pub proof fn law_status_of_failure_with_bad_length(
    decoder: &mut AdbResponseDecoder,
    src: &mut BytesMut,
    header: Seq<u8>,
    rest: Seq<u8>,
    result: Result<Option<AdbResponse>, AdbError>,
)
    requires
        call_ensures(AdbResponseDecoder::decode, (decoder, src), result),
        old(decoder).decoder_impl == AdbResponseDecoderImpl::Status,
        header.len() == 4,
        !(valid_utf8(header) && numeral::unsigned_value(decode_utf8(header), 16) is Some),
        buffer::buffered(*old(src)) == encode_utf8("FAIL"@) + header + rest,
    ensures
        *final(decoder) == *old(decoder),
        !valid_utf8(header) ==> (result matches Err(AdbError::Utf8StringError(e)) && e
            == text::utf8_error(header)),
        valid_utf8(header) ==> (result matches Err(AdbError::ParseIntError(e)) && e
            == numeral::radix_error(decode_utf8(header), 16)),
        buffer::buffered(*final(src)) == buffer::buffered(*old(src)),
{
    let all = buffer::buffered(*old(src));
    lemma_status_bytes(encode_utf8("FAIL"@));
    assert(all.subrange(0, 4) == encode_utf8("FAIL"@));
    assert(all.subrange(4, 8) == header);
    assert(all.skip(0) == all);
}

/// Where a line ends behind a status.
proof fn lemma_line(status: Seq<u8>, line: Seq<u8>, rest: Seq<u8>)
    requires
        status.len() == 4,
        !line.contains(0x0a),
    ensures
        (status + line + seq![0x0au8] + rest).subrange(0, 4) == status,
        (status + line + seq![0x0au8] + rest).skip(4).index_of_first(0x0a) == Some(
            line.len() as int,
        ),
        (status + line + seq![0x0au8] + rest).subrange(4, 4 + line.len() as int) == line,
        (status + line + seq![0x0au8] + rest).skip(4 + line.len() as int + 1) == rest,
{
    let all = status + line + seq![0x0au8] + rest;
    let tail = all.skip(4);
    assert(tail == line + seq![0x0au8] + rest);
    tail.index_of_first_ensures(0x0a);
    assert(tail[line.len() as int] == 0x0a);
    assert(forall|i: int| 0 <= i < line.len() ==> tail[i] == line[i] && tail[i] != 0x0a);
}

/// A status and a line are a response: a success or a failure with the text of that line. They are
/// taken with the newline, also where the status is not known, and nothing behind it is; a status
/// that is not text is an error and left where it is.
pub proof fn law_response_with_line(
    decoder: &mut AdbResponseDecoder,
    src: &mut BytesMut,
    status: Seq<u8>,
    line: Seq<u8>,
    rest: Seq<u8>,
    result: Result<Option<AdbResponse>, AdbError>,
)
    requires
        call_ensures(AdbResponseDecoder::decode, (decoder, src), result),
        old(decoder).decoder_impl == AdbResponseDecoderImpl::StatusPayloadNewline,
        status.len() == 4,
        !line.contains(0x0a),
        4 + line.len() + 1 + rest.len() <= 8 * 1024 * 1024,
        buffer::buffered(*old(src)) == status + line + seq![0x0au8] + rest,
    ensures
        *final(decoder) == *old(decoder),
        status == encode_utf8("OKAY"@) ==> (result matches Ok(Some(AdbResponse::OKAY { message }))
            && reads_as(message@, line)),
        status == encode_utf8("FAIL"@) ==> (result matches Ok(Some(AdbResponse::FAIL { message }))
            && reads_as(message@, line)),
        valid_utf8(status) && status != encode_utf8("OKAY"@) && status != encode_utf8("FAIL"@) ==> (
        result matches Err(AdbError::UnknownResponseStatus(s)) && encode_utf8(s@) == status),
        !valid_utf8(status) ==> (result matches Err(AdbError::Utf8StringError(e)) && e
            == text::utf8_error(status)),
        buffer::buffered(*final(src)) == (if valid_utf8(status) {
            rest
        } else {
            buffer::buffered(*old(src))
        }),
{
    let all = buffer::buffered(*old(src));
    lemma_status_bytes(status);
    lemma_reads_as(line);
    lemma_line(status, line, rest);
    assert(all.skip(0) == all);
}

/// Until the newline is there, nothing is made of the line.
pub proof fn law_response_waits_for_line(
    decoder: &mut AdbResponseDecoder,
    src: &mut BytesMut,
    status: Seq<u8>,
    part: Seq<u8>,
    result: Result<Option<AdbResponse>, AdbError>,
)
    requires
        call_ensures(AdbResponseDecoder::decode, (decoder, src), result),
        old(decoder).decoder_impl == AdbResponseDecoderImpl::StatusPayloadNewline,
        status.len() == 4,
        valid_utf8(status),
        !part.contains(0x0a),
        4 + part.len() <= 8 * 1024 * 1024,
        buffer::buffered(*old(src)) == status + part,
    ensures
        *final(decoder) == *old(decoder),
        result matches Ok(None),
        buffer::buffered(*final(src)) == buffer::buffered(*old(src)),
{
    let all = buffer::buffered(*old(src));
    assert(all.subrange(0, 4) == status);
    assert(all.skip(4) == part);
    part.index_of_first_ensures(0x0a);
    assert(all.skip(0) == all);
}

/// A status that is not text is an error before its line is there.
pub proof fn law_response_with_line_of_bad_status(
    decoder: &mut AdbResponseDecoder,
    src: &mut BytesMut,
    status: Seq<u8>,
    part: Seq<u8>,
    result: Result<Option<AdbResponse>, AdbError>,
)
    requires
        call_ensures(AdbResponseDecoder::decode, (decoder, src), result),
        old(decoder).decoder_impl == AdbResponseDecoderImpl::StatusPayloadNewline,
        status.len() == 4,
        !valid_utf8(status),
        4 + part.len() <= 8 * 1024 * 1024,
        buffer::buffered(*old(src)) == status + part,
    ensures
        *final(decoder) == *old(decoder),
        result matches Err(AdbError::Utf8StringError(e)) && e == text::utf8_error(status),
        buffer::buffered(*final(src)) == buffer::buffered(*old(src)),
{
    let all = buffer::buffered(*old(src));
    assert(all.subrange(0, 4) == status);
    assert(all.skip(0) == all);
}

/// Where a line is expected, more bytes than a frame may have are an error that says how many there
/// are, whatever they hold.
pub proof fn law_response_with_line_is_bounded(
    decoder: &mut AdbResponseDecoder,
    src: &mut BytesMut,
    result: Result<Option<AdbResponse>, AdbError>,
)
    requires
        call_ensures(AdbResponseDecoder::decode, (decoder, src), result),
        old(decoder).decoder_impl == AdbResponseDecoderImpl::StatusPayloadNewline,
        buffer::buffered(*old(src)).len() > 8 * 1024 * 1024,
    ensures
        *final(decoder) == *old(decoder),
        result matches Err(AdbError::IOError(e)) && e.length == buffer::buffered(*old(src)).len(),
        buffer::buffered(*final(src)) == buffer::buffered(*old(src)),
{
    assert(buffer::buffered(*old(src)).skip(0) == buffer::buffered(*old(src)));
}

/// A new decoder expects a length and a payload with every status.
pub proof fn law_new_decoder(decoder: AdbResponseDecoder)
    requires
        call_ensures(AdbResponseDecoder::new, (), decoder),
    ensures
        decoder.decoder_impl == AdbResponseDecoderImpl::StatusLengthPayload,
{
}

/// Two statuses are known, a success and a failure, and the message stays what it is; any other is
/// reported as it is.
pub proof fn law_known_statuses(
    status: &str,
    message: String,
    result: Result<AdbResponse, AdbError>,
)
    requires
        call_ensures(AdbResponse::from_status, (status, message), result),
    ensures
        status@ == "OKAY"@ ==> (result matches Ok(AdbResponse::OKAY { message: m }) && m@
            == message@),
        status@ == "FAIL"@ ==> (result matches Ok(AdbResponse::FAIL { message: m }) && m@
            == message@),
        status@ != "OKAY"@ && status@ != "FAIL"@ ==> (result matches Err(
            AdbError::UnknownResponseStatus(s),
        ) && s@ == status@),
{
    lemma_status_bytes(encode_utf8("FAIL"@));
}

/// A kind of packet is the byte in front of it; six of them have a meaning.
pub proof fn law_packet_kinds(value: u8, id: AdbShellResponseId)
    requires
        call_ensures(AdbShellResponseId::from_u8, (value,), id),
    ensures
        id == AdbShellResponseId::Stdin <==> value == 0,
        id == AdbShellResponseId::Stdout <==> value == 1,
        id == AdbShellResponseId::Stderr <==> value == 2,
        id == AdbShellResponseId::Exit <==> value == 3,
        id == AdbShellResponseId::CloseStdin <==> value == 4,
        id == AdbShellResponseId::WindowSizeChange <==> value == 5,
        id == AdbShellResponseId::Invalid <==> value > 5,
{
}

/// A kind, a length of four bytes, the least significant first, and that many bytes are a packet.
/// Exactly those are taken, and the packet carries all that follows the length.
pub proof fn law_packet(
    decoder: &mut AdbShellDecoder,
    src: &mut BytesMut,
    kind: u8,
    b0: u8,
    b1: u8,
    b2: u8,
    b3: u8,
    payload: Seq<u8>,
    rest: Seq<u8>,
    result: Result<Option<AdbShellPacket>, AdbError>,
)
    requires
        call_ensures(AdbShellDecoder::decode, (decoder, src), result),
        payload.len() == b0 + 0x100 * b1 + 0x1_0000 * b2 + 0x100_0000 * b3,
        payload.len() <= 8 * 1024 * 1024,
        buffer::buffered(*old(src)) == seq![kind, b0, b1, b2, b3] + payload + rest,
    ensures
        result matches Ok(Some(packet)) && packet.response@ == payload && match packet.id {
            AdbShellResponseId::Stdin => kind == 0,
            AdbShellResponseId::Stdout => kind == 1,
            AdbShellResponseId::Stderr => kind == 2,
            AdbShellResponseId::Exit => kind == 3,
            AdbShellResponseId::CloseStdin => kind == 4,
            AdbShellResponseId::WindowSizeChange => kind == 5,
            AdbShellResponseId::Invalid => kind > 5,
        },
        buffer::buffered(*final(src)) == rest,
{
    let all = buffer::buffered(*old(src));
    assert(all.subrange(1, 5) == seq![b0, b1, b2, b3]);
    assert(all.subrange(5, 5 + payload.len() as int) == payload);
    assert(all.skip(5 + payload.len() as int) == rest);
}

/// Until all bytes that the length announces are there, none are taken, and nothing is made of
/// them.
pub proof fn law_packet_waits(
    decoder: &mut AdbShellDecoder,
    src: &mut BytesMut,
    kind: u8,
    b0: u8,
    b1: u8,
    b2: u8,
    b3: u8,
    part: Seq<u8>,
    result: Result<Option<AdbShellPacket>, AdbError>,
)
    requires
        call_ensures(AdbShellDecoder::decode, (decoder, src), result),
        part.len() < b0 + 0x100 * b1 + 0x1_0000 * b2 + 0x100_0000 * b3 <= 8 * 1024 * 1024,
        buffer::buffered(*old(src)) == seq![kind, b0, b1, b2, b3] + part,
    ensures
        result matches Ok(None),
        buffer::buffered(*final(src)) == buffer::buffered(*old(src)),
{
    let all = buffer::buffered(*old(src));
    assert(all.subrange(1, 5) == seq![b0, b1, b2, b3]);
    assert(all.skip(0) == all);
}

/// Until the length is there, nothing is made of what is.
pub proof fn law_packet_waits_for_length(
    decoder: &mut AdbShellDecoder,
    src: &mut BytesMut,
    result: Result<Option<AdbShellPacket>, AdbError>,
)
    requires
        call_ensures(AdbShellDecoder::decode, (decoder, src), result),
        buffer::buffered(*old(src)).len() < 5,
    ensures
        result matches Ok(None),
        buffer::buffered(*final(src)) == buffer::buffered(*old(src)),
{
    assert(buffer::buffered(*old(src)).skip(0) == buffer::buffered(*old(src)));
}

/// A packet that announces more bytes than a frame may have is an error that says how many, before
/// any of them are there.
pub proof fn law_packet_is_bounded(
    decoder: &mut AdbShellDecoder,
    src: &mut BytesMut,
    kind: u8,
    b0: u8,
    b1: u8,
    b2: u8,
    b3: u8,
    rest: Seq<u8>,
    result: Result<Option<AdbShellPacket>, AdbError>,
)
    requires
        call_ensures(AdbShellDecoder::decode, (decoder, src), result),
        b0 + 0x100 * b1 + 0x1_0000 * b2 + 0x100_0000 * b3 > 8 * 1024 * 1024,
        buffer::buffered(*old(src)) == seq![kind, b0, b1, b2, b3] + rest,
    ensures
        result matches Err(AdbError::IOError(e)) && e.length == b0 + 0x100 * b1 + 0x1_0000 * b2
            + 0x100_0000 * b3,
        buffer::buffered(*final(src)) == buffer::buffered(*old(src)),
{
    let all = buffer::buffered(*old(src));
    assert(all.subrange(1, 5) == seq![b0, b1, b2, b3]);
    assert(all.skip(0) == all);
}

} // verus!
