//! Frames: requests, responses and shell packets.

use adb_client::connection::{
    AdbRequest, AdbRequestEncoder, AdbResponse, AdbResponseDecoder, AdbResponseDecoderImpl,
};
use adb_client::frame::MAX_MESSAGE_SIZE;
use adb_client::shell::{AdbShellDecoder, AdbShellResponseId};
use adb_client::AdbError;
use tokio_util::bytes::BytesMut;

const STATUS: AdbResponseDecoderImpl = AdbResponseDecoderImpl::Status;
const LENGTH: AdbResponseDecoderImpl = AdbResponseDecoderImpl::StatusLengthPayload;
const NEWLINE: AdbResponseDecoderImpl = AdbResponseDecoderImpl::StatusPayloadNewline;

fn decode(
    layout: AdbResponseDecoderImpl,
    bytes: &[u8],
) -> (Result<Option<AdbResponse>, AdbError>, Vec<u8>) {
    let mut src = BytesMut::from(bytes);
    let mut decoder = AdbResponseDecoder::new();
    decoder.decoder_impl = layout;
    let result = decoder.decode(&mut src);
    assert_eq!(decoder.decoder_impl, layout);
    (result, src.to_vec())
}

fn okay(message: &str) -> AdbResponse {
    AdbResponse::OKAY { message: message.to_string() }
}

fn fail(message: &str) -> AdbResponse {
    AdbResponse::FAIL { message: message.to_string() }
}

fn decoded(layout: AdbResponseDecoderImpl, bytes: &[u8], response: AdbResponse, rest: &[u8]) {
    let (result, left) = decode(layout, bytes);
    assert_eq!(result.unwrap(), Some(response));
    assert_eq!(left, rest);
}

fn incomplete(layout: AdbResponseDecoderImpl, bytes: &[u8]) {
    let (result, left) = decode(layout, bytes);
    assert_eq!(result.unwrap(), None);
    assert_eq!(left, bytes);
}

fn refused(layout: AdbResponseDecoderImpl, bytes: &[u8], error: &str, rest: &[u8]) {
    let (result, left) = decode(layout, bytes);
    assert_eq!(result.err().unwrap().to_string(), error);
    assert_eq!(left, rest);
}

fn encoded(payload: &str) -> Vec<u8> {
    let mut dst = BytesMut::new();
    AdbRequestEncoder::new().encode(AdbRequest::new(payload), &mut dst).unwrap();
    dst.to_vec()
}

#[test]
fn a_new_decoder_expects_a_payload() {
    assert_eq!(AdbResponseDecoder::new().decoder_impl, LENGTH);
}

#[test]
fn status_alone() {
    decoded(STATUS, b"OKAY", okay(""), b"");
    decoded(STATUS, b"OKAY0004abcd", okay(""), b"0004abcd");
    decoded(STATUS, b"FAIL0003badX", fail("bad"), b"X");
    decoded(STATUS, b"FAIL0000", fail(""), b"");
    decoded(STATUS, b"FAIL+003badX", fail("bad"), b"X");
}

#[test]
fn status_alone_incomplete() {
    incomplete(STATUS, b"");
    incomplete(STATUS, b"OKA");
    incomplete(STATUS, b"FAIL");
    incomplete(STATUS, b"FAIL000");
    incomplete(STATUS, b"FAIL0003ba");
}

#[test]
fn status_alone_refused() {
    refused(STATUS, b"WHAT", "Unknown response status: WHAT", b"WHAT");
    refused(STATUS, b"okay", "Unknown response status: okay", b"okay");
    refused(
        STATUS,
        b"OK\xffY",
        "invalid utf-8 sequence of 1 bytes from index 2",
        b"OK\xffY",
    );
    refused(STATUS, b"FAIL00g0", "invalid digit found in string", b"FAIL00g0");
    refused(STATUS, b"FAIL-001", "invalid digit found in string", b"FAIL-001");
    refused(
        STATUS,
        b"FAIL00\xc3\x28",
        "invalid utf-8 sequence of 1 bytes from index 2",
        b"FAIL00\xc3\x28",
    );
}

#[test]
fn length_and_payload() {
    decoded(LENGTH, b"OKAY0004abcdOKAY", okay("abcd"), b"OKAY");
    decoded(LENGTH, b"FAIL0003bad", fail("bad"), b"");
    decoded(LENGTH, b"OKAY0000", okay(""), b"");
    decoded(LENGTH, b"OKAY+003abcd", okay("abc"), b"d");
    decoded(LENGTH, b"OKAY000Aaaaaaaaaaa", okay("aaaaaaaaaa"), b"");
    decoded(LENGTH, "OKAY0003\u{2603}".as_bytes(), okay("\u{2603}"), b"");
}

#[test]
fn payload_that_is_not_utf8_is_replaced() {
    decoded(LENGTH, b"OKAY0003a\xffb", okay("a\u{fffd}b"), b"");
    decoded(STATUS, b"FAIL0003a\xffb", fail("a\u{fffd}b"), b"");
    decoded(NEWLINE, b"OKAYa\xffb\n", okay("a\u{fffd}b"), b"");
}

#[test]
fn length_and_payload_incomplete() {
    incomplete(LENGTH, b"");
    incomplete(LENGTH, b"OKAY");
    incomplete(LENGTH, b"OKAY000");
    incomplete(LENGTH, b"OKAY0004abc");
    incomplete(LENGTH, b"WHAT0004abc");
    incomplete(LENGTH, b"OKAYffff");
}

#[test]
fn length_and_payload_refused() {
    refused(LENGTH, b"WHAT0001abc", "Unknown response status: WHAT", b"bc");
    refused(LENGTH, b"OKAY 001abc", "invalid digit found in string", b"OKAY 001abc");
    refused(
        LENGTH,
        b"\xffKAY0001abc",
        "invalid utf-8 sequence of 1 bytes from index 0",
        b"\xffKAY0001abc",
    );
    refused(
        LENGTH,
        b"OKAY\xff001abc",
        "invalid utf-8 sequence of 1 bytes from index 0",
        b"OKAY\xff001abc",
    );
}

#[test]
fn payload_up_to_newline() {
    decoded(NEWLINE, b"OKAYdone\nmore\n", okay("done"), b"more\n");
    decoded(NEWLINE, b"FAIL\n", fail(""), b"");
    incomplete(NEWLINE, b"");
    incomplete(NEWLINE, b"OKA");
    incomplete(NEWLINE, b"OKAYdone");
    refused(NEWLINE, b"WHATdone\nmore", "Unknown response status: WHAT", b"more");
    refused(
        NEWLINE,
        b"O\xffAYdone\n",
        "invalid utf-8 sequence of 1 bytes from index 1",
        b"O\xffAYdone\n",
    );
}

#[test]
fn a_line_of_the_largest_size() {
    let mut bytes = b"OKAY".to_vec();
    bytes.resize(MAX_MESSAGE_SIZE - 1, b'a');
    bytes.push(b'\n');
    let (result, left) = decode(NEWLINE, &bytes);
    assert!(matches!(result, Ok(Some(AdbResponse::OKAY { .. }))));
    assert!(left.is_empty());
    bytes.push(b'x');
    refused(NEWLINE, &bytes, "Frame of length 8388609 is too large.", &bytes);
}

#[test]
fn requests() {
    assert_eq!(encoded(""), b"0000");
    assert_eq!(encoded("host:version"), b"000chost:version");
    assert_eq!(encoded("\u{2603}"), "0003\u{2603}".as_bytes());
    assert_eq!(&encoded(&"a".repeat(0xffff))[..5], b"ffffa");
    assert_eq!(&encoded(&"a".repeat(0x10000))[..6], b"10000a");
}

#[test]
fn requests_are_appended() {
    let mut dst = BytesMut::from(&b"before"[..]);
    let mut encoder = AdbRequestEncoder::new();
    encoder.encode(AdbRequest::new("a"), &mut dst).unwrap();
    encoder.encode(AdbRequest::new("bc"), &mut dst).unwrap();
    assert_eq!(&dst[..], b"before0001a0002bc");
}

#[test]
fn requests_of_the_largest_size() {
    let bytes = encoded(&"a".repeat(MAX_MESSAGE_SIZE));
    assert_eq!(&bytes[..7], b"800000a");
    assert_eq!(bytes.len(), 6 + MAX_MESSAGE_SIZE);

    let mut dst = BytesMut::from(&b"before"[..]);
    let error = AdbRequestEncoder::new()
        .encode(AdbRequest::new(&"a".repeat(MAX_MESSAGE_SIZE + 1)), &mut dst)
        .err()
        .unwrap();
    assert_eq!(error.to_string(), "Frame of length 8388609 is too large.");
    assert!(matches!(error, AdbError::IOError(e) if e.length == MAX_MESSAGE_SIZE + 1));
    assert_eq!(&dst[..], b"before");
}

#[test]
fn what_is_sent_is_read_back() {
    for message in ["", "x", "\u{2603} and more", "line\nline", "0000"] {
        let mut bytes = b"OKAY".to_vec();
        bytes.extend(encoded(message));
        bytes.extend_from_slice(b"rest");
        decoded(LENGTH, &bytes, okay(message), b"rest");
        let mut bytes = b"FAIL".to_vec();
        bytes.extend(encoded(message));
        bytes.extend_from_slice(b"rest");
        decoded(LENGTH, &bytes, fail(message), b"rest");
        decoded(STATUS, &bytes, fail(message), b"rest");
    }
}

#[test]
fn what_is_too_long_for_four_digits_is_not_read_back() {
    let mut bytes = b"OKAY".to_vec();
    bytes.extend(encoded(&"a".repeat(0x10000)));
    let (result, _) = decode(LENGTH, &bytes);
    assert_eq!(result.unwrap(), Some(okay(&format!("0{}", "a".repeat(0xfff)))));
}

#[test]
fn responses_one_behind_the_other() {
    let mut src = BytesMut::from(&b"OKAY0001aFAIL0002bcOKAY00"[..]);
    let mut decoder = AdbResponseDecoder::new();
    assert_eq!(decoder.decode(&mut src).unwrap(), Some(okay("a")));
    assert_eq!(decoder.decode(&mut src).unwrap(), Some(fail("bc")));
    assert_eq!(decoder.decode(&mut src).unwrap(), None);
    src.extend_from_slice(b"00");
    assert_eq!(decoder.decode(&mut src).unwrap(), Some(okay("")));
    assert!(src.is_empty());
}

#[test]
fn responses_byte_by_byte() {
    let all = b"OKAY0005hello";
    let mut src = BytesMut::new();
    let mut decoder = AdbResponseDecoder::new();
    for (i, byte) in all.iter().enumerate() {
        assert_eq!(decoder.decode(&mut src).unwrap(), None);
        assert_eq!(src.len(), i);
        src.extend_from_slice(&[*byte]);
    }
    assert_eq!(decoder.decode(&mut src).unwrap(), Some(okay("hello")));
}

#[test]
fn response_from_status() {
    let message = "m".to_string();
    assert_eq!(AdbResponse::from_status("OKAY", message.clone()).unwrap(), okay("m"));
    assert_eq!(AdbResponse::from_status("FAIL", message.clone()).unwrap(), fail("m"));
    let error = AdbResponse::from_status("OKAYX", message).err().unwrap();
    assert!(matches!(error, AdbError::UnknownResponseStatus(s) if s == "OKAYX"));
}

#[test]
fn packet_kinds() {
    assert_eq!(AdbShellResponseId::from_u8(0), AdbShellResponseId::Stdin);
    assert_eq!(AdbShellResponseId::from_u8(1), AdbShellResponseId::Stdout);
    assert_eq!(AdbShellResponseId::from_u8(2), AdbShellResponseId::Stderr);
    assert_eq!(AdbShellResponseId::from_u8(3), AdbShellResponseId::Exit);
    assert_eq!(AdbShellResponseId::from_u8(4), AdbShellResponseId::CloseStdin);
    assert_eq!(AdbShellResponseId::from_u8(5), AdbShellResponseId::WindowSizeChange);
    for value in 6..=255 {
        assert_eq!(AdbShellResponseId::from_u8(value), AdbShellResponseId::Invalid);
    }
}

#[test]
fn packets() {
    let mut src = BytesMut::from(&b"\x01\x02\x00\x00\x00hi\x03\x00\x00\x00\x00\x02\x03\x00"[..]);
    let mut decoder = AdbShellDecoder::new();
    let packet = decoder.decode(&mut src).unwrap().unwrap();
    assert_eq!(packet.id, AdbShellResponseId::Stdout);
    assert_eq!(packet.response, b"hi");
    let packet = decoder.decode(&mut src).unwrap().unwrap();
    assert_eq!(packet.id, AdbShellResponseId::Exit);
    assert!(packet.response.is_empty());
    assert!(decoder.decode(&mut src).unwrap().is_none());
    assert_eq!(&src[..], b"\x02\x03\x00");
    src.extend_from_slice(b"\x00\x00ab");
    assert!(decoder.decode(&mut src).unwrap().is_none());
    assert_eq!(&src[..], b"\x02\x03\x00\x00\x00ab");
    src.extend_from_slice(b"c");
    let packet = decoder.decode(&mut src).unwrap().unwrap();
    assert_eq!(packet.id, AdbShellResponseId::Stderr);
    assert_eq!(packet.response, b"abc");
    assert!(src.is_empty());
}

#[test]
fn packet_lengths_are_little_endian() {
    let mut bytes = vec![1, 0x02, 0x01, 0, 0];
    bytes.resize(5 + 0x102, 7);
    let mut src = BytesMut::from(&bytes[..]);
    let packet = AdbShellDecoder::new().decode(&mut src).unwrap().unwrap();
    assert_eq!(packet.response.len(), 0x102);
    assert!(src.is_empty());
}

#[test]
fn packets_of_the_largest_size() {
    let mut src = BytesMut::from(&b"\x01\x00\x00\x80\x00"[..]);
    assert!(AdbShellDecoder::new().decode(&mut src).unwrap().is_none());
    let mut src = BytesMut::from(&b"\x01\xff\xff\xff\xff"[..]);
    let error = AdbShellDecoder::new().decode(&mut src).err().unwrap();
    assert_eq!(error.to_string(), "Frame of length 4294967295 is too large.");
    assert_eq!(src.len(), 5);
}

#[test]
fn requests_are_told_apart() {
    let requests = ["", "0", "00", "0001", "a", "b"];
    for p in requests {
        for q in requests {
            let (x, y) = (encoded(p), encoded(q));
            assert_eq!(x.starts_with(&y), p == q);
        }
    }
}

#[test]
fn waiting_is_bounded() {
    let mut bytes = b"OKAY".to_vec();
    bytes.resize(MAX_MESSAGE_SIZE, b'a');
    incomplete(NEWLINE, &bytes);
    bytes.push(b'a');
    refused(NEWLINE, &bytes, "Frame of length 8388609 is too large.", &bytes);

    let mut bytes = b"FAILffff".to_vec();
    bytes.resize(8 + 0xfffe, b'a');
    incomplete(STATUS, &bytes);
    incomplete(LENGTH, &bytes);
    bytes.push(b'a');
    decoded(STATUS, &bytes, fail(&"a".repeat(0xffff)), b"");
    decoded(LENGTH, &bytes, fail(&"a".repeat(0xffff)), b"");

    let mut bytes = b"\x01\x00\x00\x80\x00".to_vec();
    bytes.resize(5 + MAX_MESSAGE_SIZE, 7);
    let mut src = BytesMut::from(&bytes[..]);
    let packet = AdbShellDecoder::new().decode(&mut src).unwrap().unwrap();
    assert_eq!(packet.response.len(), MAX_MESSAGE_SIZE);
}
