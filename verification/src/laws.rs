//! What holds of the protocol as a whole.

use crate::client::{self, Device, DeviceView, Remote};
use crate::connection::{self, AdbResponseDecoderImpl, ResponseView};
use crate::frame::{Decoded, MAX_MESSAGE_SIZE};
use crate::numeral;
use crate::session::{self, ExchangeView, FailureView, Goal, ProgressView, SessionView};
use crate::shell::{self, AdbShellResponseId, PacketView};
use crate::text;
use crate::util::ErrorView;
use vstd::prelude::*;
use vstd::utf8::*;

verus! {

broadcast use vstd::seq_lib::group_seq_properties;

/// Bytes that arrive later do not change what the bytes before them amount to. (A payload that
/// ends with a newline is searched for in all bytes at hand, of which there may only be so many.)
pub proof fn law_later_bytes_change_no_response(
    layout: AdbResponseDecoderImpl,
    src: Seq<u8>,
    more: Seq<u8>,
)
    requires
        !(connection::response_in(layout, src) is Incomplete),
        layout == AdbResponseDecoderImpl::StatusPayloadNewline && more.len() > 0 ==> src.len()
            + more.len() <= MAX_MESSAGE_SIZE,
    ensures
        connection::response_in(layout, src + more) == connection::response_in(layout, src),
{
    let all = src + more;
    assert(all.subrange(0, 4) == src.subrange(0, 4));
    if more.len() == 0 {
        assert(all == src);
    } else if layout == AdbResponseDecoderImpl::StatusPayloadNewline {
        let rest = src.skip(4);
        assert(all.skip(4) == rest + more);
        rest.index_of_first_ensures(0x0a);
        all.skip(4).index_of_first_ensures(0x0a);
        if let Some(offset) = rest.index_of_first(0x0a) {
            assert(all.skip(4)[offset] == 0x0a);
            assert(all.subrange(4, 4 + offset) == src.subrange(4, 4 + offset));
        }
    } else if src.len() >= 8 {
        assert(all.subrange(4, 8) == src.subrange(4, 8));
        if let Ok(n) = connection::payload_length(src.subrange(4, 8)) {
            if src.len() >= 8 + n {
                assert(all.subrange(8, 8 + n as int) == src.subrange(8, 8 + n as int));
            }
        }
    }
}

/// A status has four bytes, and they decode to it.
proof fn lemma_status(status: Seq<char>)
    requires
        status == "OKAY"@ || status == "FAIL"@,
    ensures
        encode_utf8(status).len() == 4,
        valid_utf8(encode_utf8(status)),
        decode_utf8(encode_utf8(status)) == status,
        "OKAY"@ != "FAIL"@,
{
    reveal_strlit("OKAY");
    reveal_strlit("FAIL");
    assert("OKAY"@[0] != "FAIL"@[0]);
    assert(is_ascii_chars(status));
    is_ascii_chars_encode_utf8(status);
    encode_utf8_valid_utf8(status);
    encode_utf8_decode_utf8(status);
}

/// The frame of a request of up to 65535 bytes has a header of four bytes, which reads back as
/// the length of the payload.
pub proof fn law_request_header(payload: Seq<u8>)
    requires
        payload.len() <= 0xffff,
    ensures
        connection::request_frame(payload).len() == 4 + payload.len(),
        connection::payload_length(connection::request_frame(payload).take(4)) == Ok::<
            nat,
            ErrorView,
        >(payload.len()),
        connection::request_frame(payload).skip(4) == payload,
{
    let digits = numeral::numeral(payload.len(), 16, 4);
    numeral::lemma_four_hex_digits(payload.len());
    numeral::lemma_numeral(payload.len(), 16, 4);
    numeral::lemma_numeral_reads_back(payload.len(), 16, 4);
    is_ascii_chars_encode_utf8(digits);
    encode_utf8_valid_utf8(digits);
    encode_utf8_decode_utf8(digits);
    assert(connection::request_frame(payload).take(4) == encode_utf8(digits));
}

/// Requests of up to 65535 bytes can be told apart in a stream: it has only one first request.
pub proof fn law_requests_told_apart(p: Seq<u8>, x: Seq<u8>, q: Seq<u8>, y: Seq<u8>)
    requires
        p.len() <= 0xffff,
        q.len() <= 0xffff,
        connection::request_frame(p) + x == connection::request_frame(q) + y,
    ensures
        p == q,
        x == y,
{
    law_request_header(p);
    law_request_header(q);
    let all = connection::request_frame(p) + x;
    assert(all.take(4) == connection::request_frame(p).take(4));
    assert(all.take(4) == connection::request_frame(q).take(4));
    assert(all.subrange(4, 4 + p.len() as int) == connection::request_frame(p).skip(4));
    assert(all.subrange(4, 4 + p.len() as int) == connection::request_frame(q).skip(4));
    assert(all.skip(4 + p.len() as int) == x);
    assert(all.skip(4 + p.len() as int) == y);
}

/// A status followed by a payload of up to 65535 bytes, framed as requests are, is read as the
/// response with that status and the text of that payload, and nothing behind it is taken.
pub proof fn law_response_reads_back(status: Seq<char>, payload: Seq<u8>, rest: Seq<u8>)
    requires
        status == "OKAY"@ || status == "FAIL"@,
        payload.len() <= 0xffff,
    ensures
        connection::status_length_payload_frame(encode_utf8(status) + connection::request_frame(payload) + rest)
            == connection::response_frame(status, text::lossy_text(payload), 8 + payload.len()),
        status == "FAIL"@ ==> connection::status_frame(encode_utf8(status) + connection::request_frame(payload) + rest)
            == connection::response_frame(status, text::lossy_text(payload), 8 + payload.len()),
{
    let src = encode_utf8(status) + connection::request_frame(payload) + rest;
    lemma_status(status);
    law_request_header(payload);
    assert(src.subrange(0, 4) == encode_utf8(status));
    assert(src.subrange(4, 8) == connection::request_frame(payload).take(4));
    assert(src.subrange(8, 8 + payload.len() as int) == connection::request_frame(payload).skip(4));
}

/// A text of up to 65535 bytes comes back as it was sent.
pub proof fn law_text_reads_back(status: Seq<char>, message: Seq<char>, rest: Seq<u8>)
    requires
        status == "OKAY"@ || status == "FAIL"@,
        encode_utf8(message).len() <= 0xffff,
    ensures
        connection::status_length_payload_frame(
            encode_utf8(status) + connection::request_frame(encode_utf8(message)) + rest,
        ) == connection::response_frame(status, message, 8 + encode_utf8(message).len()),
{
    law_response_reads_back(status, encode_utf8(message), rest);
    encode_utf8_valid_utf8(message);
    encode_utf8_decode_utf8(message);
}

/// Where only a status is expected, a success is read from its four bytes alone.
pub proof fn law_success_reads_back(rest: Seq<u8>)
    ensures
        connection::status_frame(encode_utf8("OKAY"@) + rest) == connection::response_frame("OKAY"@, Seq::empty(), 4),
{
    lemma_status("OKAY"@);
    assert((encode_utf8("OKAY"@) + rest).subrange(0, 4) == encode_utf8("OKAY"@));
}

/// A status and a line are read as the response with that status and the text of that line, and
/// nothing behind the newline is taken.
pub proof fn law_line_reads_back(status: Seq<char>, line: Seq<u8>, rest: Seq<u8>)
    requires
        status == "OKAY"@ || status == "FAIL"@,
        !line.contains(0x0a),
        4 + line.len() + 1 + rest.len() <= MAX_MESSAGE_SIZE,
    ensures
        connection::status_payload_newline_frame(encode_utf8(status) + line + seq![0x0au8] + rest)
            == connection::response_frame(status, text::lossy_text(line), 4 + line.len() + 1),
{
    let src = encode_utf8(status) + line + seq![0x0au8] + rest;
    lemma_status(status);
    assert(src.subrange(0, 4) == encode_utf8(status));
    let tail = src.skip(4);
    assert(tail == line + seq![0x0au8] + rest);
    tail.index_of_first_ensures(0x0a);
    assert(tail[line.len() as int] == 0x0a);
    assert(forall|i: int| 0 <= i < line.len() ==> tail[i] == line[i] && tail[i] != 0x0a);
    assert(src.subrange(4, 4 + line.len() as int) == line);
}

/// A response takes at least its status from the stream, and no more than is there.
pub proof fn law_responses_take_bytes(layout: AdbResponseDecoderImpl, src: Seq<u8>)
    ensures
        connection::response_in(layout, src) is Frame ==> 4 <= connection::response_in(layout, src).size(),
        connection::response_in(layout, src).size() <= src.len(),
{
    src.skip(4).index_of_first_ensures(0x0a);
}

/// No response is larger than a frame may be, and more is never waited for than such a frame takes
/// up, so a server cannot make the client hold more.
pub proof fn law_responses_are_bounded(layout: AdbResponseDecoderImpl, src: Seq<u8>)
    ensures
        connection::response_in(layout, src).size() <= 8 + MAX_MESSAGE_SIZE,
        connection::response_in(layout, src) is Incomplete ==> src.len() < 8 + MAX_MESSAGE_SIZE,
{
    src.skip(4).index_of_first_ensures(0x0a);
    if src.len() >= 8 {
        connection::lemma_payload_length_bound(src.subrange(4, 8));
    }
}

/// One response behind the other: once the first is taken, the second is at the front.
pub proof fn law_responses_in_sequence(
    layout: AdbResponseDecoderImpl,
    first: Seq<u8>,
    second: Seq<u8>,
)
    requires
        connection::response_in(layout, first) is Frame,
        connection::response_in(layout, first).size() == first.len(),
        layout == AdbResponseDecoderImpl::StatusPayloadNewline && second.len() > 0 ==> first.len()
            + second.len() <= MAX_MESSAGE_SIZE,
    ensures
        connection::response_in(layout, first + second) == connection::response_in(layout, first),
        (first + second).skip(connection::response_in(layout, first + second).size() as int) == second,
{
    law_later_bytes_change_no_response(layout, first, second);
}

/// The responses that a stream of bytes starts with, of a status, a length and a payload each.
pub open spec fn responses_in(src: Seq<u8>) -> Seq<ResponseView>
    decreases src.len(),
{
    match connection::status_length_payload_frame(src) {
        Decoded::Frame { item, size } => if 0 < size <= src.len() {
            seq![item] + responses_in(src.skip(size as int))
        } else {
            Seq::empty()
        },
        _ => Seq::empty(),
    }
}

/// A response, as the server writes it.
pub open spec fn response_bytes(response: ResponseView) -> Seq<u8> {
    match response {
        ResponseView::Okay(message) => encode_utf8("OKAY"@) + connection::request_frame(
            encode_utf8(message),
        ),
        ResponseView::Fail(message) => encode_utf8("FAIL"@) + connection::request_frame(
            encode_utf8(message),
        ),
    }
}

/// Responses one behind the other, as the server writes them.
pub open spec fn response_stream(responses: Seq<ResponseView>) -> Seq<u8>
    decreases responses.len(),
{
    if responses.len() == 0 {
        Seq::empty()
    } else {
        response_bytes(responses.first()) + response_stream(responses.drop_first())
    }
}

/// `response` has a message of at most 65535 bytes.
pub open spec fn has_short_message(response: ResponseView) -> bool {
    match response {
        ResponseView::Okay(message) => encode_utf8(message).len() <= 0xffff,
        ResponseView::Fail(message) => encode_utf8(message).len() <= 0xffff,
    }
}

/// Responses of up to 65535 bytes are read from a stream as they were written to it.
pub proof fn law_response_stream_reads_back(responses: Seq<ResponseView>)
    requires
        forall|i: int| 0 <= i < responses.len() ==> has_short_message(#[trigger] responses[i]),
    ensures
        responses_in(response_stream(responses)) == responses,
    decreases responses.len(),
{
    if responses.len() > 0 {
        let first = responses.first();
        let others = responses.drop_first();
        let rest = response_stream(others);
        let src = response_stream(responses);
        assert(has_short_message(responses[0]));
        assert(forall|i: int| 0 <= i < others.len() ==> others[i] == responses[i + 1]);
        law_response_stream_reads_back(others);
        lemma_status("OKAY"@);
        let (status, message) = match first {
            ResponseView::Okay(message) => ("OKAY"@, message),
            ResponseView::Fail(message) => ("FAIL"@, message),
        };
        lemma_status(status);
        law_text_reads_back(status, message, rest);
        law_request_header(encode_utf8(message));
        assert(src == encode_utf8(status) + connection::request_frame(encode_utf8(message)) + rest);
        assert(src.skip(8 + encode_utf8(message).len() as int) == rest);
        assert(seq![first] + others == responses);
    }
}

/// The bytes of a packet.
pub open spec fn packet_bytes(packet: PacketView) -> Seq<u8> {
    let n = packet.response.len();
    seq![
        packet.id.code(),
        (n % 0x100) as u8,
        (n / 0x100 % 0x100) as u8,
        (n / 0x1_0000 % 0x100) as u8,
        (n / 0x100_0000 % 0x100) as u8,
    ] + packet.response
}

/// A packet is read as it was written, and nothing behind it is taken.
pub proof fn law_packet_reads_back(packet: PacketView, rest: Seq<u8>)
    requires
        packet.response.len() <= MAX_MESSAGE_SIZE,
    ensures
        shell::packet_frame(packet_bytes(packet) + rest) == (Decoded::Frame {
            item: packet,
            size: 5 + packet.response.len(),
        }),
{
    let src = packet_bytes(packet) + rest;
    let n = packet.response.len();
    assert(shell::little_endian(src.subrange(1, 5)) == n);
    assert(src.subrange(5, 5 + n as int) == packet.response);
    assert(AdbShellResponseId::of(src[0]) == packet.id);
}

/// Bytes that arrive later do not change what the bytes before them amount to.
pub proof fn law_later_bytes_change_no_packet(src: Seq<u8>, more: Seq<u8>)
    requires
        !(shell::packet_frame(src) is Incomplete),
    ensures
        shell::packet_frame(src + more) == shell::packet_frame(src),
{
    let all = src + more;
    assert(all.subrange(1, 5) == src.subrange(1, 5));
    let n = shell::little_endian(src.subrange(1, 5));
    if src.len() >= 5 + n {
        assert(all.subrange(5, 5 + n as int) == src.subrange(5, 5 + n as int));
    }
}

/// A packet takes at least its header from the stream, and no more than is there.
pub proof fn law_packets_take_bytes(src: Seq<u8>)
    ensures
        shell::packet_frame(src) is Frame ==> 5 <= shell::packet_frame(src).size(),
        shell::packet_frame(src).size() <= src.len(),
{
}

/// No packet is larger than a frame may be, and more is never waited for than such a packet takes
/// up, so a device cannot make the client hold more.
pub proof fn law_packets_are_bounded(src: Seq<u8>)
    ensures
        shell::packet_frame(src).size() <= 5 + MAX_MESSAGE_SIZE,
        shell::packet_frame(src) is Incomplete ==> src.len() < 5 + MAX_MESSAGE_SIZE,
{
}

/// One packet behind the other: once the first is taken, the second is at the front.
pub proof fn law_packets_in_sequence(first: Seq<u8>, second: Seq<u8>)
    requires
        shell::packet_frame(first) is Frame,
        shell::packet_frame(first).size() == first.len(),
    ensures
        shell::packet_frame(first + second) == shell::packet_frame(first),
        (first + second).skip(shell::packet_frame(first + second).size() as int) == second,
{
    law_later_bytes_change_no_packet(first, second);
}

/// The packets that a stream of bytes starts with.
pub open spec fn packets_in(src: Seq<u8>) -> Seq<PacketView>
    decreases src.len(),
{
    match shell::packet_frame(src) {
        Decoded::Frame { item, size } => if 0 < size <= src.len() {
            seq![item] + packets_in(src.skip(size as int))
        } else {
            Seq::empty()
        },
        _ => Seq::empty(),
    }
}

/// Packets one behind the other.
pub open spec fn packet_stream(packets: Seq<PacketView>) -> Seq<u8>
    decreases packets.len(),
{
    if packets.len() == 0 {
        Seq::empty()
    } else {
        packet_bytes(packets.first()) + packet_stream(packets.drop_first())
    }
}

/// Packets are read from a stream as they were written to it.
pub proof fn law_packet_stream_reads_back(packets: Seq<PacketView>)
    requires
        forall|i: int|
            0 <= i < packets.len() ==> (#[trigger] packets[i]).response.len() <= MAX_MESSAGE_SIZE,
    ensures
        packets_in(packet_stream(packets)) == packets,
    decreases packets.len(),
{
    if packets.len() > 0 {
        let first = packets.first();
        let others = packets.drop_first();
        let rest = packet_stream(others);
        assert(packets[0].response.len() <= MAX_MESSAGE_SIZE);
        assert(forall|i: int| 0 <= i < others.len() ==> others[i] == packets[i + 1]);
        law_packet_stream_reads_back(others);
        law_packet_reads_back(first, rest);
        assert(packet_stream(packets).skip(5 + first.response.len() as int) == rest);
        assert(seq![first] + others == packets);
    }
}

/// What the packets come to, one after the other.
pub open spec fn after_packets<E>(collected: Seq<u8>, packets: Seq<PacketView>) -> ProgressView<E>
    decreases packets.len(),
{
    if packets.len() == 0 {
        ProgressView::Packet(collected)
    } else {
        match after_packets(collected, packets.drop_last()) {
            ProgressView::Packet(so_far) => session::after_packet(
                so_far,
                Some(Ok(packets.last())),
            ),
            progress => progress,
        }
    }
}

/// The output in the packets: what those of the kind for output carry, in order.
pub open spec fn output_of(packets: Seq<PacketView>) -> Seq<u8>
    decreases packets.len(),
{
    if packets.len() == 0 {
        Seq::empty()
    } else if packets.last().id == AdbShellResponseId::Stdout {
        output_of(packets.drop_last()) + packets.last().response
    } else {
        output_of(packets.drop_last())
    }
}

/// Until the command ends, its output is collected, and every other packet is passed over.
pub proof fn law_output_is_collected<E>(collected: Seq<u8>, packets: Seq<PacketView>)
    requires
        forall|i: int|
            0 <= i < packets.len() ==> (#[trigger] packets[i]).id != AdbShellResponseId::Exit,
    ensures
        after_packets::<E>(collected, packets) == ProgressView::<E>::Packet(
            collected + output_of(packets),
        ),
    decreases packets.len(),
{
    if packets.len() == 0 {
        assert(collected + output_of(packets) == collected);
    } else {
        law_output_is_collected::<E>(collected, packets.drop_last());
        let so_far = output_of(packets.drop_last());
        assert(packets.last() == packets[packets.len() - 1]);
        if packets.last().id == AdbShellResponseId::Stdout {
            assert(collected + so_far + packets.last().response == collected + output_of(packets));
        }
    }
}

/// A command's result is all of its output before it ended, whatever comes behind that.
pub proof fn law_output_is_the_result<E>(packets: Seq<PacketView>, end: int)
    requires
        0 <= end < packets.len(),
        packets[end].id == AdbShellResponseId::Exit,
        forall|i: int| 0 <= i < end ==> (#[trigger] packets[i]).id != AdbShellResponseId::Exit,
    ensures
        after_packets::<E>(Seq::empty(), packets) == session::output_text::<E>(
            output_of(packets.take(end)),
        ),
    decreases packets.len(),
{
    if end == packets.len() - 1 {
        let before = packets.take(end);
        assert(packets.drop_last() == before);
        law_output_is_collected::<E>(Seq::empty(), before);
        assert(Seq::empty() + output_of(before) == output_of(before));
    } else {
        law_output_is_the_result::<E>(packets.drop_last(), end);
        assert(packets.drop_last().take(end) == packets.take(end));
    }
}

/// The exchanges that are made, in order, where the replies are the given ones.
pub open spec fn requests_sent<E>(
    session: SessionView,
    replies: Seq<Option<Result<ResponseView, E>>>,
) -> Seq<ExchangeView>
    decreases replies.len(),
{
    if replies.len() == 0 {
        seq![session.exchange]
    } else {
        match session::after_reply(session.pending, replies.first()) {
            ProgressView::Exchange(next) => seq![session.exchange] + requests_sent(
                next,
                replies.drop_first(),
            ),
            _ => seq![session.exchange],
        }
    }
}

/// What the replies come to, one after the other.
pub open spec fn after_replies<E>(
    session: SessionView,
    replies: Seq<Option<Result<ResponseView, E>>>,
) -> ProgressView<E>
    decreases replies.len(),
{
    if replies.len() == 0 {
        ProgressView::Exchange(session)
    } else {
        match session::after_reply(session.pending, replies.first()) {
            ProgressView::Exchange(next) => after_replies(next, replies.drop_first()),
            progress => progress,
        }
    }
}

/// A request that the server refuses, that it does not answer or that cannot be sent ends the
/// operation with that failure: a refusal with the server's own words, silence with a note of it,
/// and an error of the stream with that error.
pub proof fn law_refusal_ends_operation<E>(
    session: SessionView,
    reply: Option<Result<ResponseView, E>>,
)
    requires
        !(reply matches Some(Ok(ResponseView::Okay(_)))),
    ensures
        session::after_reply(session.pending, reply) == ProgressView::<E>::Finished(
            Err(
                match reply {
                    Some(Ok(ResponseView::Fail(message))) => FailureView::Protocol(
                        ErrorView::Failed(message),
                    ),
                    Some(Err(error)) => FailureView::Transport(error),
                    _ => FailureView::Protocol(ErrorView::Failed("No response"@)),
                },
            ),
        ),
{
}

/// An operation without a device sends one request, and comes to what the response to it comes to,
/// or to its failure.
pub proof fn law_server_operation<E>(
    request: Seq<char>,
    goal: Goal,
    replies: Seq<Option<Result<ResponseView, E>>>,
)
    requires
        replies.len() >= 1,
    ensures
        requests_sent(session::single(request, goal), replies) == seq![session::ask(request, None)],
        after_replies(session::single(request, goal), replies) == (match session::message_of(
            replies[0],
        ) {
            Err(failure) => ProgressView::Finished(Err(failure)),
            Ok(message) => session::concluded(goal, message),
        }),
{
}

/// An operation on a device sends its command only once the device is selected, and sends nothing
/// after that.
pub proof fn law_command_follows_selection<E>(
    device: Device,
    selected: Option<AdbResponseDecoderImpl>,
    command: ExchangeView,
    goal: Goal,
    replies: Seq<Option<Result<ResponseView, E>>>,
)
    ensures
        requests_sent(session::on_device(device, selected, command, goal), replies) == (if
        replies.len() > 0 && session::message_of(replies[0]) is Ok {
            seq![session::ask(device.transport(), selected), command]
        } else {
            seq![session::ask(device.transport(), selected)]
        }),
{
    reveal_with_fuel(requests_sent, 3);
}

/// An operation on a device comes to what the response to its command comes to, or to the failure
/// of the selection or the command.
pub proof fn law_device_operation<E>(
    device: Device,
    selected: Option<AdbResponseDecoderImpl>,
    command: ExchangeView,
    goal: Goal,
    replies: Seq<Option<Result<ResponseView, E>>>,
)
    requires
        replies.len() >= 2,
    ensures
        after_replies(session::on_device(device, selected, command, goal), replies) == (
        match session::message_of(replies[0]) {
            Err(failure) => ProgressView::Finished(Err(failure)),
            Ok(_) => match session::message_of(replies[1]) {
                Err(failure) => ProgressView::Finished(Err(failure)),
                Ok(message) => session::concluded(goal, message),
            },
        }),
{
    reveal_with_fuel(after_replies, 3);
    assert(replies.drop_first().first() == replies[1]);
}

/// Different devices are selected by different requests.
pub proof fn law_devices_told_apart(a: Device, b: Device)
    requires
        a.transport() == b.transport(),
    ensures
        match (a, b) {
            (Device::Serial(x), Device::Serial(y)) => x@ == y@,
            _ => a == b,
        },
{
    reveal_strlit("host:transport-any");
    reveal_strlit("host:transport-usb");
    reveal_strlit("host:transport-local");
    reveal_strlit("host:transport:");
    let s = a.transport();
    let t = b.transport();
    assert("host:transport-any"@[14] == '-' && "host:transport-any"@[15] == 'a');
    assert("host:transport-usb"@[14] == '-' && "host:transport-usb"@[15] == 'u');
    assert("host:transport-local"@[14] == '-' && "host:transport-local"@[15] == 'l');
    assert("host:transport:"@[14] == ':');
    assert(s[14] == t[14] && s[15] == t[15]);
    if let (Device::Serial(x), Device::Serial(y)) = (a, b) {
        assert(s.skip(15) == x@);
        assert(t.skip(15) == y@);
    }
}

/// Different things to connect to are named by different requests.
pub proof fn law_remotes_told_apart(a: Remote, b: Remote)
    requires
        a.address() == b.address(),
    ensures
        match (a, b) {
            (Remote::Unix(x), Remote::Unix(y)) => x@ == y@,
            _ => a == b,
        },
{
    reveal_strlit("tcp:");
    reveal_strlit("local:");
    reveal_strlit("jdwp:");
    let s = a.address();
    let t = b.address();
    assert("tcp:"@[0] == 't' && "local:"@[0] == 'l' && "jdwp:"@[0] == 'j');
    assert(s[0] == t[0]);
    assert(a is Tcp ==> s[0] == 't');
    assert(a is Unix ==> s[0] == 'l');
    assert(a is Jwp ==> s[0] == 'j');
    match (a, b) {
        (Remote::Tcp(x), Remote::Tcp(y)) => {
            assert(s.skip(4) == numeral::decimal(x as nat));
            assert(t.skip(4) == numeral::decimal(y as nat));
            numeral::lemma_numeral_reads_back(x as nat, 10, 1);
            numeral::lemma_numeral_reads_back(y as nat, 10, 1);
        },
        (Remote::Unix(x), Remote::Unix(y)) => {
            assert(s.skip(6) == x@);
            assert(t.skip(6) == y@);
        },
        (Remote::Jwp(x), Remote::Jwp(y)) => {
            assert(s.skip(5) == numeral::decimal(x as nat));
            assert(t.skip(5) == numeral::decimal(y as nat));
            numeral::lemma_numeral_reads_back(x as nat, 10, 1);
            numeral::lemma_numeral_reads_back(y as nat, 10, 1);
        },
        _ => {},
    }
}

/// A device on a line, as the server writes it.
pub open spec fn device_line(device: DeviceView) -> Seq<char> {
    device.id.push('\t') + device.device_type
}

/// A list of devices, as the server writes it: a line for each.
pub open spec fn listing(devices: Seq<DeviceView>) -> Seq<char>
    decreases devices.len(),
{
    if devices.len() == 0 {
        Seq::empty()
    } else {
        (listing(devices.drop_last()) + device_line(devices.last())).push('\n')
    }
}

/// The lines of a list of devices.
pub open spec fn device_lines(devices: Seq<DeviceView>) -> Seq<Seq<char>> {
    devices.map_values(|d: DeviceView| device_line(d))
}

/// `column` can stand on a line between tabs.
pub open spec fn is_column(column: Seq<char>) -> bool {
    !column.contains('\t') && !column.contains('\n')
}

/// A line for a device holds that device.
proof fn lemma_device_line(device: DeviceView)
    requires
        is_column(device.id),
        is_column(device.device_type),
    ensures
        client::device_on(device_line(device)) == Some(device),
        !device_line(device).contains('\n'),
{
    let columns = seq![device.id, device.device_type];
    text::law_joined_splits_back(columns, '\t');
    assert(columns.drop_last() == seq![device.id]);
    assert(text::joined(columns.drop_last(), '\t') == device.id);
    assert(text::joined(columns, '\t') == device_line(device));
    assert forall|i: int| 0 <= i < device_line(device).len() implies device_line(device)[i]
        != '\n' by {
        if i < device.id.len() {
            assert(device.id.contains(device.id[i]));
        } else if i > device.id.len() {
            let k = i - device.id.len() - 1;
            assert(device.device_type.contains(device.device_type[k]));
        }
    }
}

/// The lines of a list are the lines for its devices.
proof fn lemma_listing_lines(devices: Seq<DeviceView>)
    requires
        devices.len() > 0,
        forall|i: int|
            0 <= i < devices.len() ==> is_column((#[trigger] devices[i]).id) && is_column(
                devices[i].device_type,
            ),
    ensures
        listing(devices) == text::joined(device_lines(devices), '\n').push('\n'),
        client::devices_on(device_lines(devices)) == devices,
    decreases devices.len(),
{
    let lines = device_lines(devices);
    let less = devices.drop_last();
    let fewer = device_lines(less);
    assert(lines.drop_last() == fewer);
    assert(lines.last() == device_line(devices.last()));
    assert(devices.last() == devices[devices.len() - 1]);
    lemma_device_line(devices.last());
    assert(less.push(devices.last()) == devices);
    if less.len() > 0 {
        assert(forall|i: int| 0 <= i < less.len() ==> less[i] == devices[i]);
        lemma_listing_lines(less);
        assert(listing(devices) == (text::joined(fewer, '\n').push('\n')
            + lines.last()).push('\n'));
    } else {
        assert(lines[0] == lines.last());
        assert(listing(less) == Seq::<char>::empty());
        assert(Seq::<char>::empty() + device_line(devices.last()) == device_line(devices.last()));
        assert(client::devices_on(fewer) == Seq::<DeviceView>::empty());
    }
}

/// The devices that the server lists are the devices that are read, each with its id and its type
/// and in the server's order. (The list as a whole loses the white space at its ends, so there the
/// first id must not start with any and the last type must not end with any; and neither can hold
/// the tabs and newlines that a list is made with.)
pub proof fn law_device_list_reads_back(devices: Seq<DeviceView>)
    requires
        forall|i: int|
            0 <= i < devices.len() ==> is_column((#[trigger] devices[i]).id) && is_column(
                devices[i].device_type,
            ),
        devices.len() > 0 ==> devices[0].id.len() > 0 && !text::is_white_space(
            devices[0].id.first(),
        ),
        devices.len() > 0 ==> devices.last().device_type.len() > 0 && !text::is_white_space(
            devices.last().device_type.last(),
        ),
    ensures
        client::device_list(listing(devices)) == devices,
{
    let list = listing(devices);
    if devices.len() == 0 {
        assert(text::trimmed(list) == list);
        assert(text::pieces(list, '\n') == seq![Seq::<char>::empty()]);
        assert(text::pieces(Seq::<char>::empty(), '\t') == seq![Seq::<char>::empty()]);
        let lines = seq![Seq::<char>::empty()];
        assert(lines.drop_last() == Seq::<Seq<char>>::empty());
        assert(client::devices_on(lines.drop_last()) == Seq::<DeviceView>::empty());
        assert(client::device_on(lines.last()) is None);
        assert(client::devices_on(lines) == devices);
    } else {
        let lines = device_lines(devices);
        let body = text::joined(lines, '\n');
        lemma_listing_lines(devices);
        assert forall|i: int| 0 <= i < lines.len() implies !(#[trigger] lines[i]).contains(
            '\n',
        ) by {
            lemma_device_line(devices[i]);
        }
        text::law_joined_splits_back(lines, '\n');
        lemma_joined_ends(lines);
        assert(lines[0].first() == devices[0].id.first());
        assert(lines.last().last() == devices.last().device_type.last());
        assert(list.first() == body.first());
        assert(text::trimmed_start(list) == list);
        assert(list.drop_last() == body);
        assert(text::trimmed_end(body) == body);
        assert(text::trimmed_end(list) == text::trimmed_end(body));
    }
}

/// Joined lines start as the first of them and end as the last.
proof fn lemma_joined_ends(lines: Seq<Seq<char>>)
    requires
        lines.len() > 0,
        lines[0].len() > 0,
        lines.last().len() > 0,
    ensures
        text::joined(lines, '\n').len() > 0,
        text::joined(lines, '\n').first() == lines[0].first(),
        text::joined(lines, '\n').last() == lines.last().last(),
{
    lemma_joined_start(lines);
}

proof fn lemma_joined_start(lines: Seq<Seq<char>>)
    requires
        lines.len() > 0,
        lines[0].len() > 0,
    ensures
        text::joined(lines, '\n').len() > 0,
        text::joined(lines, '\n').first() == lines[0].first(),
    decreases lines.len(),
{
    if lines.len() > 1 {
        lemma_joined_start(lines.drop_last());
    }
}

/// Whatever the server lists, neither the id nor the type of a device that is read from it holds a
/// tab or a newline.
pub proof fn law_listed_devices_are_plain(list: Seq<char>)
    ensures
        forall|i: int|
            0 <= i < client::device_list(list).len() ==> is_column(
                (#[trigger] client::device_list(list)[i]).id,
            ) && is_column(client::device_list(list)[i].device_type),
{
    let lines = text::pieces(text::trimmed(list), '\n');
    text::law_split_joins_back(text::trimmed(list), '\n');
    lemma_devices_are_plain(lines);
}

proof fn lemma_devices_are_plain(lines: Seq<Seq<char>>)
    requires
        forall|i: int| 0 <= i < lines.len() ==> !(#[trigger] lines[i]).contains('\n'),
    ensures
        forall|i: int|
            0 <= i < client::devices_on(lines).len() ==> is_column(
                (#[trigger] client::devices_on(lines)[i]).id,
            ) && is_column(client::devices_on(lines)[i].device_type),
    decreases lines.len(),
{
    if lines.len() > 0 {
        let fewer = lines.drop_last();
        assert(forall|i: int| 0 <= i < fewer.len() ==> fewer[i] == lines[i]);
        lemma_devices_are_plain(fewer);
        let line = lines.last();
        assert(line == lines[lines.len() - 1]);
        text::law_split_joins_back(line, '\t');
        let columns = text::pieces(line, '\t');
        if columns.len() >= 2 {
            assert(!columns[0].contains('\t') && !columns[1].contains('\t'));
            assert(columns[0].contains('\n') ==> line.contains('\n'));
            assert(columns[1].contains('\n') ==> line.contains('\n'));
        }
        let before = client::devices_on(fewer);
        let devices = client::devices_on(lines);
        assert forall|i: int| 0 <= i < devices.len() implies is_column(
            (#[trigger] devices[i]).id,
        ) && is_column(devices[i].device_type) by {
            if i < before.len() {
                assert(devices[i] == before[i]);
            }
        }
    }
}

} // verus!
