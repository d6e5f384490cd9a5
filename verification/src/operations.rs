//! What the operations of the client come to, call by call.
//!
//! Each law speaks of what the functions return: of the session that an operation starts with, and
//! of what becomes of it as the server's responses are handed in one after the other.

use crate::client::{self, Device, DeviceListItem, DeviceView, Remote, ToDevice};
use crate::connection::{AdbRequest, AdbResponse, AdbResponseDecoderImpl};
use crate::laws;
use crate::numeral;
use crate::session::{self, Exchange, Failure, Outcome, Pending, Progress, Session, ShellOutput};
use crate::shell::{AdbShellPacket, AdbShellResponseId};
use crate::text;
use crate::util::{AdbError, FrameTooLarge};
use vstd::prelude::*;
use vstd::string::*;
use vstd::utf8::*;

verus! {

broadcast use vstd::seq_lib::group_seq_properties;

/// Different texts are encoded by different bytes.
proof fn lemma_same_text(a: Seq<char>, b: Seq<char>)
    requires
        encode_utf8(a) == encode_utf8(b),
    ensures
        a == b,
{
    encode_utf8_decode_utf8(a);
    encode_utf8_decode_utf8(b);
}

/// The server is asked for its version in so many words, and the answer is handed on as it is.
pub proof fn law_get_host_version<E>(session: Session, message: String, end: Progress<E>)
    requires
        call_ensures(Session::get_host_version, (), session),
        call_ensures(
            Pending::reply::<E>,
            (session.pending, Some(Ok::<AdbResponse, E>(AdbResponse::OKAY { message }))),
            end,
        ),
    ensures
        session.exchange.request@ == encode_utf8("host:version"@),
        session.exchange.decoder_impl is None,
        end matches Progress::Finished(Ok(Outcome::Message(m))) && m@ == message@,
{
}

/// The server is asked to connect to the given address. It is connected exactly where the answer
/// starts with one of two phrases; any other answer is the failure.
pub proof fn law_connect_device_to_server<E>(
    connection_string: &str,
    session: Session,
    message: String,
    end: Progress<E>,
)
    requires
        call_ensures(Session::connect_device_to_server, (connection_string,), session),
        call_ensures(
            Pending::reply::<E>,
            (session.pending, Some(Ok::<AdbResponse, E>(AdbResponse::OKAY { message }))),
            end,
        ),
    ensures
        session.exchange.request@ == encode_utf8("host:connect:"@ + connection_string@),
        session.exchange.decoder_impl is None,
        end == Progress::<E>::Finished(Ok(Outcome::Done)) <==> (
        "already connected to"@.is_prefix_of(message@) || "connected to"@.is_prefix_of(message@)),
        end == Progress::<E>::Finished(Ok(Outcome::Done)) || (end matches Progress::Finished(
            Err(Failure::Protocol(AdbError::FailedResponseStatus(m))),
        ) && m@ == message@),
{
}

/// To have a device listen on a port, the device is selected, and then told "tcpip:" and the port
/// in decimal. What the device answers on one line is handed on as it is.
pub proof fn law_tcpip<D: ToDevice, E>(
    device: D,
    port: u16,
    session: Session,
    selected: String,
    next: Progress<E>,
    message: String,
    end: Progress<E>,
)
    requires
        call_ensures(Session::tcpip::<D>, (device, port), session),
        call_ensures(
            Pending::reply::<E>,
            (session.pending, Some(Ok::<AdbResponse, E>(AdbResponse::OKAY { message: selected }))),
            next,
        ),
        next matches Progress::Exchange(s) ==> call_ensures(
            Pending::reply::<E>,
            (s.pending, Some(Ok::<AdbResponse, E>(AdbResponse::OKAY { message }))),
            end,
        ),
    ensures
        exists|d: Device| #[trigger]
            call_ensures(D::to_device, (&device,), d) && session.exchange.request@ == encode_utf8(
                match d {
                    Device::Default => "host:transport-any"@,
                    Device::Usb => "host:transport-usb"@,
                    Device::TcpIp => "host:transport-local"@,
                    Device::Serial(serial) => "host:transport:"@ + serial@,
                },
            ),
        session.exchange.decoder_impl == Some(AdbResponseDecoderImpl::Status),
        next matches Progress::Exchange(s) && s.exchange.decoder_impl == Some(
            AdbResponseDecoderImpl::StatusPayloadNewline,
        ) && exists|digits: Seq<char>| #[trigger]
            numeral::spells(digits, port as nat, 10, 1) && s.exchange.request@ == encode_utf8(
                "tcpip:"@ + digits,
            ),
        end matches Progress::Finished(Ok(Outcome::Message(m))) && m@ == message@,
{
    numeral::law_numeral_spells(port as nat, 10, 1);
}

/// Different ports are told to a device by different commands.
pub proof fn law_ports_told_apart<D: ToDevice, E>(
    device: D,
    port: u16,
    session: Session,
    selected: String,
    next: Session,
    other_device: D,
    other_port: u16,
    other_session: Session,
    other_selected: String,
    other_next: Session,
)
    requires
        call_ensures(Session::tcpip::<D>, (device, port), session),
        call_ensures(
            Pending::reply::<E>,
            (session.pending, Some(Ok::<AdbResponse, E>(AdbResponse::OKAY { message: selected }))),
            Progress::Exchange(next),
        ),
        call_ensures(Session::tcpip::<D>, (other_device, other_port), other_session),
        call_ensures(
            Pending::reply::<E>,
            (
                other_session.pending,
                Some(Ok::<AdbResponse, E>(AdbResponse::OKAY { message: other_selected })),
            ),
            Progress::Exchange(other_next),
        ),
        next.exchange.request@ == other_next.exchange.request@,
    ensures
        port == other_port,
{
    let ours = numeral::decimal(port as nat);
    let theirs = numeral::decimal(other_port as nat);
    numeral::law_numeral_spells(port as nat, 10, 1);
    numeral::law_numeral_spells(other_port as nat, 10, 1);
    assert(next.exchange@.request == encode_utf8("tcpip:"@ + ours));
    assert(other_next.exchange@.request == encode_utf8("tcpip:"@ + theirs));
    lemma_same_text("tcpip:"@ + ours, "tcpip:"@ + theirs);
    assert(("tcpip:"@ + ours).skip("tcpip:"@.len() as int) == ours);
    assert(("tcpip:"@ + theirs).skip("tcpip:"@.len() as int) == theirs);
}

/// To connect to something on a device, the device is selected, and then told what it is: a port
/// in decimal, the path of a socket, or the number of a process in decimal. Two successes are all
/// that is needed.
pub proof fn law_connect_to_device<D: ToDevice, E>(
    device: D,
    remote: Remote,
    session: Session,
    selected: String,
    next: Progress<E>,
    message: String,
    end: Progress<E>,
)
    requires
        call_ensures(Session::connect_to_device::<D>, (device, remote), session),
        call_ensures(
            Pending::reply::<E>,
            (session.pending, Some(Ok::<AdbResponse, E>(AdbResponse::OKAY { message: selected }))),
            next,
        ),
        next matches Progress::Exchange(s) ==> call_ensures(
            Pending::reply::<E>,
            (s.pending, Some(Ok::<AdbResponse, E>(AdbResponse::OKAY { message }))),
            end,
        ),
    ensures
        exists|d: Device| #[trigger]
            call_ensures(D::to_device, (&device,), d) && session.exchange.request@ == encode_utf8(
                match d {
                    Device::Default => "host:transport-any"@,
                    Device::Usb => "host:transport-usb"@,
                    Device::TcpIp => "host:transport-local"@,
                    Device::Serial(serial) => "host:transport:"@ + serial@,
                },
            ),
        session.exchange.decoder_impl == Some(AdbResponseDecoderImpl::Status),
        next matches Progress::Exchange(s) && s.exchange.decoder_impl == Some(
            AdbResponseDecoderImpl::Status,
        ) && match remote {
            Remote::Tcp(port) => exists|digits: Seq<char>| #[trigger]
                numeral::spells(digits, port as nat, 10, 1) && s.exchange.request@ == encode_utf8(
                    "tcp:"@ + digits,
                ),
            Remote::Unix(path) => s.exchange.request@ == encode_utf8("local:"@ + path@),
            Remote::Jwp(pid) => exists|digits: Seq<char>| #[trigger]
                numeral::spells(digits, pid as nat, 10, 1) && s.exchange.request@ == encode_utf8(
                    "jdwp:"@ + digits,
                ),
        },
        end == Progress::<E>::Finished(Ok(Outcome::Done)),
{
    match remote {
        Remote::Tcp(port) => numeral::law_numeral_spells(port as nat, 10, 1),
        Remote::Unix(_) => {},
        Remote::Jwp(pid) => numeral::law_numeral_spells(pid as nat, 10, 1),
    }
}

/// To have connections forwarded to a device, the device is selected, and then told both ends, with
/// a semicolon between them. Two successes are all that is needed.
pub proof fn law_forward_server<D: ToDevice, E>(
    device: D,
    local: &str,
    remote: &str,
    session: Session,
    selected: String,
    next: Progress<E>,
    message: String,
    end: Progress<E>,
)
    requires
        call_ensures(Session::forward_server::<D>, (device, local, remote), session),
        call_ensures(
            Pending::reply::<E>,
            (session.pending, Some(Ok::<AdbResponse, E>(AdbResponse::OKAY { message: selected }))),
            next,
        ),
        next matches Progress::Exchange(s) ==> call_ensures(
            Pending::reply::<E>,
            (s.pending, Some(Ok::<AdbResponse, E>(AdbResponse::OKAY { message }))),
            end,
        ),
    ensures
        exists|d: Device| #[trigger]
            call_ensures(D::to_device, (&device,), d) && session.exchange.request@ == encode_utf8(
                match d {
                    Device::Default => "host:transport-any"@,
                    Device::Usb => "host:transport-usb"@,
                    Device::TcpIp => "host:transport-local"@,
                    Device::Serial(serial) => "host:transport:"@ + serial@,
                },
            ),
        session.exchange.decoder_impl is None,
        next matches Progress::Exchange(s) && s.exchange.decoder_impl is None
            && s.exchange.request@ == encode_utf8("forward:tcp:"@ + local@ + ";"@ + remote@),
        end == Progress::<E>::Finished(Ok(Outcome::Done)),
{
}

/// Both ends can be read back from the command by which a device is told of them, as long as the
/// first holds no semicolon.
pub proof fn law_forwards_told_apart<D: ToDevice, E>(
    device: D,
    local: &str,
    remote: &str,
    session: Session,
    selected: String,
    next: Session,
    other_device: D,
    other_local: &str,
    other_remote: &str,
    other_session: Session,
    other_selected: String,
    other_next: Session,
)
    requires
        call_ensures(Session::forward_server::<D>, (device, local, remote), session),
        call_ensures(
            Pending::reply::<E>,
            (session.pending, Some(Ok::<AdbResponse, E>(AdbResponse::OKAY { message: selected }))),
            Progress::Exchange(next),
        ),
        call_ensures(
            Session::forward_server::<D>,
            (other_device, other_local, other_remote),
            other_session,
        ),
        call_ensures(
            Pending::reply::<E>,
            (
                other_session.pending,
                Some(Ok::<AdbResponse, E>(AdbResponse::OKAY { message: other_selected })),
            ),
            Progress::Exchange(other_next),
        ),
        next.exchange.request@ == other_next.exchange.request@,
        !local@.contains(';'),
        !other_local@.contains(';'),
    ensures
        local@ == other_local@,
        remote@ == other_remote@,
{
    let head = "forward:tcp:"@;
    let ours = head + local@ + ";"@ + remote@;
    let theirs = head + other_local@ + ";"@ + other_remote@;
    assert(next.exchange@.request == encode_utf8(ours));
    assert(other_next.exchange@.request == encode_utf8(theirs));
    lemma_same_text(ours, theirs);
    reveal_strlit(";");
    let a = ours.skip(head.len() as int);
    let b = theirs.skip(head.len() as int);
    assert(a == local@ + ";"@ + remote@);
    assert(b == other_local@ + ";"@ + other_remote@);
    assert(a[local@.len() as int] == ';');
    assert(b[other_local@.len() as int] == ';');
    if local@.len() < other_local@.len() {
        assert(other_local@[local@.len() as int] == ';');
    }
    if other_local@.len() < local@.len() {
        assert(local@[other_local@.len() as int] == ';');
    }
    assert(a.take(local@.len() as int) == local@);
    assert(b.take(other_local@.len() as int) == other_local@);
    assert(a.skip(local@.len() as int + 1) == remote@);
    assert(b.skip(other_local@.len() as int + 1) == other_remote@);
}

/// Whatever a response was for, a refusal ends the operation with the server's own words, an error
/// of the stream with that error, and the end of the stream with a note of it: nothing is sent any
/// more, and nothing is made of the response.
pub proof fn law_failure_ends_operation<E>(
    pending: Pending,
    item: Option<Result<AdbResponse, E>>,
    end: Progress<E>,
)
    requires
        call_ensures(Pending::reply::<E>, (pending, item), end),
    ensures
        match item {
            Some(Ok(AdbResponse::OKAY { .. })) => true,
            Some(Ok(AdbResponse::FAIL { message })) => end matches Progress::Finished(
                Err(Failure::Protocol(AdbError::FailedResponseStatus(m))),
            ) && m@ == message@,
            Some(Err(error)) => end == Progress::Finished(
                Err::<Outcome, Failure<E>>(Failure::Transport(error)),
            ),
            None => end matches Progress::Finished(
                Err(Failure::Protocol(AdbError::FailedResponseStatus(m))),
            ) && m@ == "No response"@,
        },
{
}

/// What comes from the stream is a success with its message, or the failure that it stands for.
pub proof fn law_next_message<E>(
    item: Option<Result<AdbResponse, E>>,
    result: Result<String, Failure<E>>,
)
    requires
        call_ensures(session::next_message::<E>, (item,), result),
    ensures
        match item {
            Some(Ok(AdbResponse::OKAY { message })) => result matches Ok(m) && m@ == message@,
            Some(Ok(AdbResponse::FAIL { message })) => result matches Err(
                Failure::Protocol(AdbError::FailedResponseStatus(m)),
            ) && m@ == message@,
            Some(Err(error)) => result == Err::<String, Failure<E>>(Failure::Transport(error)),
            None => result matches Err(Failure::Protocol(AdbError::FailedResponseStatus(m)))
                && m@ == "No response"@,
        },
{
}

/// What the packets for output carry, one behind the other.
pub open spec fn output_in(packets: Seq<AdbShellPacket>) -> Seq<u8> {
    packets.filter(|p: AdbShellPacket| p.id == AdbShellResponseId::Stdout).map_values(
        |p: AdbShellPacket| p.response@,
    ).flatten()
}

/// The output of one more packet stands behind that of the others.
proof fn lemma_output_in(packets: Seq<AdbShellPacket>)
    ensures
        packets.len() == 0 ==> output_in(packets) == Seq::<u8>::empty(),
        packets.len() > 0 ==> output_in(packets) == output_in(packets.drop_last()) + (if
        packets.last().id == AdbShellResponseId::Stdout {
            packets.last().response@
        } else {
            Seq::empty()
        }),
{
    reveal(Seq::filter);
    let is_output = |p: AdbShellPacket| p.id == AdbShellResponseId::Stdout;
    let carried = |p: AdbShellPacket| p.response@;
    if packets.len() > 0 {
        let kept = packets.drop_last().filter(is_output);
        if is_output(packets.last()) {
            assert(packets.filter(is_output).map_values(carried) == kept.map_values(carried).push(
                packets.last().response@,
            ));
            kept.map_values(carried).lemma_flatten_push(packets.last().response@);
        } else {
            assert(packets.filter(is_output) == kept);
            assert(output_in(packets.drop_last()) + Seq::<u8>::empty() == output_in(
                packets.drop_last(),
            ));
        }
    }
}

/// Packets before the command ends add their output to what is there.
proof fn lemma_output_is_collected<E>(
    output: ShellOutput,
    packets: Seq<AdbShellPacket>,
    steps: Seq<Progress<E>>,
    n: int,
)
    requires
        steps.len() == packets.len() + 1,
        steps[0] == Progress::<E>::Packet(output),
        forall|i: int|
            0 <= i < packets.len() ==> (steps[i] matches Progress::Packet(o) ==> call_ensures(
                ShellOutput::packet::<E>,
                (o, Some(Ok::<AdbShellPacket, E>(#[trigger] packets[i]))),
                steps[i + 1],
            )),
        forall|i: int|
            0 <= i < packets.len() ==> (#[trigger] packets[i]).id != AdbShellResponseId::Exit,
        0 <= n <= packets.len(),
    ensures
        steps[n] matches Progress::Packet(o) && o@ == output@ + output_in(packets.take(n)),
    decreases n,
{
    lemma_output_in(packets.take(n));
    if n == 0 {
        assert(output@ + Seq::<u8>::empty() == output@);
    } else {
        lemma_output_is_collected(output, packets, steps, n - 1);
        assert(packets.take(n).drop_last() == packets.take(n - 1));
        assert(packets.take(n).last() == packets[n - 1]);
        if let Progress::Packet(o) = steps[n - 1] {
            assert(call_ensures(
                ShellOutput::packet::<E>,
                (o, Some(Ok::<AdbShellPacket, E>(packets[n - 1]))),
                steps[n],
            ));
            assert(output@ + (output_in(packets.take(n - 1)) + packets[n - 1].response@) == output@
                + output_in(packets.take(n - 1)) + packets[n - 1].response@);
            assert(output_in(packets.take(n - 1)) + Seq::<u8>::empty() == output_in(
                packets.take(n - 1),
            ));
        }
    }
}

/// To run a command, the device is selected, and then told the command. What the command has
/// written to its output before it ended, taken together, is the result: all of it, in order, and
/// nothing else.
pub proof fn law_shell<D: ToDevice, E>(
    device: D,
    command: &str,
    session: Session,
    selected: String,
    next: Progress<E>,
    started: String,
    packets: Seq<AdbShellPacket>,
    steps: Seq<Progress<E>>,
    exit: AdbShellPacket,
    text: Seq<char>,
    end: Progress<E>,
)
    requires
        call_ensures(Session::shell::<D>, (device, command), session),
        call_ensures(
            Pending::reply::<E>,
            (session.pending, Some(Ok::<AdbResponse, E>(AdbResponse::OKAY { message: selected }))),
            next,
        ),
        steps.len() == packets.len() + 1,
        next matches Progress::Exchange(s) ==> call_ensures(
            Pending::reply::<E>,
            (s.pending, Some(Ok::<AdbResponse, E>(AdbResponse::OKAY { message: started }))),
            steps[0],
        ),
        forall|i: int|
            0 <= i < packets.len() ==> (steps[i] matches Progress::Packet(o) ==> call_ensures(
                ShellOutput::packet::<E>,
                (o, Some(Ok::<AdbShellPacket, E>(#[trigger] packets[i]))),
                steps[i + 1],
            )),
        steps.last() matches Progress::Packet(o) ==> call_ensures(
            ShellOutput::packet::<E>,
            (o, Some(Ok::<AdbShellPacket, E>(exit))),
            end,
        ),
        forall|i: int|
            0 <= i < packets.len() ==> (#[trigger] packets[i]).id != AdbShellResponseId::Exit,
        exit.id == AdbShellResponseId::Exit,
        output_in(packets) == encode_utf8(text),
    ensures
        exists|d: Device| #[trigger]
            call_ensures(D::to_device, (&device,), d) && session.exchange.request@ == encode_utf8(
                match d {
                    Device::Default => "host:transport-any"@,
                    Device::Usb => "host:transport-usb"@,
                    Device::TcpIp => "host:transport-local"@,
                    Device::Serial(serial) => "host:transport:"@ + serial@,
                },
            ),
        session.exchange.decoder_impl == Some(AdbResponseDecoderImpl::Status),
        next matches Progress::Exchange(s) && s.exchange.decoder_impl == Some(
            AdbResponseDecoderImpl::Status,
        ) && s.exchange.request@ == encode_utf8("shell,v2,TERM=xterm-256color,raw:"@ + command@),
        forall|i: int| 0 <= i < steps.len() ==> #[trigger] steps[i] is Packet,
        end matches Progress::Finished(Ok(Outcome::Message(m))) && m@ == text,
{
    assert(steps[0] is Packet);
    if let Progress::Packet(output) = steps[0] {
        assert forall|i: int| 0 <= i < steps.len() implies #[trigger] steps[i] is Packet by {
            lemma_output_is_collected(output, packets, steps, i);
        }
        lemma_output_is_collected(output, packets, steps, packets.len() as int);
        assert(packets.take(packets.len() as int) == packets);
        assert(output@ + output_in(packets) == output_in(packets));
        encode_utf8_valid_utf8(text);
        encode_utf8_decode_utf8(text);
    }
}

/// A command whose output is not text comes to an error that says so, and not to a part of it.
pub proof fn law_shell_output_is_text<D: ToDevice, E>(
    device: D,
    command: &str,
    session: Session,
    selected: String,
    next: Progress<E>,
    started: String,
    packets: Seq<AdbShellPacket>,
    steps: Seq<Progress<E>>,
    exit: AdbShellPacket,
    end: Progress<E>,
)
    requires
        call_ensures(Session::shell::<D>, (device, command), session),
        call_ensures(
            Pending::reply::<E>,
            (session.pending, Some(Ok::<AdbResponse, E>(AdbResponse::OKAY { message: selected }))),
            next,
        ),
        steps.len() == packets.len() + 1,
        next matches Progress::Exchange(s) ==> call_ensures(
            Pending::reply::<E>,
            (s.pending, Some(Ok::<AdbResponse, E>(AdbResponse::OKAY { message: started }))),
            steps[0],
        ),
        forall|i: int|
            0 <= i < packets.len() ==> (steps[i] matches Progress::Packet(o) ==> call_ensures(
                ShellOutput::packet::<E>,
                (o, Some(Ok::<AdbShellPacket, E>(#[trigger] packets[i]))),
                steps[i + 1],
            )),
        steps.last() matches Progress::Packet(o) ==> call_ensures(
            ShellOutput::packet::<E>,
            (o, Some(Ok::<AdbShellPacket, E>(exit))),
            end,
        ),
        forall|i: int|
            0 <= i < packets.len() ==> (#[trigger] packets[i]).id != AdbShellResponseId::Exit,
        exit.id == AdbShellResponseId::Exit,
        !valid_utf8(output_in(packets)),
    ensures
        end matches Progress::Finished(Err(Failure::Protocol(AdbError::Utf8StringError(e)))) && e
            == text::utf8_error(output_in(packets)),
{
    assert(steps[0] is Packet);
    if let Progress::Packet(output) = steps[0] {
        lemma_output_is_collected(output, packets, steps, packets.len() as int);
        assert(packets.take(packets.len() as int) == packets);
        assert(output@ + output_in(packets) == output_in(packets));
    }
}

/// As long as no packet says that the command has ended, more packets are read. Where they stop
/// coming there is no result, however much output there was: an error of the stream is handed on,
/// and its end is reported.
pub proof fn law_shell_cut_short<E>(
    output: ShellOutput,
    packets: Seq<AdbShellPacket>,
    steps: Seq<Progress<E>>,
    last: Option<Result<AdbShellPacket, E>>,
    end: Progress<E>,
)
    requires
        steps.len() == packets.len() + 1,
        steps[0] == Progress::<E>::Packet(output),
        forall|i: int|
            0 <= i < packets.len() ==> (steps[i] matches Progress::Packet(o) ==> call_ensures(
                ShellOutput::packet::<E>,
                (o, Some(Ok::<AdbShellPacket, E>(#[trigger] packets[i]))),
                steps[i + 1],
            )),
        steps.last() matches Progress::Packet(o) ==> call_ensures(
            ShellOutput::packet::<E>,
            (o, last),
            end,
        ),
        forall|i: int|
            0 <= i < packets.len() ==> (#[trigger] packets[i]).id != AdbShellResponseId::Exit,
        !(last matches Some(Ok(_))),
    ensures
        forall|i: int| 0 <= i < steps.len() ==> #[trigger] steps[i] is Packet,
        match last {
            Some(Err(error)) => end == Progress::Finished(
                Err::<Outcome, Failure<E>>(Failure::Transport(error)),
            ),
            _ => end matches Progress::Finished(
                Err(Failure::Protocol(AdbError::FailedResponseStatus(m))),
            ) && m@ == "No response"@,
        },
{
    assert forall|i: int| 0 <= i < steps.len() implies #[trigger] steps[i] is Packet by {
        lemma_output_is_collected(output, packets, steps, i);
    }
    assert(steps.last() is Packet);
}

/// Every device that the server lists is in the result, with its id and its type, and in the
/// server's order, however many there are. (The list as a whole loses the white space at its ends,
/// so there the first id must not start with any and the last type must not end with any; and
/// neither can hold the tabs and newlines that a list is made with.)
pub proof fn law_get_device_list<E>(
    session: Session,
    devices: Seq<DeviceView>,
    message: String,
    end: Progress<E>,
)
    requires
        call_ensures(Session::get_device_list, (), session),
        call_ensures(
            Pending::reply::<E>,
            (session.pending, Some(Ok::<AdbResponse, E>(AdbResponse::OKAY { message }))),
            end,
        ),
        message@ == devices.map_values(
            |d: DeviceView| (d.id.push('\t') + d.device_type).push('\n'),
        ).flatten(),
        forall|i: int|
            0 <= i < devices.len() ==> !(#[trigger] devices[i]).id.contains('\t')
                && !devices[i].id.contains('\n') && !devices[i].device_type.contains('\t')
                && !devices[i].device_type.contains('\n'),
        devices.len() > 0 ==> devices[0].id.len() > 0 && !text::is_white_space(
            devices[0].id.first(),
        ),
        devices.len() > 0 ==> devices.last().device_type.len() > 0 && !text::is_white_space(
            devices.last().device_type.last(),
        ),
    ensures
        session.exchange.request@ == encode_utf8("host:devices"@),
        session.exchange.decoder_impl is None,
        end matches Progress::Finished(Ok(Outcome::Devices(items))) && items@.len()
            == devices.len() && forall|i: int|
            0 <= i < devices.len() ==> (#[trigger] items@[i]).id@ == devices[i].id
                && items@[i].device_type@ == devices[i].device_type,
{
    lemma_listing(devices);
    laws::law_device_list_reads_back(devices);
    lemma_listed_devices::<E>(session, message, end);
}

/// A list is its lines, one behind the other.
proof fn lemma_listing(devices: Seq<DeviceView>)
    ensures
        laws::listing(devices) == devices.map_values(
            |d: DeviceView| (d.id.push('\t') + d.device_type).push('\n'),
        ).flatten(),
    decreases devices.len(),
{
    let line = |d: DeviceView| (d.id.push('\t') + d.device_type).push('\n');
    let lines = devices.map_values(line);
    if devices.len() > 0 {
        let less = devices.drop_last();
        lemma_listing(less);
        assert(lines == less.map_values(line).push(line(devices.last())));
        less.map_values(line).lemma_flatten_push(line(devices.last()));
        assert(laws::listing(devices) == laws::listing(less) + line(devices.last()));
    }
}

/// The result is the devices in the message.
proof fn lemma_listed_devices<E>(session: Session, message: String, end: Progress<E>)
    requires
        call_ensures(Session::get_device_list, (), session),
        call_ensures(
            Pending::reply::<E>,
            (session.pending, Some(Ok::<AdbResponse, E>(AdbResponse::OKAY { message }))),
            end,
        ),
    ensures
        end matches Progress::Finished(Ok(Outcome::Devices(items))) && items@.len()
            == client::device_list(message@).len() && forall|i: int|
            0 <= i < items@.len() ==> (#[trigger] items@[i]).id@ == client::device_list(
                message@,
            )[i].id && items@[i].device_type@ == client::device_list(message@)[i].device_type,
{
    if let Progress::Finished(Ok(Outcome::Devices(items))) = end {
        let views = client::devices(items@);
        assert(views == client::device_list(message@));
        assert(forall|i: int| 0 <= i < items@.len() ==> views[i] == (#[trigger] items@[i])@);
    }
}

/// What is read from a list of devices, whatever it holds: white space at its ends is dropped, and
/// of what is left, every line with a tab in it gives one device, in order. Its id is what stands
/// before the first tab, its type what stands between that and the next tab or the end of the line.
pub proof fn law_get_device_list_by_lines<E>(
    session: Session,
    left: Seq<char>,
    body: Seq<char>,
    right: Seq<char>,
    lines: Seq<Seq<char>>,
    message: String,
    end: Progress<E>,
)
    requires
        call_ensures(Session::get_device_list, (), session),
        call_ensures(
            Pending::reply::<E>,
            (session.pending, Some(Ok::<AdbResponse, E>(AdbResponse::OKAY { message }))),
            end,
        ),
        message@ == left + body + right,
        forall|i: int| 0 <= i < left.len() ==> text::is_white_space(#[trigger] left[i]),
        forall|i: int| 0 <= i < right.len() ==> text::is_white_space(#[trigger] right[i]),
        body.len() > 0 ==> !text::is_white_space(body.first()) && !text::is_white_space(
            body.last(),
        ),
        body.push('\n') == lines.map_values(|line: Seq<char>| line.push('\n')).flatten(),
        forall|i: int| 0 <= i < lines.len() ==> !(#[trigger] lines[i]).contains('\n'),
    ensures
        end matches Progress::Finished(Ok(Outcome::Devices(items))) && are_devices_on(
            items@,
            lines.filter(|line: Seq<char>| line.contains('\t')),
        ),
{
    lemma_device_list(left, body, right, lines);
    lemma_listed_devices::<E>(session, message, end);
}

/// What a list of devices holds, line by line.
proof fn lemma_device_list(
    left: Seq<char>,
    body: Seq<char>,
    right: Seq<char>,
    lines: Seq<Seq<char>>,
)
    requires
        forall|i: int| 0 <= i < left.len() ==> text::is_white_space(#[trigger] left[i]),
        forall|i: int| 0 <= i < right.len() ==> text::is_white_space(#[trigger] right[i]),
        body.len() > 0 ==> !text::is_white_space(body.first()) && !text::is_white_space(
            body.last(),
        ),
        body.push('\n') == lines.map_values(|line: Seq<char>| line.push('\n')).flatten(),
        forall|i: int| 0 <= i < lines.len() ==> !(#[trigger] lines[i]).contains('\n'),
    ensures
        client::device_list(left + body + right).len() == lines.filter(
            |line: Seq<char>| line.contains('\t'),
        ).len(),
        forall|i: int|
            0 <= i < client::device_list(left + body + right).len() ==> is_device_on(
                (#[trigger] client::device_list(left + body + right)[i]).id,
                client::device_list(left + body + right)[i].device_type,
                lines.filter(|line: Seq<char>| line.contains('\t'))[i],
            ),
{
    lemma_trimmed(left, body, right);
    text::lemma_parts_ended(lines, '\n');
    text::law_joined_splits_back(lines, '\n');
    assert(text::joined(lines, '\n') == body) by {
        assert(text::joined(lines, '\n').push('\n').drop_last() == body.push('\n').drop_last());
        assert(body.push('\n').drop_last() == body);
    }
    lemma_devices_on(lines);
}

/// A list of devices is read line by line, whoever asked for it.
pub proof fn law_parse_device_list(
    list: &str,
    left: Seq<char>,
    body: Seq<char>,
    right: Seq<char>,
    lines: Seq<Seq<char>>,
    items: Vec<DeviceListItem>,
)
    requires
        call_ensures(client::parse_device_list, (list,), items),
        list@ == left + body + right,
        forall|i: int| 0 <= i < left.len() ==> text::is_white_space(#[trigger] left[i]),
        forall|i: int| 0 <= i < right.len() ==> text::is_white_space(#[trigger] right[i]),
        body.len() > 0 ==> !text::is_white_space(body.first()) && !text::is_white_space(
            body.last(),
        ),
        body.push('\n') == lines.map_values(|line: Seq<char>| line.push('\n')).flatten(),
        forall|i: int| 0 <= i < lines.len() ==> !(#[trigger] lines[i]).contains('\n'),
    ensures
        are_devices_on(items@, lines.filter(|line: Seq<char>| line.contains('\t'))),
{
    lemma_device_list(left, body, right, lines);
    let views = client::devices(items@);
    assert(forall|i: int| 0 <= i < items@.len() ==> views[i] == (#[trigger] items@[i])@);
}

/// The items are the devices on the given lines, one for each: on every line, up to a tab or its
/// end, first the id stands and then the type.
pub open spec fn are_devices_on(items: Seq<DeviceListItem>, lines: Seq<Seq<char>>) -> bool {
    &&& items.len() == lines.len()
    &&& forall|i: int|
        0 <= i < items.len() ==> is_device_on(
            (#[trigger] items[i]).id@,
            items[i].device_type@,
            lines[i],
        )
}

/// Up to a tab or the end of the line, first `id` stands on it and then `device_type`.
pub open spec fn is_device_on(
    id: Seq<char>,
    device_type: Seq<char>,
    line: Seq<char>,
) -> bool {
    &&& (id.push('\t') + device_type.push('\t')).is_prefix_of(line.push('\t'))
    &&& !id.contains('\t')
    &&& !device_type.contains('\t')
}

/// Nothing but the white space at the ends is dropped.
proof fn lemma_trimmed(left: Seq<char>, body: Seq<char>, right: Seq<char>)
    requires
        forall|i: int| 0 <= i < left.len() ==> text::is_white_space(#[trigger] left[i]),
        forall|i: int| 0 <= i < right.len() ==> text::is_white_space(#[trigger] right[i]),
        body.len() > 0 ==> !text::is_white_space(body.first()) && !text::is_white_space(
            body.last(),
        ),
    ensures
        text::trimmed(left + body + right) == body,
    decreases left.len() + right.len(),
{
    let all = left + body + right;
    if left.len() > 0 {
        assert(all.first() == left[0]);
        assert(all.drop_first() == left.drop_first() + body + right);
        assert(forall|i: int|
            0 <= i < left.drop_first().len() ==> left.drop_first()[i] == left[i + 1]);
        lemma_trimmed(left.drop_first(), body, right);
    } else if body.len() > 0 {
        assert(all == body + right);
        assert(all.first() == body.first());
        lemma_trimmed_end(body, right);
    } else if right.len() > 0 {
        assert(all.first() == right[0]);
        assert(all.drop_first() == left + body + right.drop_first());
        assert(forall|i: int|
            0 <= i < right.drop_first().len() ==> right.drop_first()[i] == right[i + 1]);
        lemma_trimmed(left, body, right.drop_first());
    } else {
        assert(all == body);
    }
}

proof fn lemma_trimmed_end(body: Seq<char>, right: Seq<char>)
    requires
        forall|i: int| 0 <= i < right.len() ==> text::is_white_space(#[trigger] right[i]),
        body.len() > 0,
        !text::is_white_space(body.last()),
    ensures
        text::trimmed_end(body + right) == body,
    decreases right.len(),
{
    let all = body + right;
    if right.len() > 0 {
        assert(all.last() == right[right.len() - 1]);
        assert(all.drop_last() == body + right.drop_last());
        assert(forall|i: int|
            0 <= i < right.drop_last().len() ==> right.drop_last()[i] == right[i]);
        lemma_trimmed_end(body, right.drop_last());
    } else {
        assert(all == body);
    }
}

/// The first two columns of a line stand in front on it.
proof fn lemma_columns(columns: Seq<Seq<char>>)
    requires
        columns.len() >= 2,
    ensures
        (columns[0].push('\t') + columns[1].push('\t')).is_prefix_of(
            text::joined(columns, '\t').push('\t'),
        ),
        text::joined(columns, '\t').contains('\t'),
    decreases columns.len(),
{
    let less = columns.drop_last();
    let line = text::joined(columns, '\t');
    let front = columns[0].push('\t') + columns[1].push('\t');
    let head = text::joined(less, '\t');
    assert(line == head.push('\t') + columns.last());
    assert(line[head.len() as int] == '\t');
    if columns.len() == 2 {
        assert(head == columns[0]);
        assert(line.push('\t') == front);
        assert(front.take(front.len() as int) == front);
    } else {
        lemma_columns(less);
        assert(front == head.push('\t').take(front.len() as int));
        assert(line.push('\t').take(front.len() as int) == head.push('\t').take(
            front.len() as int,
        ));
    }
}

/// A line gives a device exactly where it has a tab in it, and the device is what stands on it.
proof fn lemma_device_on(line: Seq<char>)
    ensures
        client::device_on(line) is Some <==> line.contains('\t'),
        client::device_on(line) matches Some(d) ==> is_device_on(d.id, d.device_type, line),
{
    let columns = text::pieces(line, '\t');
    text::law_split_joins_back(line, '\t');
    text::lemma_pieces_nonempty(line, '\t');
    if columns.len() >= 2 {
        lemma_columns(columns);
        assert(!columns[0].contains('\t') && !columns[1].contains('\t'));
    } else {
        assert(!columns[0].contains('\t'));
        assert(columns[0] == line);
    }
}

/// The devices on lines are those on the lines with a tab in them.
proof fn lemma_devices_on(lines: Seq<Seq<char>>)
    ensures
        client::devices_on(lines).len() == lines.filter(
            |line: Seq<char>| line.contains('\t'),
        ).len(),
        forall|i: int|
            0 <= i < client::devices_on(lines).len() ==> is_device_on(
                (#[trigger] client::devices_on(lines)[i]).id,
                client::devices_on(lines)[i].device_type,
                lines.filter(|line: Seq<char>| line.contains('\t'))[i],
            ),
    decreases lines.len(),
{
    reveal(Seq::filter);
    if lines.len() > 0 {
        lemma_devices_on(lines.drop_last());
        lemma_device_on(lines.last());
    }
}

/// A device is selected by one of three fixed requests, or by its serial number behind a fourth,
/// and the request that goes out is that text.
pub proof fn law_device_as_request(device: Device, text: String, request: AdbRequest)
    requires
        call_ensures(Device::to_string, (&device,), text),
        call_ensures(<AdbRequest as From<Device>>::from, (device,), request),
    ensures
        text@ == (match device {
            Device::Default => "host:transport-any"@,
            Device::Usb => "host:transport-usb"@,
            Device::TcpIp => "host:transport-local"@,
            Device::Serial(serial) => "host:transport:"@ + serial@,
        }),
        request@ == encode_utf8(text@),
{
}

/// A device means itself, a copy of it is the same, and text means the device with that serial
/// number.
pub proof fn law_which_device(
    device: Device,
    copy: Device,
    meant: Device,
    serial: &str,
    by_serial: Device,
    owned: &String,
    by_owned: Device,
)
    requires
        call_ensures(<Device as Clone>::clone, (&device,), copy),
        call_ensures(<Device as ToDevice>::to_device, (&device,), meant),
        call_ensures(<&str as ToDevice>::to_device, (&serial,), by_serial),
        call_ensures(<&String as ToDevice>::to_device, (&owned,), by_owned),
    ensures
        copy == device,
        meant == device,
        by_serial matches Device::Serial(s) && s@ == serial@,
        by_owned matches Device::Serial(s) && s@ == owned@,
{
}

/// What to connect to is named by its kind and a number in decimal or a path.
pub proof fn law_remote_as_text(remote: Remote, text: String)
    requires
        call_ensures(Remote::to_string, (&remote,), text),
    ensures
        match remote {
            Remote::Tcp(port) => exists|digits: Seq<char>| #[trigger]
                numeral::spells(digits, port as nat, 10, 1) && text@ == "tcp:"@ + digits,
            Remote::Unix(path) => text@ == "local:"@ + path@,
            Remote::Jwp(pid) => exists|digits: Seq<char>| #[trigger]
                numeral::spells(digits, pid as nat, 10, 1) && text@ == "jdwp:"@ + digits,
        },
{
    match remote {
        Remote::Tcp(port) => numeral::law_numeral_spells(port as nat, 10, 1),
        Remote::Unix(_) => {},
        Remote::Jwp(pid) => numeral::law_numeral_spells(pid as nat, 10, 1),
    }
}

/// An error says what the server said, or how long the frame would have been.
pub proof fn law_error_as_text(
    error: AdbError,
    text: String,
    too_large: FrameTooLarge,
    length_text: String,
)
    requires
        call_ensures(AdbError::to_string, (&error,), text),
        call_ensures(FrameTooLarge::to_string, (&too_large,), length_text),
    ensures
        match error {
            AdbError::IOError(e) => exists|digits: Seq<char>| #[trigger]
                numeral::spells(digits, e.length as nat, 10, 1) && text@ == "Frame of length "@
                    + digits + " is too large."@,
            AdbError::Utf8StringError(e) => to_string_from_display_ensures(&e, text),
            AdbError::ParseIntError(e) => to_string_from_display_ensures(&e, text),
            AdbError::FailedResponseStatus(message) => text@ == "FAILED response status: "@
                + message@,
            AdbError::UnknownResponseStatus(status) => text@ == "Unknown response status: "@
                + status@,
        },
        exists|digits: Seq<char>| #[trigger]
            numeral::spells(digits, too_large.length as nat, 10, 1) && length_text@
                == "Frame of length "@ + digits + " is too large."@,
{
    numeral::law_numeral_spells(too_large.length as nat, 10, 1);
    if let AdbError::IOError(e) = error {
        numeral::law_numeral_spells(e.length as nat, 10, 1);
    }
}

/// A copy of a listed device is the same device.
pub proof fn law_listed_device_is_copied(item: DeviceListItem, copy: DeviceListItem)
    requires
        call_ensures(<DeviceListItem as Clone>::clone, (&item,), copy),
    ensures
        copy == item,
{
}

/// An exchange sends the given text and sets the given layout.
pub proof fn law_exchange(
    request: &str,
    decoder_impl: Option<AdbResponseDecoderImpl>,
    exchange: Exchange,
)
    requires
        call_ensures(Exchange::new, (request, decoder_impl), exchange),
    ensures
        exchange.request@ == encode_utf8(request@),
        exchange.decoder_impl == decoder_impl,
{
}

} // verus!
