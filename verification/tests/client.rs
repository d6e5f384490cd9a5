//! Whole operations, against what a server and a device send.

use adb_client::connection::{AdbRequestEncoder, AdbResponse, AdbResponseDecoder};
use adb_client::connection::{AdbRequest, AdbResponseDecoderImpl};
use adb_client::session::{next_message, Failure, Outcome, Progress, Session, ShellOutput};
use adb_client::shell::AdbShellDecoder;
use adb_client::{AdbError, Device, Remote, ToDevice};
use tokio_util::bytes::BytesMut;

/// Runs the exchanges of `session` on the bytes that the server answers with. Gives back the
/// requests that were sent, what the session came to, and the bytes that are left.
fn run(session: Session, answers: &[u8]) -> (Vec<u8>, Progress<AdbError>, BytesMut) {
    let mut sent = BytesMut::new();
    let mut stream = BytesMut::from(answers);
    let mut encoder = AdbRequestEncoder::new();
    let mut decoder = AdbResponseDecoder::new();
    let mut session = session;
    loop {
        encoder.encode(session.exchange.request, &mut sent).unwrap();
        if let Some(decoder_impl) = session.exchange.decoder_impl {
            decoder.decoder_impl = decoder_impl;
        }
        let reply = match decoder.decode(&mut stream) {
            Ok(Some(response)) => Some(Ok(response)),
            Ok(None) => None,
            Err(error) => Some(Err(error)),
        };
        match session.pending.reply(reply) {
            Progress::Exchange(next) => session = next,
            progress => return (sent.to_vec(), progress, stream),
        }
    }
}

/// Hands the packets in `stream` to `output`, one by one.
fn collect(output: ShellOutput, stream: &mut BytesMut) -> Progress<AdbError> {
    let mut decoder = AdbShellDecoder::new();
    let mut output = output;
    loop {
        let packet = match decoder.decode(stream) {
            Ok(Some(packet)) => Some(Ok(packet)),
            Ok(None) => None,
            Err(error) => Some(Err(error)),
        };
        match output.packet(packet) {
            Progress::Packet(more) => output = more,
            progress => return progress,
        }
    }
}

/// The output of a shell session on the given bytes.
fn shell_output(session: Session, answers: &[u8]) -> (Vec<u8>, Result<String, String>) {
    let (sent, progress, mut stream) = run(session, answers);
    match progress {
        Progress::Packet(output) => (sent, message(collect(output, &mut stream))),
        progress => (sent, message(progress)),
    }
}

fn message(progress: Progress<AdbError>) -> Result<String, String> {
    match progress {
        Progress::Finished(Ok(Outcome::Message(message))) => Ok(message),
        Progress::Finished(Err(Failure::Protocol(error))) => Err(error.to_string()),
        Progress::Finished(Err(Failure::Transport(error))) => {
            Err(format!("transport: {}", error.to_string()))
        }
        _ => panic!("no message"),
    }
}

fn packet(id: u8, payload: &[u8]) -> Vec<u8> {
    let mut bytes = vec![id];
    bytes.extend_from_slice(&(payload.len() as u32).to_le_bytes());
    bytes.extend_from_slice(payload);
    bytes
}

#[test]
fn test_failure() {
    let mut sent = BytesMut::new();
    AdbRequestEncoder::new().encode(AdbRequest::new("host:abcd"), &mut sent).unwrap();
    assert_eq!(&sent[..], b"0009host:abcd");

    let mut decoder = AdbResponseDecoder::new();
    decoder.decoder_impl = AdbResponseDecoderImpl::Status;
    let mut stream = BytesMut::from(&b"FAIL0014unknown host service"[..]);
    let reply = decoder.decode(&mut stream).unwrap().unwrap();
    let response = next_message::<AdbError>(Some(Ok(reply)));

    match response.err().unwrap() {
        Failure::Protocol(error) => assert_eq!(
            "FAILED response status: unknown host service".to_string(),
            error.to_string()
        ),
        _ => panic!("not a failure of the server"),
    }
}

#[test]
fn test_get_host_version_command() {
    let (sent, progress, rest) = run(Session::get_host_version(), b"OKAY00040029");
    assert_eq!(sent, b"000chost:version");
    assert_eq!(message(progress), Ok("0029".to_string()));
    assert!(rest.is_empty());
}

#[test]
fn test_get_devices_command() {
    let (sent, progress, _) = run(Session::get_device_list(), b"OKAY001608261JECB10524\tdevice\n");
    assert_eq!(sent, b"000chost:devices");
    match progress {
        Progress::Finished(Ok(Outcome::Devices(devices))) => {
            assert_eq!(devices.len(), 1);
            assert_eq!(devices[0].id, "08261JECB10524");
            assert_eq!(devices[0].device_type, "device");
        }
        _ => panic!("no devices"),
    }
}

#[test]
fn test_tcpip_command() {
    let (sent, progress, _) = run(
        Session::tcpip("08261JECB10524", 5555),
        b"OKAYOKAYrestarting in TCP mode port: 5555\n",
    );
    assert_eq!(sent, b"001dhost:transport:08261JECB10524000atcpip:5555");
    assert_eq!(message(progress), Ok("restarting in TCP mode port: 5555".to_string()));
}

#[test]
fn test_get_prop_command() {
    let mut answers = b"OKAYOKAY".to_vec();
    answers.extend(packet(1, b"Goo"));
    answers.extend(packet(2, b"a warning"));
    answers.extend(packet(1, b"gle\n"));
    answers.extend(packet(3, &[0]));
    let (sent, manufacturer) = shell_output(
        Session::shell("08261JECB10524", "getprop ro.product.manufacturer"),
        &answers,
    );
    assert_eq!(
        sent,
        b"001dhost:transport:08261JECB105240040shell,v2,TERM=xterm-256color,raw:getprop ro.product.manufacturer"
            .to_vec()
    );
    assert_eq!(manufacturer, Ok("Google\n".to_string()));

    let mut answers = b"OKAYOKAY".to_vec();
    answers.extend(packet(1, "Pixel 4a \u{2603}\n".as_bytes()));
    answers.extend(packet(3, &[0]));
    let (_, model) =
        shell_output(Session::shell("08261JECB10524", "getprop ro.product.model"), &answers);
    assert_eq!(model, Ok("Pixel 4a \u{2603}\n".to_string()));
}

#[test]
fn shell_fails_without_exit() {
    let mut answers = b"OKAYOKAY".to_vec();
    answers.extend(packet(1, b"partial"));
    let (_, output) = shell_output(Session::shell(Device::Default, "cat"), &answers);
    assert_eq!(output, Err("FAILED response status: No response".to_string()));
}

#[test]
fn shell_passes_over_what_follows_exit() {
    let mut answers = b"OKAYOKAY".to_vec();
    answers.extend(packet(1, b"out"));
    answers.extend(packet(3, &[1]));
    answers.extend(packet(1, b"late"));
    let (_, output) = shell_output(Session::shell(Device::Default, "x"), &answers);
    assert_eq!(output, Ok("out".to_string()));
}

#[test]
fn shell_output_must_be_utf8() {
    let mut answers = b"OKAYOKAY".to_vec();
    answers.extend(packet(1, &[0x61, 0xff]));
    answers.extend(packet(3, &[0]));
    let (_, output) = shell_output(Session::shell(Device::Default, "x"), &answers);
    assert_eq!(output, Err("invalid utf-8 sequence of 1 bytes from index 1".to_string()));
}

#[test]
fn shell_output_split_inside_a_character() {
    let snowman = "\u{2603}".as_bytes();
    let mut answers = b"OKAYOKAY".to_vec();
    answers.extend(packet(1, &snowman[..1]));
    answers.extend(packet(1, &snowman[1..]));
    answers.extend(packet(3, &[0]));
    let (_, output) = shell_output(Session::shell(Device::Default, "x"), &answers);
    assert_eq!(output, Ok("\u{2603}".to_string()));
}

#[test]
fn shell_packet_too_large() {
    let mut answers = b"OKAYOKAY".to_vec();
    answers.extend_from_slice(&[1, 1, 0, 0x80, 0]);
    let (_, output) = shell_output(Session::shell(Device::Default, "x"), &answers);
    assert_eq!(output, Err("transport: Frame of length 8388609 is too large.".to_string()));
}

#[test]
fn command_is_not_sent_to_an_unknown_device() {
    let (sent, output) =
        shell_output(Session::shell("nope", "reboot"), b"FAIL0017device 'nope' not found");
    assert_eq!(sent, b"0013host:transport:nope");
    assert_eq!(output, Err("FAILED response status: device 'nope' not found".to_string()));
}

#[test]
fn silence_is_no_response() {
    let (sent, progress, _) = run(Session::get_host_version(), b"");
    assert_eq!(sent, b"000chost:version");
    assert_eq!(message(progress), Err("FAILED response status: No response".to_string()));
}

#[test]
fn errors_of_the_stream_are_handed_on() {
    let progress = Session::get_host_version().pending.reply::<u32>(Some(Err(7)));
    match progress {
        Progress::Finished(Err(Failure::Transport(error))) => assert_eq!(error, 7),
        _ => panic!("the error is lost"),
    }
    let (_, progress, _) = run(Session::shell(Device::Default, "x"), b"OKAYOKAY");
    match progress {
        Progress::Packet(output) => match output.packet::<u32>(Some(Err(8))) {
            Progress::Finished(Err(Failure::Transport(error))) => assert_eq!(error, 8),
            _ => panic!("the error is lost"),
        },
        _ => panic!("no packets"),
    }
}

#[test]
fn connect_device_to_server_by_message() {
    for (answer, connected) in [
        ("already connected to 10.0.0.1:5", true),
        ("connected to 10.0.0.1:5", true),
        ("cannot reach 10.0.0.1:5", false),
        ("not connected to 10.0.0.1:5", false),
        ("connected t", false),
        ("", false),
    ] {
        let (sent, progress, _) = run(
            Session::connect_device_to_server("10.0.0.1:5"),
            format!("OKAY{:04x}{}", answer.len(), answer).as_bytes(),
        );
        assert_eq!(sent, b"0017host:connect:10.0.0.1:5");
        match progress {
            Progress::Finished(Ok(Outcome::Done)) => assert!(connected),
            Progress::Finished(Err(Failure::Protocol(AdbError::FailedResponseStatus(message)))) => {
                assert!(!connected);
                assert_eq!(message, answer);
            }
            _ => panic!("neither connected nor not"),
        }
    }
}

#[test]
fn connect_to_device_sends_the_remote() {
    for (remote, request) in [
        (Remote::Tcp(8080), &b"0008tcp:8080"[..]),
        (Remote::Unix("/tmp/s".to_string()), &b"000clocal:/tmp/s"[..]),
        (Remote::Jwp(0), &b"0006jdwp:0"[..]),
    ] {
        let (sent, progress, rest) =
            run(Session::connect_to_device(Device::TcpIp, remote), b"OKAYOKAYdata");
        let mut expected = b"0014host:transport-local".to_vec();
        expected.extend_from_slice(request);
        assert_eq!(sent, expected);
        assert!(matches!(progress, Progress::Finished(Ok(Outcome::Done))));
        assert_eq!(&rest[..], b"data");
    }
}

#[test]
fn forward_server_keeps_the_layout() {
    let session = Session::forward_server(Device::Usb, "6000", "tcp:7000");
    assert!(session.exchange.decoder_impl.is_none());
    let (sent, progress, _) = run(session, b"OKAY0000OKAY0000");
    assert_eq!(sent, b"0012host:transport-usb0019forward:tcp:6000;tcp:7000");
    assert!(matches!(progress, Progress::Finished(Ok(Outcome::Done))));
}

#[test]
fn devices_as_text() {
    assert_eq!(Device::Default.to_string(), "host:transport-any");
    assert_eq!(Device::Usb.to_string(), "host:transport-usb");
    assert_eq!(Device::TcpIp.to_string(), "host:transport-local");
    assert_eq!(Device::Serial("a b".to_string()).to_string(), "host:transport:a b");
    assert_eq!("x".to_device().to_string(), "host:transport:x");
    assert_eq!((&"y".to_string()).to_device().to_string(), "host:transport:y");
    assert_eq!(Device::Usb.to_device().to_string(), "host:transport-usb");
    assert_eq!(Device::Serial("z".to_string()).clone().to_string(), "host:transport:z");
}

#[test]
fn remotes_as_text() {
    assert_eq!(Remote::Tcp(65535).to_string(), "tcp:65535");
    assert_eq!(Remote::Unix("x".to_string()).to_string(), "local:x");
    assert_eq!(Remote::Jwp(10).to_string(), "jdwp:10");
}

#[test]
fn next_message_of_a_response() {
    let okay = AdbResponse::OKAY { message: "fine".to_string() };
    assert_eq!(next_message::<u8>(Some(Ok(okay))).ok(), Some("fine".to_string()));
}

#[test]
fn devices_and_remotes_are_told_apart() {
    let devices = [
        Device::Default,
        Device::Usb,
        Device::TcpIp,
        Device::Serial("".to_string()),
        Device::Serial("any".to_string()),
        Device::Serial("-any".to_string()),
    ];
    for (i, a) in devices.iter().enumerate() {
        for (k, b) in devices.iter().enumerate() {
            assert_eq!(a.to_string() == b.to_string(), i == k);
        }
    }
    let remotes = [
        Remote::Tcp(1),
        Remote::Tcp(10),
        Remote::Jwp(1),
        Remote::Unix("1".to_string()),
        Remote::Unix("".to_string()),
    ];
    for (i, a) in remotes.iter().enumerate() {
        for (k, b) in remotes.iter().enumerate() {
            assert_eq!(a.to_string() == b.to_string(), i == k);
        }
    }
}
