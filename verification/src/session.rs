//! The exchanges that an operation of the client consists of.
//!
//! Nothing here reads or writes. A [`Session`] says which request to send and how its response is
//! laid out; the response, handed to [`Pending::reply`], gives the [`Progress`]: another exchange,
//! packets to be read and handed to [`ShellOutput::packet`], or the end.

use crate::client::{self, Device, DeviceListItem, DeviceView, Remote, ToDevice};
use crate::connection::{AdbRequest, AdbResponse, AdbResponseDecoderImpl, ResponseView};
use crate::numeral;
use crate::shell::{AdbShellPacket, AdbShellResponseId, PacketView};
use crate::text;
use crate::util::{AdbError, ErrorView};
use vstd::prelude::*;
use vstd::string::*;
use vstd::utf8::*;

verus! {

/// Why an operation failed.
#[derive(Debug)]
pub enum Failure<E> {
    /// Sending or receiving failed.
    Transport(E),
    /// The server's answer is a failure.
    Protocol(AdbError),
}

/// Why an operation failed, as a mathematical value.
pub enum FailureView<E> {
    Transport(E),
    Protocol(ErrorView),
}

impl<E> View for Failure<E> {
    type V = FailureView<E>;

    open spec fn view(&self) -> FailureView<E> {
        match self {
            Failure::Transport(e) => FailureView::Transport(*e),
            Failure::Protocol(e) => FailureView::Protocol(e@),
        }
    }
}

/// What an operation came to.
#[derive(Debug)]
pub enum Outcome {
    /// The server's message, or the output of a command.
    Message(String),
    /// The devices that the server knows.
    Devices(Vec<DeviceListItem>),
    /// Nothing but success.
    Done,
}

/// What an operation came to, as a mathematical value.
pub enum OutcomeView {
    Message(Seq<char>),
    Devices(Seq<DeviceView>),
    Done,
}

impl View for Outcome {
    type V = OutcomeView;

    open spec fn view(&self) -> OutcomeView {
        match self {
            Outcome::Message(message) => OutcomeView::Message(message@),
            Outcome::Devices(items) => OutcomeView::Devices(client::devices(items@)),
            Outcome::Done => OutcomeView::Done,
        }
    }
}

/// What the last response of an operation is for.
#[derive(Debug, Clone, Copy, PartialEq, Eq, Structural)]
pub enum Goal {
    /// Its message is the outcome.
    Message,
    /// Its message lists devices.
    Devices,
    /// Its message says whether a device is connected.
    Connected,
    /// It has to be a success.
    Success,
    /// It has to be a success, and the output of a command follows.
    Output,
}

/// A request, and the layout of the response to it.
#[derive(Debug)]
pub struct Exchange {
    /// The request to send.
    pub request: AdbRequest,
    /// The layout from here on; none to keep the one that is set.
    pub decoder_impl: Option<AdbResponseDecoderImpl>,
}

/// A request and the layout of its response, as a mathematical value.
pub struct ExchangeView {
    pub request: Seq<u8>,
    pub decoder_impl: Option<AdbResponseDecoderImpl>,
}

impl View for Exchange {
    type V = ExchangeView;

    open spec fn view(&self) -> ExchangeView {
        ExchangeView { request: self.request@, decoder_impl: self.decoder_impl }
    }
}

/// What is to become of the response to a request.
#[derive(Debug)]
pub struct Pending {
    /// The exchange that follows, if the response is a success.
    pub follow_up: Option<Exchange>,
    /// What the last response is for.
    pub goal: Goal,
}

/// What is to become of a response, as a mathematical value.
pub struct PendingView {
    pub follow_up: Option<ExchangeView>,
    pub goal: Goal,
}

impl View for Pending {
    type V = PendingView;

    open spec fn view(&self) -> PendingView {
        PendingView {
            follow_up: match self.follow_up {
                Some(exchange) => Some(exchange@),
                None => None,
            },
            goal: self.goal,
        }
    }
}

/// An exchange, and what is to become of its response.
#[derive(Debug)]
pub struct Session {
    /// The exchange to make now.
    pub exchange: Exchange,
    /// What takes its response.
    pub pending: Pending,
}

/// An exchange and what follows it, as a mathematical value.
pub struct SessionView {
    pub exchange: ExchangeView,
    pub pending: PendingView,
}

impl View for Session {
    type V = SessionView;

    open spec fn view(&self) -> SessionView {
        SessionView { exchange: self.exchange@, pending: self.pending@ }
    }
}

/// The output of a command, as far as it has come.
#[derive(Debug)]
pub struct ShellOutput {
    collected: Vec<u8>,
}

impl View for ShellOutput {
    type V = Seq<u8>;

    closed spec fn view(&self) -> Seq<u8> {
        self.collected@
    }
}

/// What is to be done next.
#[derive(Debug)]
pub enum Progress<E> {
    /// Make an exchange.
    Exchange(Session),
    /// Read a packet.
    Packet(ShellOutput),
    /// Nothing: this is the result.
    Finished(Result<Outcome, Failure<E>>),
}

/// What is to be done next, as a mathematical value.
pub enum ProgressView<E> {
    Exchange(SessionView),
    Packet(Seq<u8>),
    Finished(Result<OutcomeView, FailureView<E>>),
}

impl<E> View for Progress<E> {
    type V = ProgressView<E>;

    open spec fn view(&self) -> ProgressView<E> {
        match self {
            Progress::Exchange(session) => ProgressView::Exchange(session@),
            Progress::Packet(output) => ProgressView::Packet(output@),
            Progress::Finished(Ok(outcome)) => ProgressView::Finished(Ok(outcome@)),
            Progress::Finished(Err(failure)) => ProgressView::Finished(Err(failure@)),
        }
    }
}

/// What came from a stream: an item, an error, or its end.
pub open spec fn received<T: View, E>(item: Option<Result<T, E>>) -> Option<Result<T::V, E>> {
    match item {
        Some(Ok(value)) => Some(Ok(value@)),
        Some(Err(error)) => Some(Err(error)),
        None => None,
    }
}

/// The failure of a stream that has ended.
pub open spec fn no_response<E>() -> FailureView<E> {
    FailureView::Protocol(ErrorView::Failed("No response"@))
}

/// The message of a success; anything else is a failure.
pub open spec fn message_of<E>(reply: Option<Result<ResponseView, E>>) -> Result<
    Seq<char>,
    FailureView<E>,
> {
    match reply {
        Some(Ok(ResponseView::Okay(message))) => Ok(message),
        Some(Ok(ResponseView::Fail(message))) => Err(
            FailureView::Protocol(ErrorView::Failed(message)),
        ),
        Some(Err(error)) => Err(FailureView::Transport(error)),
        None => Err(no_response()),
    }
}

/// What the message of the last response comes to.
pub open spec fn concluded<E>(goal: Goal, message: Seq<char>) -> ProgressView<E> {
    match goal {
        Goal::Message => ProgressView::Finished(Ok(OutcomeView::Message(message))),
        Goal::Devices => ProgressView::Finished(
            Ok(OutcomeView::Devices(client::device_list(message))),
        ),
        Goal::Connected => if "already connected to"@.is_prefix_of(message)
            || "connected to"@.is_prefix_of(message) {
            ProgressView::Finished(Ok(OutcomeView::Done))
        } else {
            ProgressView::Finished(Err(FailureView::Protocol(ErrorView::Failed(message))))
        },
        Goal::Success => ProgressView::Finished(Ok(OutcomeView::Done)),
        Goal::Output => ProgressView::Packet(Seq::empty()),
    }
}

/// What a response comes to.
pub open spec fn after_reply<E>(
    pending: PendingView,
    reply: Option<Result<ResponseView, E>>,
) -> ProgressView<E> {
    match message_of(reply) {
        Err(failure) => ProgressView::Finished(Err(failure)),
        Ok(message) => match pending.follow_up {
            Some(exchange) => ProgressView::Exchange(
                SessionView {
                    exchange,
                    pending: PendingView { follow_up: None, goal: pending.goal },
                },
            ),
            None => concluded(pending.goal, message),
        },
    }
}

/// What the output of a command that has ended comes to.
pub open spec fn output_text<E>(collected: Seq<u8>) -> ProgressView<E> {
    if valid_utf8(collected) {
        ProgressView::Finished(Ok(OutcomeView::Message(decode_utf8(collected))))
    } else {
        ProgressView::Finished(
            Err(FailureView::Protocol(ErrorView::Utf8(text::utf8_error(collected)))),
        )
    }
}

/// What a packet comes to.
pub open spec fn after_packet<E>(
    collected: Seq<u8>,
    packet: Option<Result<PacketView, E>>,
) -> ProgressView<E> {
    match packet {
        Some(Ok(p)) => if p.id == AdbShellResponseId::Stdout {
            ProgressView::Packet(collected + p.response)
        } else if p.id == AdbShellResponseId::Exit {
            output_text(collected)
        } else {
            ProgressView::Packet(collected)
        },
        Some(Err(error)) => ProgressView::Finished(Err(FailureView::Transport(error))),
        None => ProgressView::Finished(Err(no_response())),
    }
}

/// The message of a success. A failure, an error of the stream and its end are failures.
pub fn next_message<E>(item: Option<Result<AdbResponse, E>>) -> (result: Result<
    String,
    Failure<E>,
>)
    ensures
        match message_of(received(item)) {
            Ok(message) => result matches Ok(m) && m@ == message,
            Err(failure) => result matches Err(f) && f@ == failure,
        },
{
    match item {
        Some(Ok(AdbResponse::OKAY { message })) => Ok(message),
        Some(Ok(AdbResponse::FAIL { message })) => Err(
            Failure::Protocol(AdbError::FailedResponseStatus(message)),
        ),
        Some(Err(error)) => Err(Failure::Transport(error)),
        None => Err(Failure::Protocol(AdbError::FailedResponseStatus("No response".to_owned()))),
    }
}

impl Pending {
    /// Takes the response to the request before: what came from the stream, be it a response, an
    /// error or its end.
    pub fn reply<E>(self, item: Option<Result<AdbResponse, E>>) -> (progress: Progress<E>)
        ensures
            progress@ == after_reply(self@, received(item)),
    {
        let message = match next_message(item) {
            Ok(message) => message,
            Err(failure) => return Progress::Finished(Err(failure)),
        };
        match self.follow_up {
            Some(exchange) => Progress::Exchange(
                Session { exchange, pending: Pending { follow_up: None, goal: self.goal } },
            ),
            None => match self.goal {
                Goal::Message => Progress::Finished(Ok(Outcome::Message(message))),
                Goal::Devices => Progress::Finished(
                    Ok(Outcome::Devices(client::parse_device_list(message.as_str()))),
                ),
                Goal::Connected => {
                    if text::starts_with(message.as_str(), "already connected to")
                        || text::starts_with(message.as_str(), "connected to") {
                        Progress::Finished(Ok(Outcome::Done))
                    } else {
                        Progress::Finished(
                            Err(Failure::Protocol(AdbError::FailedResponseStatus(message))),
                        )
                    }
                },
                Goal::Success => Progress::Finished(Ok(Outcome::Done)),
                Goal::Output => Progress::Packet(ShellOutput { collected: Vec::new() }),
            },
        }
    }
}

impl ShellOutput {
    /// Takes what came from the stream of packets, be it a packet, an error or its end.
    pub fn packet<E>(self, item: Option<Result<AdbShellPacket, E>>) -> (progress: Progress<E>)
        ensures
            progress@ == after_packet(self@, received(item)),
    {
        let mut collected = self.collected;
        let mut packet = match item {
            Some(Ok(packet)) => packet,
            Some(Err(error)) => return Progress::Finished(Err(Failure::Transport(error))),
            None => return Progress::Finished(
                Err(Failure::Protocol(AdbError::FailedResponseStatus("No response".to_owned()))),
            ),
        };
        match packet.id {
            AdbShellResponseId::Stdout => {
                collected.append(&mut packet.response);
                Progress::Packet(ShellOutput { collected })
            },
            AdbShellResponseId::Exit => {
                match core::str::from_utf8(collected.as_slice()) {
                    Ok(output) => Progress::Finished(Ok(Outcome::Message(output.to_owned()))),
                    Err(e) => Progress::Finished(Err(Failure::Protocol(AdbError::from(e)))),
                }
            },
            _ => Progress::Packet(ShellOutput { collected }),
        }
    }
}

/// An exchange whose request is the given text.
pub open spec fn ask(
    request: Seq<char>,
    decoder_impl: Option<AdbResponseDecoderImpl>,
) -> ExchangeView {
    ExchangeView { request: encode_utf8(request), decoder_impl }
}

/// An operation of one exchange with the server.
pub open spec fn single(request: Seq<char>, goal: Goal) -> SessionView {
    SessionView {
        exchange: ask(request, None),
        pending: PendingView { follow_up: None, goal },
    }
}

/// An operation on a device: an exchange that selects the device, and one with it.
pub open spec fn on_device(
    device: Device,
    selected: Option<AdbResponseDecoderImpl>,
    follow_up: ExchangeView,
    goal: Goal,
) -> SessionView {
    SessionView {
        exchange: ask(device.transport(), selected),
        pending: PendingView { follow_up: Some(follow_up), goal },
    }
}

/// The command to a device to listen on a TCP port.
pub open spec fn tcpip_command(port: u16) -> Seq<char> {
    "tcpip:"@ + numeral::decimal(port as nat)
}

/// The command to a device to have TCP connections forwarded to it.
pub open spec fn forward_command(local: Seq<char>, remote: Seq<char>) -> Seq<char> {
    "forward:tcp:"@ + local + ";"@ + remote
}

/// The command to a device to run a command of its shell.
pub open spec fn shell_command(command: Seq<char>) -> Seq<char> {
    "shell,v2,TERM=xterm-256color,raw:"@ + command
}

impl Exchange {
    /// The exchange whose request is the given text.
    pub fn new(request: &str, decoder_impl: Option<AdbResponseDecoderImpl>) -> (exchange: Exchange)
        ensures
            exchange@ == ask(request@, decoder_impl),
    {
        Exchange { request: AdbRequest::new(request), decoder_impl }
    }
}

impl Session {
    /// Asks for the version of the server.
    pub fn get_host_version() -> (session: Session)
        ensures
            session@ == single("host:version"@, Goal::Message),
    {
        Session {
            exchange: Exchange::new("host:version", None),
            pending: Pending { follow_up: None, goal: Goal::Message },
        }
    }

    /// Asks for the devices that are connected to the server.
    pub fn get_device_list() -> (session: Session)
        ensures
            session@ == single("host:devices"@, Goal::Devices),
    {
        Session {
            exchange: Exchange::new("host:devices", None),
            pending: Pending { follow_up: None, goal: Goal::Devices },
        }
    }

    /// Restarts the daemon on the device so that it listens on the given TCP port.
    pub fn tcpip<D: ToDevice>(device: D, port: u16) -> (session: Session)
        ensures
            exists|d: Device| #[trigger]
                call_ensures(D::to_device, (&device,), d) && session@ == on_device(
                    d,
                    Some(AdbResponseDecoderImpl::Status),
                    ask(
                        tcpip_command(port),
                        Some(AdbResponseDecoderImpl::StatusPayloadNewline),
                    ),
                    Goal::Message,
                ),
    {
        let mut command = "tcpip:".to_owned();
        command.append(numeral::to_numeral(port as usize, 10, 1).as_str());
        Session {
            exchange: Exchange {
                request: AdbRequest::from(device.to_device()),
                decoder_impl: Some(AdbResponseDecoderImpl::Status),
            },
            pending: Pending {
                follow_up: Some(
                    Exchange::new(
                        command.as_str(),
                        Some(AdbResponseDecoderImpl::StatusPayloadNewline),
                    ),
                ),
                goal: Goal::Message,
            },
        }
    }

    /// Connects to something on the device. After that the stream belongs to the connection.
    pub fn connect_to_device<D: ToDevice>(device: D, remote: Remote) -> (session: Session)
        ensures
            exists|d: Device| #[trigger]
                call_ensures(D::to_device, (&device,), d) && session@ == on_device(
                    d,
                    Some(AdbResponseDecoderImpl::Status),
                    ask(remote.address(), Some(AdbResponseDecoderImpl::Status)),
                    Goal::Success,
                ),
    {
        Session {
            exchange: Exchange {
                request: AdbRequest::from(device.to_device()),
                decoder_impl: Some(AdbResponseDecoderImpl::Status),
            },
            pending: Pending {
                follow_up: Some(
                    Exchange::new(
                        remote.to_string().as_str(),
                        Some(AdbResponseDecoderImpl::Status),
                    ),
                ),
                goal: Goal::Success,
            },
        }
    }

    /// Connects a device to the server.
    pub fn connect_device_to_server(connection_string: &str) -> (session: Session)
        ensures
            session@ == single("host:connect:"@ + connection_string@, Goal::Connected),
    {
        let mut request = "host:connect:".to_owned();
        request.append(connection_string);
        Session {
            exchange: Exchange::new(request.as_str(), None),
            pending: Pending { follow_up: None, goal: Goal::Connected },
        }
    }

    /// Forwards TCP connections from `local` to `remote` on the device.
    pub fn forward_server<D: ToDevice>(device: D, local: &str, remote: &str) -> (session: Session)
        ensures
            exists|d: Device| #[trigger]
                call_ensures(D::to_device, (&device,), d) && session@ == on_device(
                    d,
                    None,
                    ask(forward_command(local@, remote@), None),
                    Goal::Success,
                ),
    {
        let mut command = "forward:tcp:".to_owned();
        command.append(local);
        command.append(";");
        command.append(remote);
        Session {
            exchange: Exchange {
                request: AdbRequest::from(device.to_device()),
                decoder_impl: None,
            },
            pending: Pending {
                follow_up: Some(Exchange::new(command.as_str(), None)),
                goal: Goal::Success,
            },
        }
    }

    /// Runs a command on the device.
    pub fn shell<D: ToDevice>(device: D, command: &str) -> (session: Session)
        ensures
            exists|d: Device| #[trigger]
                call_ensures(D::to_device, (&device,), d) && session@ == on_device(
                    d,
                    Some(AdbResponseDecoderImpl::Status),
                    ask(shell_command(command@), Some(AdbResponseDecoderImpl::Status)),
                    Goal::Output,
                ),
    {
        let mut shell = "shell,v2,TERM=xterm-256color,raw:".to_owned();
        shell.append(command);
        Session {
            exchange: Exchange {
                request: AdbRequest::from(device.to_device()),
                decoder_impl: Some(AdbResponseDecoderImpl::Status),
            },
            pending: Pending {
                follow_up: Some(
                    Exchange::new(shell.as_str(), Some(AdbResponseDecoderImpl::Status)),
                ),
                goal: Goal::Output,
            },
        }
    }
}

} // verus!
