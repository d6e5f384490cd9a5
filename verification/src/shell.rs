//! Packets of the shell protocol.

use crate::buffer::{self, advance, copy_range};
use crate::frame::{Decoded, MAX_MESSAGE_SIZE};
use crate::util::{AdbError, ErrorView, FrameTooLarge};
use tokio_util::bytes::BytesMut;
use vstd::prelude::*;

verus! {

broadcast use vstd::seq_lib::group_seq_properties;

/// The length of a packet's kind and of the length behind it.
pub const ADB_SHELL_REQUEST_HEADER_LENGTH: usize = 5;

/// What a packet is about.
#[derive(Debug, Clone, Copy, PartialEq, Eq, Structural)]
pub enum AdbShellResponseId {
    /// Input of the command.
    Stdin,
    /// Output of the command.
    Stdout,
    /// Error output of the command.
    Stderr,
    /// The command has ended.
    Exit,
    /// Close the command's input if possible.
    CloseStdin,
    /// The window has changed its size.
    WindowSizeChange,
    /// An invalid or unknown packet.
    Invalid,
}

impl AdbShellResponseId {
    /// The kind of packet that the byte `value` stands for.
    pub open spec fn of(value: u8) -> AdbShellResponseId {
        if value == 0 {
            AdbShellResponseId::Stdin
        } else if value == 1 {
            AdbShellResponseId::Stdout
        } else if value == 2 {
            AdbShellResponseId::Stderr
        } else if value == 3 {
            AdbShellResponseId::Exit
        } else if value == 4 {
            AdbShellResponseId::CloseStdin
        } else if value == 5 {
            AdbShellResponseId::WindowSizeChange
        } else {
            AdbShellResponseId::Invalid
        }
    }

    /// The byte that stands for this kind of packet.
    pub open spec fn code(self) -> u8 {
        match self {
            AdbShellResponseId::Stdin => 0,
            AdbShellResponseId::Stdout => 1,
            AdbShellResponseId::Stderr => 2,
            AdbShellResponseId::Exit => 3,
            AdbShellResponseId::CloseStdin => 4,
            AdbShellResponseId::WindowSizeChange => 5,
            AdbShellResponseId::Invalid => 255,
        }
    }

    /// The kind of packet that the byte `value` stands for.
    pub fn from_u8(value: u8) -> (id: AdbShellResponseId)
        ensures
            id == AdbShellResponseId::of(value),
    {
        match value {
            0 => AdbShellResponseId::Stdin,
            1 => AdbShellResponseId::Stdout,
            2 => AdbShellResponseId::Stderr,
            3 => AdbShellResponseId::Exit,
            4 => AdbShellResponseId::CloseStdin,
            5 => AdbShellResponseId::WindowSizeChange,
            _ => AdbShellResponseId::Invalid,
        }
    }
}

/// A packet from the device.
#[derive(Debug)]
pub struct AdbShellPacket {
    /// What the packet is about.
    pub id: AdbShellResponseId,
    /// What it carries.
    pub response: Vec<u8>,
}

/// A packet as a mathematical value.
pub struct PacketView {
    pub id: AdbShellResponseId,
    pub response: Seq<u8>,
}

impl View for AdbShellPacket {
    type V = PacketView;

    open spec fn view(&self) -> PacketView {
        PacketView { id: self.id, response: self.response@ }
    }
}

/// The number that four bytes stand for, least significant byte first.
pub open spec fn little_endian(bytes: Seq<u8>) -> nat {
    (bytes[0] + 0x100 * bytes[1] + 0x1_0000 * bytes[2] + 0x100_0000 * bytes[3]) as nat
}

/// What `src` starts with, as a packet: a byte for its kind, four for the length of what it
/// carries, and that.
pub open spec fn packet_frame(src: Seq<u8>) -> Decoded<PacketView> {
    let n = little_endian(src.subrange(1, 5));
    if src.len() < 5 {
        Decoded::Incomplete
    } else if n > MAX_MESSAGE_SIZE {
        Decoded::Invalid { error: ErrorView::FrameTooLarge(n), size: 0 }
    } else if src.len() < 5 + n {
        Decoded::Incomplete
    } else {
        Decoded::Frame {
            item: PacketView {
                id: AdbShellResponseId::of(src[0]),
                response: src.subrange(5, 5 + n as int),
            },
            size: 5 + n,
        }
    }
}

/// Takes packets from a stream of bytes.
#[derive(Debug)]
pub struct AdbShellDecoder {}

impl AdbShellDecoder {
    /// A decoder for packets.
    pub fn new() -> (decoder: AdbShellDecoder)
        ensures
            decoder == (AdbShellDecoder {  }),
    {
        AdbShellDecoder {  }
    }

    /// Takes the next packet from `src`, if all of it is there.
    pub fn decode(&mut self, src: &mut BytesMut) -> (result: Result<
        Option<AdbShellPacket>,
        AdbError,
    >)
        ensures
            *final(self) == *old(self),
            packet_frame(buffer::buffered(*old(src))).reported(
                result,
                buffer::buffered(*old(src)),
                buffer::buffered(*final(src)),
            ),
    {
        let ghost bytes = buffer::buffered(*src);
        assert(bytes.skip(0) == bytes);
        if src.len() < ADB_SHELL_REQUEST_HEADER_LENGTH {
            // Not enough data for the length.
            return Ok(None);
        }
        let header: &[u8] = &**src;
        let id = AdbShellResponseId::from_u8(header[0]);
        let length: usize = header[1] as usize + 0x100 * (header[2] as usize) + 0x1_0000 * (
        header[3] as usize) + 0x100_0000 * (header[4] as usize);
        // A frame that is too large could take up all memory.
        if length > MAX_MESSAGE_SIZE {
            return Err(AdbError::IOError(FrameTooLarge { length }));
        }
        if src.len() < ADB_SHELL_REQUEST_HEADER_LENGTH + length {
            // The whole packet has not arrived yet; make room for it.
            src.reserve(ADB_SHELL_REQUEST_HEADER_LENGTH + length - src.len());
            return Ok(None);
        }
        let response = copy_range(
            src,
            ADB_SHELL_REQUEST_HEADER_LENGTH,
            ADB_SHELL_REQUEST_HEADER_LENGTH + length,
        );
        advance(src, ADB_SHELL_REQUEST_HEADER_LENGTH + length);
        Ok(Some(AdbShellPacket { id, response }))
    }
}

} // verus!
