//! Devices, what to connect to on them, and the list of them.

use crate::connection::AdbRequest;
use crate::numeral;
use crate::text;
use vstd::prelude::*;
use vstd::string::*;
use vstd::utf8::encode_utf8;

verus! {

/// The ways to say which device is meant.
#[derive(Debug)]
pub enum Device {
    /// The only connected device; an error if there are several.
    Default,
    /// The only device on USB; an error if there are several.
    Usb,
    /// The only device on TCP/IP; an error if there are several.
    TcpIp,
    /// The device with the given serial number.
    Serial(String),
}

impl Clone for Device {
    fn clone(&self) -> (device: Device)
        ensures
            device == *self,
    {
        match self {
            Device::Default => Device::Default,
            Device::Usb => Device::Usb,
            Device::TcpIp => Device::TcpIp,
            Device::Serial(serial) => Device::Serial(serial.clone()),
        }
    }
}

impl Device {
    /// The request by which the server is told to talk to this device.
    pub open spec fn transport(self) -> Seq<char> {
        match self {
            Device::Default => "host:transport-any"@,
            Device::Usb => "host:transport-usb"@,
            Device::TcpIp => "host:transport-local"@,
            Device::Serial(serial) => "host:transport:"@ + serial@,
        }
    }

    /// The request by which the server is told to talk to this device.
    pub fn to_string(&self) -> (text: String)
        ensures
            text@ == self.transport(),
    {
        match self {
            Device::Default => "host:transport-any".to_owned(),
            Device::Usb => "host:transport-usb".to_owned(),
            Device::TcpIp => "host:transport-local".to_owned(),
            Device::Serial(serial) => {
                let mut text = "host:transport:".to_owned();
                text.append(serial.as_str());
                text
            },
        }
    }
}

impl From<Device> for AdbRequest {
    fn from(device: Device) -> (request: AdbRequest)
        ensures
            request@ == encode_utf8(device.transport()),
    {
        AdbRequest::new(device.to_string().as_str())
    }
}

// A request is known by its bytes alone, so what `from` returns is stated by its own `ensures`.
impl vstd::std_specs::convert::FromSpecImpl<Device> for AdbRequest {
    open spec fn obeys_from_spec() -> bool {
        false
    }

    open spec fn from_spec(device: Device) -> AdbRequest {
        arbitrary()
    }
}

/// What can say which device is meant.
pub trait ToDevice {
    /// The device that is meant.
    fn to_device(&self) -> Device;
}

impl ToDevice for Device {
    fn to_device(&self) -> (device: Device)
        ensures
            device == *self,
    {
        self.clone()
    }
}

impl ToDevice for &str {
    fn to_device(&self) -> (device: Device)
        ensures
            device matches Device::Serial(serial) && serial@ == self@,
    {
        Device::Serial((*self).to_owned())
    }
}

impl ToDevice for &String {
    fn to_device(&self) -> (device: Device)
        ensures
            device matches Device::Serial(serial) && serial@ == self@,
    {
        Device::Serial((*self).clone())
    }
}

/// What to connect to on a device.
#[derive(Debug)]
pub enum Remote {
    /// A TCP port.
    Tcp(u16),
    /// A Unix domain socket.
    Unix(String),
    /// The debugger interface of the process with the given number.
    Jwp(u16),
}

impl Remote {
    /// The request by which the device is told what to connect to.
    pub open spec fn address(self) -> Seq<char> {
        match self {
            Remote::Tcp(port) => "tcp:"@ + numeral::decimal(port as nat),
            Remote::Unix(path) => "local:"@ + path@,
            Remote::Jwp(pid) => "jdwp:"@ + numeral::decimal(pid as nat),
        }
    }

    /// The request by which the device is told what to connect to.
    pub fn to_string(&self) -> (text: String)
        ensures
            text@ == self.address(),
    {
        match self {
            Remote::Tcp(port) => {
                let mut text = "tcp:".to_owned();
                text.append(numeral::to_numeral(*port as usize, 10, 1).as_str());
                text
            },
            Remote::Unix(path) => {
                let mut text = "local:".to_owned();
                text.append(path.as_str());
                text
            },
            Remote::Jwp(pid) => {
                let mut text = "jdwp:".to_owned();
                text.append(numeral::to_numeral(*pid as usize, 10, 1).as_str());
                text
            },
        }
    }
}

/// A device that the ADB server knows.
#[derive(Debug)]
pub struct DeviceListItem {
    /// Its serial number.
    pub id: String,
    /// Its type, or the state that it is in.
    pub device_type: String,
}

impl Clone for DeviceListItem {
    fn clone(&self) -> (item: DeviceListItem)
        ensures
            item == *self,
    {
        DeviceListItem { id: self.id.clone(), device_type: self.device_type.clone() }
    }
}

/// A device that the ADB server knows, as a mathematical value.
pub struct DeviceView {
    pub id: Seq<char>,
    pub device_type: Seq<char>,
}

impl View for DeviceListItem {
    type V = DeviceView;

    open spec fn view(&self) -> DeviceView {
        DeviceView { id: self.id@, device_type: self.device_type@ }
    }
}

/// The device on one line of the server's list: its first two columns, if there are two.
pub open spec fn device_on(line: Seq<char>) -> Option<DeviceView> {
    let columns = text::pieces(line, '\t');
    if columns.len() >= 2 {
        Some(DeviceView { id: columns[0], device_type: columns[1] })
    } else {
        None
    }
}

/// The devices on the given lines, in order; other lines are passed over.
pub open spec fn devices_on(lines: Seq<Seq<char>>) -> Seq<DeviceView>
    decreases lines.len(),
{
    if lines.len() == 0 {
        Seq::empty()
    } else {
        let before = devices_on(lines.drop_last());
        match device_on(lines.last()) {
            Some(device) => before.push(device),
            None => before,
        }
    }
}

/// The devices in the server's list.
pub open spec fn device_list(list: Seq<char>) -> Seq<DeviceView> {
    devices_on(text::pieces(text::trimmed(list), '\n'))
}

/// The items as mathematical values.
pub open spec fn devices(items: Seq<DeviceListItem>) -> Seq<DeviceView> {
    items.map_values(|item: DeviceListItem| item@)
}

/// Reads the server's list of devices.
pub fn parse_device_list(list: &str) -> (items: Vec<DeviceListItem>)
    ensures
        devices(items@) == device_list(list@),
{
    let lines = text::split(list.trim(), '\n');
    let mut items: Vec<DeviceListItem> = Vec::new();
    let ghost all = text::texts(lines@);
    let mut i: usize = 0;
    assert(devices(items@) == devices_on(all.take(0)));
    while i < lines.len()
        invariant
            i <= lines.len(),
            all == text::texts(lines@),
            devices(items@) == devices_on(all.take(i as int)),
        decreases lines.len() - i,
    {
        let mut columns = text::split(lines[i].as_str(), '\t');
        let ghost texts = text::texts(columns@);
        assert(all.take(i + 1).drop_last() == all.take(i as int));
        assert(all.take(i + 1).last() == lines@[i as int]@);
        if columns.len() >= 2 {
            let device_type = columns.swap_remove(1);
            let id = columns.swap_remove(0);
            assert(id@ == texts[0]);
            assert(device_type@ == texts[1]);
            let ghost before = devices(items@);
            let item = DeviceListItem { id, device_type };
            items.push(item);
            assert(devices(items@) == before.push(item@));
        }
        i += 1;
    }
    assert(all.take(i as int) == all);
    items
}

} // verus!
