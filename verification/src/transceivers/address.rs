//! Addresses of robots.

use vstd::prelude::*;

verus! {

/// An internet socket address.
#[derive(Clone, Copy, Debug, PartialEq, Eq, Structural, Hash)]
pub enum SocketAddr {
    V4 { ip: u32, port: u16 },
    V6 { ip: u128, port: u16, flowinfo: u32, scope_id: u32 },
}

impl SocketAddr {
    pub open spec fn spec_is_ipv4(&self) -> bool {
        self is V4
    }

    pub fn is_ipv4(&self) -> (b: bool)
        ensures
            b == self.spec_is_ipv4(),
    {
        match self {
            SocketAddr::V4 { .. } => true,
            SocketAddr::V6 { .. } => false,
        }
    }
}

/// What is known of a serial port on USB.
#[derive(Debug, PartialEq, Eq, Hash)]
pub struct UsbPortInfo {
    pub vid: u16,
    pub pid: u16,
    pub serial_number: Option<String>,
    pub manufacturer: Option<String>,
    pub product: Option<String>,
}

/// How a serial port is attached.
#[derive(Debug, PartialEq, Eq, Hash)]
pub enum SerialPortType {
    UsbPort(UsbPortInfo),
    PciPort,
    BluetoothPort,
    Unknown,
}

/// A serial port of this computer.
#[derive(Debug, PartialEq, Eq, Hash)]
pub struct SerialPortInfo {
    pub port_name: String,
    pub port_type: SerialPortType,
}

/// Where a robot can be reached.
#[derive(Debug, PartialEq, Eq, Hash)]
pub enum RobotTransceiverAddress {
    Serial(SerialPortInfo),
    Udp(SocketAddr),
    /// An address without a transceiver.
    Test(u8),
}

impl From<SerialPortInfo> for RobotTransceiverAddress {
    fn from(value: SerialPortInfo) -> (addr: Self) {
        RobotTransceiverAddress::Serial(value)
    }
}

impl vstd::std_specs::convert::FromSpecImpl<SerialPortInfo> for RobotTransceiverAddress {
    open spec fn obeys_from_spec() -> bool {
        true
    }

    open spec fn from_spec(value: SerialPortInfo) -> Self {
        RobotTransceiverAddress::Serial(value)
    }
}

impl From<SocketAddr> for RobotTransceiverAddress {
    fn from(value: SocketAddr) -> (addr: Self) {
        RobotTransceiverAddress::Udp(value)
    }
}

impl vstd::std_specs::convert::FromSpecImpl<SocketAddr> for RobotTransceiverAddress {
    open spec fn obeys_from_spec() -> bool {
        true
    }

    open spec fn from_spec(value: SocketAddr) -> Self {
        RobotTransceiverAddress::Udp(value)
    }
}

/// The text of an optional string.
pub open spec fn text(s: Option<String>) -> Option<Seq<char>> {
    match s {
        Some(s) => Some(s@),
        None => None,
    }
}

/// The contents of a [UsbPortInfo].
pub ghost struct UsbPortView {
    pub vid: u16,
    pub pid: u16,
    pub serial_number: Option<Seq<char>>,
    pub manufacturer: Option<Seq<char>>,
    pub product: Option<Seq<char>>,
}

/// The contents of a [SerialPortType].
pub ghost enum PortTypeView {
    UsbPort(UsbPortView),
    PciPort,
    BluetoothPort,
    Unknown,
}

/// The contents of a [SerialPortInfo].
pub ghost struct PortView {
    pub port_name: Seq<char>,
    pub port_type: PortTypeView,
}

/// The contents of a [RobotTransceiverAddress].
pub ghost enum AddressView {
    Serial(PortView),
    Udp(SocketAddr),
    Test(u8),
}

impl View for UsbPortInfo {
    type V = UsbPortView;

    open spec fn view(&self) -> UsbPortView {
        UsbPortView {
            vid: self.vid,
            pid: self.pid,
            serial_number: text(self.serial_number),
            manufacturer: text(self.manufacturer),
            product: text(self.product),
        }
    }
}

impl View for SerialPortType {
    type V = PortTypeView;

    open spec fn view(&self) -> PortTypeView {
        match self {
            SerialPortType::UsbPort(info) => PortTypeView::UsbPort(info@),
            SerialPortType::PciPort => PortTypeView::PciPort,
            SerialPortType::BluetoothPort => PortTypeView::BluetoothPort,
            SerialPortType::Unknown => PortTypeView::Unknown,
        }
    }
}

impl View for SerialPortInfo {
    type V = PortView;

    open spec fn view(&self) -> PortView {
        PortView { port_name: self.port_name@, port_type: self.port_type@ }
    }
}

impl View for RobotTransceiverAddress {
    type V = AddressView;

    open spec fn view(&self) -> AddressView {
        match self {
            RobotTransceiverAddress::Serial(port) => AddressView::Serial(port@),
            RobotTransceiverAddress::Udp(addr) => AddressView::Udp(*addr),
            RobotTransceiverAddress::Test(id) => AddressView::Test(*id),
        }
    }
}

fn clone_text(s: &Option<String>) -> (r: Option<String>)
    ensures
        text(r) == text(*s),
{
    match s {
        Some(s) => Some(s.clone()),
        None => None,
    }
}

fn same_text(a: &Option<String>, b: &Option<String>) -> (r: bool)
    ensures
        r == (text(*a) == text(*b)),
{
    match (a, b) {
        (Some(a), Some(b)) => *a == *b,
        (None, None) => true,
        _ => false,
    }
}

impl Clone for UsbPortInfo {
    fn clone(&self) -> (r: Self)
        ensures
            r@ == self@,
    {
        UsbPortInfo {
            vid: self.vid,
            pid: self.pid,
            serial_number: clone_text(&self.serial_number),
            manufacturer: clone_text(&self.manufacturer),
            product: clone_text(&self.product),
        }
    }
}

impl Clone for SerialPortType {
    fn clone(&self) -> (r: Self)
        ensures
            r@ == self@,
    {
        match self {
            SerialPortType::UsbPort(info) => SerialPortType::UsbPort(info.clone()),
            SerialPortType::PciPort => SerialPortType::PciPort,
            SerialPortType::BluetoothPort => SerialPortType::BluetoothPort,
            SerialPortType::Unknown => SerialPortType::Unknown,
        }
    }
}

impl Clone for SerialPortInfo {
    fn clone(&self) -> (r: Self)
        ensures
            r@ == self@,
    {
        SerialPortInfo { port_name: self.port_name.clone(), port_type: self.port_type.clone() }
    }
}

impl Clone for RobotTransceiverAddress {
    fn clone(&self) -> (r: Self)
        ensures
            r@ == self@,
    {
        match self {
            RobotTransceiverAddress::Serial(port) => RobotTransceiverAddress::Serial(port.clone()),
            RobotTransceiverAddress::Udp(addr) => RobotTransceiverAddress::Udp(*addr),
            RobotTransceiverAddress::Test(id) => RobotTransceiverAddress::Test(*id),
        }
    }
}

impl UsbPortInfo {
    pub fn same(&self, other: &UsbPortInfo) -> (r: bool)
        ensures
            r == (self@ == other@),
    {
        self.vid == other.vid && self.pid == other.pid && same_text(
            &self.serial_number,
            &other.serial_number,
        ) && same_text(&self.manufacturer, &other.manufacturer) && same_text(
            &self.product,
            &other.product,
        )
    }
}

impl SerialPortType {
    pub fn same(&self, other: &SerialPortType) -> (r: bool)
        ensures
            r == (self@ == other@),
    {
        match (self, other) {
            (SerialPortType::UsbPort(a), SerialPortType::UsbPort(b)) => a.same(b),
            (SerialPortType::PciPort, SerialPortType::PciPort) => true,
            (SerialPortType::BluetoothPort, SerialPortType::BluetoothPort) => true,
            (SerialPortType::Unknown, SerialPortType::Unknown) => true,
            _ => false,
        }
    }
}

impl SerialPortInfo {
    pub fn same(&self, other: &SerialPortInfo) -> (r: bool)
        ensures
            r == (self@ == other@),
    {
        self.port_name == other.port_name && self.port_type.same(&other.port_type)
    }
}

impl RobotTransceiverAddress {
    /// Whether two addresses are equal.
    pub fn same(&self, other: &RobotTransceiverAddress) -> (r: bool)
        ensures
            r == (self@ == other@),
    {
        match (self, other) {
            (RobotTransceiverAddress::Serial(a), RobotTransceiverAddress::Serial(b)) => a.same(b),
            (RobotTransceiverAddress::Udp(a), RobotTransceiverAddress::Udp(b)) => *a == *b,
            (RobotTransceiverAddress::Test(a), RobotTransceiverAddress::Test(b)) => *a == *b,
            _ => false,
        }
    }
}

} // verus!
