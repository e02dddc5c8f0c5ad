//! The probes and serial ports that a host finds connected, as plain
//! records.

use vstd::prelude::*;

verus! {

/// A port as the console shows it: its number, its name, and what kind of
/// port it is.
#[derive(Clone, Debug)]
pub struct ProbeInfo {
    pub port: usize,
    pub port_name: String,
    pub port_probe: String,
}

impl ProbeInfo {
    /// The port with this number, this name and this kind.
    pub fn new(port: usize, port_name: String, port_probe: String) -> (info: ProbeInfo)
        ensures
            info.port == port,
            info.port_name == port_name,
            info.port_probe == port_probe,
    {
        ProbeInfo { port, port_name, port_probe }
    }

    /// The number of the port.
    pub fn port(&self) -> (port: &usize)
        ensures
            *port == self.port,
    {
        &self.port
    }

    /// The name of the port.
    pub fn port_name(&self) -> (name: &String)
        ensures
            *name == self.port_name,
    {
        &self.port_name
    }

    /// The kind of the port.
    pub fn port_probe(&self) -> (probe: &String)
        ensures
            *probe == self.port_probe,
    {
        &self.port_probe
    }
}

/// A debug probe, in short.
#[derive(Clone, Debug)]
pub struct DebugProbeSummary {
    pub identifier: String,
    pub vendor_id: u16,
    pub product_id: u16,
    pub serial_number: Option<String>,
}

/// A serial port, in short. What is said of the USB device behind it is
/// there only for a port on USB.
#[derive(Clone, Debug)]
pub struct SerialPortSummary {
    pub port_name: String,
    pub usb_vid: Option<u16>,
    pub usb_pid: Option<u16>,
    pub manufacturer: Option<String>,
    pub product: Option<String>,
    pub serial_number: Option<String>,
}

/// All that is connected.
#[derive(Clone, Debug)]
pub struct ConnectedDevices {
    pub debug_probes: Vec<DebugProbeSummary>,
    pub serial_ports: Vec<SerialPortSummary>,
}

} // verus!
