//! Where the two servers listen and which processes the node watches.

use crate::text::{decimal, push_decimal};
use vstd::prelude::*;
use vstd::string::StringExecFns;

verus! {

/// The settings of one monitor.
pub struct Config {
    ip: String,
    cluster_port: usize,
    file_transfer_port: usize,
    proc_name: String,
}

/// The settings as a mathematical value.
pub struct ConfigView {
    pub ip: Seq<char>,
    pub cluster_port: usize,
    pub file_transfer_port: usize,
    pub proc_name: Seq<char>,
}

/// The address `ip:port` in text.
pub open spec fn address(ip: Seq<char>, port: usize) -> Seq<char> {
    ip + ":"@ + decimal(port as nat)
}

/// The address on which a server listens: the ip, a colon, the port.
pub fn bind_address(ip: &str, port: usize) -> (s: String)
    ensures
        s@ == address(ip@, port),
{
    let mut s = String::from_str(ip);
    s.append(":");
    push_decimal(&mut s, port as u64);
    s
}

impl View for Config {
    type V = ConfigView;

    closed spec fn view(&self) -> ConfigView {
        ConfigView {
            ip: self.ip@,
            cluster_port: self.cluster_port,
            file_transfer_port: self.file_transfer_port,
            proc_name: self.proc_name@,
        }
    }
}

impl Config {
    /// The settings as given. Nothing is checked: any port and any name are
    /// taken.
    pub fn new(ip: String, cluster_port: usize, file_transfer_port: usize, proc_name: String) -> (cfg:
        Config)
        ensures
            cfg@ == (ConfigView {
                ip: ip@,
                cluster_port,
                file_transfer_port,
                proc_name: proc_name@,
            }),
    {
        Config { ip, cluster_port, file_transfer_port, proc_name }
    }

    /// The address on which both servers listen.
    pub fn ip(&self) -> (ip: &str)
        ensures
            ip@ == self@.ip,
    {
        self.ip.as_str()
    }

    /// The port of the telemetry server.
    pub fn cluster_port(&self) -> (port: usize)
        ensures
            port == self@.cluster_port,
    {
        self.cluster_port
    }

    /// The port of the file relay.
    pub fn file_transfer_port(&self) -> (port: usize)
        ensures
            port == self@.file_transfer_port,
    {
        self.file_transfer_port
    }

    /// The name of the worker processes to watch.
    pub fn proc_name(&self) -> (name: &str)
        ensures
            name@ == self@.proc_name,
    {
        self.proc_name.as_str()
    }

    /// The address on which the telemetry server listens.
    pub fn cluster_address(&self) -> (s: String)
        ensures
            s@ == address(self@.ip, self@.cluster_port),
    {
        bind_address(self.ip.as_str(), self.cluster_port)
    }

    /// The address on which the file relay listens.
    pub fn file_transfer_address(&self) -> (s: String)
        ensures
            s@ == address(self@.ip, self@.file_transfer_port),
    {
        bind_address(self.ip.as_str(), self.file_transfer_port)
    }
}

} // verus!
