//! Connect to a TNC and use it to send and receive frames: address
//! parsing, the transport capability set, and the fan-out handle that
//! multicasts received frames to subscribers.

use crate::ext;
use crate::frame::{spec_frame_parse_ok, Ax25Frame};
use crate::strutil;
use crate::strutil::spec_split;
use std::sync::mpsc::{Receiver, Sender};
use std::sync::Arc;
use vstd::prelude::*;

verus! {

/// Errors that can occur when interacting with a `Tnc`.
#[derive(Debug)]
pub enum TncError {
    OpenTnc { source: std::io::Error },
    InterfaceNotFound { callsign: String },
    SendFrame { source: std::io::Error },
    ReceiveFrame { source: std::io::Error },
    ConfigFailed { source: std::io::Error },
}

/// Errors that can occur when parsing a `TncAddress` from a string.
#[derive(Debug, PartialEq)]
pub enum ParseError {
    NoTncPrefix { string: String },
    UnknownType { tnc_type: String },
    WrongParameterCount { tnc_type: String, expected: usize, actual: usize },
    InvalidPort { input: String, source: std::num::ParseIntError },
}

/// Configuration details for a TCP KISS TNC. This structure can be created
/// directly or indirectly by parsing a string into a `TncAddress`.
#[derive(PartialEq, Eq, Debug)]
pub struct TcpKissConfig {
    /// Hostname or IP address of the computer with the TNC
    pub host: String,
    /// Port number
    pub port: u16,
}

/// Configuration details for a TNC attached as a Linux network interface
/// using `kissattach`. This structure can be created directly or indirectly
/// by parsing a string into a `TncAddress`.
#[derive(PartialEq, Eq, Debug)]
pub struct LinuxIfConfig {
    /// The hardware address associated with the interface, e.g. "VK7NTK-2"
    pub callsign: String,
}

/// The two kinds of connection an address can describe.
#[derive(PartialEq, Eq, Debug)]
pub enum ConnectConfig {
    TcpKiss(TcpKissConfig),
    LinuxIf(LinuxIfConfig),
}

/// A parsed TNC address that can be used to open a `Tnc`.
#[derive(PartialEq, Eq, Debug)]
pub struct TncAddress {
    pub config: ConnectConfig,
}

impl TncAddress {
    /// Programmatically create a `TncAddress` pointing to a Linux network interface.
    pub fn new_linuxif(linuxif: LinuxIfConfig) -> (r: TncAddress)
        ensures
            r.config matches ConnectConfig::LinuxIf(c) && c == linuxif,
    {
        TncAddress { config: ConnectConfig::LinuxIf(linuxif) }
    }

    /// Programmatically create a `TncAddress` pointing to a KISS TCP service.
    pub fn new_tcpkiss(tcpkiss: TcpKissConfig) -> (r: TncAddress)
        ensures
            r.config matches ConnectConfig::TcpKiss(c) && c == tcpkiss,
    {
        TncAddress { config: ConnectConfig::TcpKiss(tcpkiss) }
    }
}

/// Whether the text begins with the `tnc:` scheme marker.
pub open spec fn spec_tnc_prefix_ok(s: Seq<char>) -> bool {
    s.len() >= 4 && s.subrange(0, 4) == "tnc:"@
}

/// Whether a port field holds a decimal number that fits in 16 bits.
pub open spec fn spec_port_value_ok(p: Seq<char>) -> bool {
    ext::spec_is_dec_literal(p) && ext::spec_dec_value(ext::spec_dec_digits(p)) <= u16::MAX
}

/// What parsing a TNC address returns for each input: the grammar is
/// `tnc:tcpkiss:<host>:<port>` or `tnc:linuxif:<callsign>`, and each
/// departure from it gives its own error.
pub open spec fn spec_tnc_parse_ok(s: Seq<char>, r: Result<TncAddress, ParseError>) -> bool {
    let parts = spec_split(s, ':');
    let prefix_ok = spec_tnc_prefix_ok(s);
    match r {
        Ok(addr) => prefix_ok && ((parts[1] == "tcpkiss"@ && parts.len() == 4
            && spec_port_value_ok(parts[3]) && (addr.config matches ConnectConfig::TcpKiss(c)
            && c.host@ == parts[2] && c.port == ext::spec_dec_value(ext::spec_dec_digits(parts[3]))))
            || (parts[1] == "linuxif"@ && parts.len() == 3 && (addr.config matches
            ConnectConfig::LinuxIf(c) && c.callsign@ == parts[2]))),
        Err(ParseError::NoTncPrefix { string }) => !prefix_ok && string@ == s,
        Err(ParseError::UnknownType { tnc_type }) => prefix_ok && parts[1] != "tcpkiss"@
            && parts[1] != "linuxif"@ && tnc_type@ == parts[1],
        Err(ParseError::WrongParameterCount { tnc_type, expected, actual }) => prefix_ok
            && tnc_type@ == parts[1] && actual == parts.len() - 2 && ((parts[1] == "tcpkiss"@
            && parts.len() != 4 && expected == 2) || (parts[1] == "linuxif"@ && parts.len() != 3
            && expected == 1)),
        Err(ParseError::InvalidPort { input, .. }) => prefix_ok && parts[1] == "tcpkiss"@
            && parts.len() == 4 && !spec_port_value_ok(parts[3]) && input@ == parts[3],
    }
}

/// Parse the text form of a TNC address: `tnc:tcpkiss:<host>:<port>` or
/// `tnc:linuxif:<callsign>`.
pub fn parse_tnc_address(s: &str) -> (r: Result<TncAddress, ParseError>)
    ensures
        spec_tnc_parse_ok(s@, r),
{
    let n = s.unicode_len();
    let prefix_ok = if n < 4 {
        false
    } else {
        strutil::str_content_eq(s.substring_char(0, 4), "tnc:")
    };
    if !prefix_ok {
        return Err(ParseError::NoTncPrefix { string: s.to_owned() });
    }
    proof {
        reveal_strlit("tnc:");
        assert(s@.subrange(0, 4)[3] == ':');
        assert(strutil::spec_contains_char(s@, ':'));
        strutil::lemma_split_contains(s@, ':');
    }
    let parts = strutil::split_str(s, ':');
    let len = parts.len();
    let tnc_type = &parts[1];
    if strutil::str_content_eq(tnc_type.as_str(), "tcpkiss") {
        if len != 4 {
            return Err(
                ParseError::WrongParameterCount {
                    tnc_type: tnc_type.clone(),
                    expected: 2usize,
                    actual: len - 2,
                },
            );
        }
        let port = match ext::parse_u16_dec(parts[3].as_str()) {
            Ok(p) => p,
            Err(e) => {
                return Err(ParseError::InvalidPort { input: parts[3].clone(), source: e });
            },
        };
        Ok(
            TncAddress {
                config: ConnectConfig::TcpKiss(
                    TcpKissConfig { host: parts[2].clone(), port },
                ),
            },
        )
    } else if strutil::str_content_eq(tnc_type.as_str(), "linuxif") {
        if len != 3 {
            return Err(
                ParseError::WrongParameterCount {
                    tnc_type: tnc_type.clone(),
                    expected: 1usize,
                    actual: len - 2,
                },
            );
        }
        Ok(
            TncAddress {
                config: ConnectConfig::LinuxIf(LinuxIfConfig { callsign: parts[2].clone() }),
            },
        )
    } else {
        Err(ParseError::UnknownType { tnc_type: tnc_type.clone() })
    }
}

impl std::str::FromStr for TncAddress {
    type Err = ParseError;

    fn from_str(s: &str) -> Result<TncAddress, ParseError> {
        parse_tnc_address(s)
    }
}

/// A received item as subscribers see it: a parsed frame, or a transport
/// error shared between every subscriber.
pub type Ax25FrameResult = Result<Ax25Frame, Arc<TncError>>;

/// The narrow capability set a concrete TNC connection provides: open,
/// raw-octet send and blocking receive, and shutdown. The library is
/// polymorphic over this set; implementations live with the application (a
/// TCP KISS client, a raw Linux network interface) or with tests.
pub trait TncTransport where Self: Sized {
    /// Open the connection an address describes.
    fn open(address: &TncAddress) -> Result<Self, TncError>;

    /// Send one frame's raw octets.
    fn send_frame(&self, frame: &[u8]) -> Result<(), TncError>;

    /// Block until one frame's raw octets arrive.
    fn receive_frame(&self) -> Result<Vec<u8>, TncError>;

    /// Close the connection, unblocking any pending receive.
    fn shutdown(&self);
}

/// Relies on `std::sync::mpsc::channel`: a fresh asynchronous channel,
/// whose two ends are tied to each other and to nothing else.
#[verifier::external_body]
fn new_result_channel() -> (std::sync::mpsc::Sender<Ax25FrameResult>, std::sync::mpsc::Receiver<
    Ax25FrameResult,
>) {
    std::sync::mpsc::channel()
}

/// Relies on `Sender::send`: the item is queued for the receiving end, and
/// the call reports failure exactly when that end is gone.
#[verifier::external_body]
fn sender_send(s: &Sender<Ax25FrameResult>, item: Ax25FrameResult) -> bool {
    s.send(item).is_ok()
}

/// Relies on `Sender::clone`: the clone feeds the same receiving end.
#[verifier::external_body]
fn sender_clone(s: &Sender<Ax25FrameResult>) -> Sender<Ax25FrameResult> {
    s.clone()
}

/// Relies on `Arc::clone`: the clone is the same shared value.
#[verifier::external_body]
fn arc_clone(a: &Arc<TncError>) -> (r: Arc<TncError>)
    ensures
        r == *a,
{
    a.clone()
}

/// A copy of a received item for one subscriber: success stays success.
fn clone_item(item: &Ax25FrameResult) -> (r: Ax25FrameResult)
    ensures
        r is Ok <==> *item is Ok,
{
    match item {
        Ok(f) => Ok(f.clone()),
        Err(e) => Err(arc_clone(e)),
    }
}

/// A local or remote TNC attached to a radio, which can send and receive
/// frames and fan received frames out to any number of subscribers. The
/// application drives the background reading with `poll_once` and protects
/// the handle with its own synchronization.
pub struct Tnc<T: TncTransport> {
    imp: T,
    senders: Vec<Sender<Ax25FrameResult>>,
}

impl<T: TncTransport> Tnc<T> {
    /// How many subscriber queues are registered.
    pub closed spec fn spec_subscriber_count(self) -> nat {
        self.senders@.len()
    }

    /// Attempt to obtain a `Tnc` connection using the provided address.
    pub fn open(address: &TncAddress) -> (r: Result<Tnc<T>, TncError>)
        ensures
            r matches Ok(t) ==> t.spec_subscriber_count() == 0,
    {
        match T::open(address) {
            Ok(imp) => Ok(Tnc::with_transport(imp)),
            Err(e) => Err(e),
        }
    }

    /// Wrap an already opened transport, with no subscribers yet.
    pub fn with_transport(transport: T) -> (t: Tnc<T>)
        ensures
            t.spec_subscriber_count() == 0,
    {
        Tnc { imp: transport, senders: Vec::new() }
    }

    /// Transmit a frame on the radio. Transmission is not guaranteed even
    /// if an `Ok` result is returned; the outcome is the transport's.
    pub fn send_frame(&self, frame: &Ax25Frame) -> Result<(), TncError>
        requires
            frame.wf(),
    {
        let bytes = frame.to_bytes();
        self.imp.send_frame(bytes.as_slice())
    }

    /// Create a new receiving end that will get a copy of every item
    /// delivered from now on.
    pub fn incoming(&mut self) -> (rx: Receiver<Ax25FrameResult>)
        ensures
            final(self).spec_subscriber_count() == old(self).spec_subscriber_count() + 1,
    {
        let (sender, receiver) = new_result_channel();
        self.senders.push(sender);
        receiver
    }

    /// Broadcast one received item to every subscriber, dropping any whose
    /// receiving end is gone. A transport error is terminal: after it is
    /// delivered the subscriber list is cleared and `false` comes back.
    pub fn deliver(&mut self, item: Ax25FrameResult) -> (running: bool)
        ensures
            running == (item is Ok),
            item is Err ==> final(self).spec_subscriber_count() == 0,
            final(self).spec_subscriber_count() <= old(self).spec_subscriber_count(),
    {
        let is_err = item.is_err();
        let mut kept: Vec<Sender<Ax25FrameResult>> = Vec::new();
        let count = self.senders.len();
        let mut i: usize = 0;
        while i < count
            invariant
                0 <= i <= count,
                count == self.senders@.len(),
                self.senders@ == old(self).senders@,
                self.imp == old(self).imp,
                kept@.len() <= i,
            decreases count - i,
        {
            let s = &self.senders[i];
            // If there is an error, leave the sender out of the new list
            if sender_send(s, clone_item(&item)) {
                kept.push(sender_clone(s));
            }
            i += 1;
        }
        if is_err {
            self.senders = Vec::new();
            false
        } else {
            self.senders = kept;
            true
        }
    }

    /// One step of the background reader: block for the transport's next
    /// octets, and either broadcast the decoded frame, skip octets that do
    /// not decode, or broadcast the terminal transport error. The result
    /// says whether the loop should go on; every frame broadcast is the
    /// exact decode of the received byte string.
    pub fn poll_once(&mut self) -> (running: bool)
        ensures
            final(self).spec_subscriber_count() <= old(self).spec_subscriber_count(),
            !running ==> final(self).spec_subscriber_count() == 0,
    {
        match self.imp.receive_frame() {
            Ok(bytes) => {
                match Ax25Frame::from_bytes(bytes.as_slice()) {
                    Ok(parsed) => self.deliver(Ok(parsed)),
                    // octets that do not decode are skipped silently
                    Err(_) => true,
                }
            },
            Err(e) => self.deliver(Err(Arc::new(e))),
        }
    }

    /// Close the underlying transport, unblocking any pending receive.
    pub fn shutdown(&self) {
        self.imp.shutdown()
    }
}

} // verus!
