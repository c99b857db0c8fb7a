use ax25::frame::{Address, Ax25Frame, CommandResponse, FrameContent, ProtocolIdentifier, UnnumberedInformation};
use ax25::tnc::{
    ConnectConfig, LinuxIfConfig, ParseError, TcpKissConfig, Tnc, TncAddress, TncError,
    TncTransport,
};
use std::collections::VecDeque;
use std::str::FromStr;
use std::sync::{Arc, Mutex};

#[test]
fn parse_tnc_addresses() {
    assert_eq!(
        "tnc:tcpkiss:192.168.0.1:8001".parse::<TncAddress>(),
        Ok(TncAddress {
            config: ConnectConfig::TcpKiss(TcpKissConfig {
                host: "192.168.0.1".to_string(),
                port: 8001_u16,
            })
        })
    );
    assert_eq!(
        "tnc:linuxif:VK7NTK-2".parse::<TncAddress>(),
        Ok(TncAddress {
            config: ConnectConfig::LinuxIf(LinuxIfConfig {
                callsign: "VK7NTK-2".to_string(),
            })
        })
    );
    assert!(match "fish".parse::<TncAddress>() {
        Err(ParseError::NoTncPrefix { .. }) => true,
        _ => false,
    });
    assert!(match "tnc:".parse::<TncAddress>() {
        Err(ParseError::UnknownType { tnc_type }) => tnc_type == "",
        _ => false,
    });
    assert!(match "tnc:fish".parse::<TncAddress>() {
        Err(ParseError::UnknownType { tnc_type }) => tnc_type == "fish",
        _ => false,
    });
    assert!(match "tnc:tcpkiss".parse::<TncAddress>() {
        Err(ParseError::WrongParameterCount {
            tnc_type,
            expected,
            actual,
        }) => tnc_type == "tcpkiss" && expected == 2 && actual == 0,
        _ => false,
    });
    assert!(match "tnc:tcpkiss:".parse::<TncAddress>() {
        Err(ParseError::WrongParameterCount {
            tnc_type,
            expected,
            actual,
        }) => tnc_type == "tcpkiss" && expected == 2 && actual == 1,
        _ => false,
    });
    assert!(match "tnc:tcpkiss:a:b:c".parse::<TncAddress>() {
        Err(ParseError::WrongParameterCount {
            tnc_type,
            expected,
            actual,
        }) => tnc_type == "tcpkiss" && expected == 2 && actual == 3,
        _ => false,
    });
    assert!(match "tnc:tcpkiss:192.168.0.1".parse::<TncAddress>() {
        Err(ParseError::WrongParameterCount {
            tnc_type,
            expected,
            actual,
        }) => tnc_type == "tcpkiss" && expected == 2 && actual == 1,
        _ => false,
    });
    assert!(
        match "tnc:tcpkiss:192.168.0.1:hello".parse::<TncAddress>() {
            Err(ParseError::InvalidPort { input, .. }) => input == "hello",
            _ => false,
        }
    );
}

#[test]
fn tnc_parse_tnc_addresses() {
    assert_eq!(
        "tnc:tcpkiss:192.168.0.1:8001".parse::<TncAddress>(),
        Ok(TncAddress {
            config: ConnectConfig::TcpKiss(TcpKissConfig {
                host: "192.168.0.1".to_string(),
                port: 8001_u16,
            })
        })
    );
    assert_eq!(
        "tnc:linuxif:VK7NTK-2".parse::<TncAddress>(),
        Ok(TncAddress {
            config: ConnectConfig::LinuxIf(LinuxIfConfig {
                callsign: "VK7NTK-2".to_string(),
            })
        })
    );
    assert!(matches!(
        "fish".parse::<TncAddress>(),
        Err(ParseError::NoTncPrefix { .. })
    ));
    assert!(matches!("tnc:".parse::<TncAddress>(),
        Err(ParseError::UnknownType { tnc_type }) if tnc_type.is_empty()));
    assert!(matches!("tnc:fish".parse::<TncAddress>(),
        Err(ParseError::UnknownType { tnc_type }) if tnc_type == "fish"));
    assert!(match "tnc:tcpkiss".parse::<TncAddress>() {
        Err(ParseError::WrongParameterCount {
            tnc_type,
            expected,
            actual,
        }) => tnc_type == "tcpkiss" && expected == 2 && actual == 0,
        _ => false,
    });
    assert!(match "tnc:tcpkiss:".parse::<TncAddress>() {
        Err(ParseError::WrongParameterCount {
            tnc_type,
            expected,
            actual,
        }) => tnc_type == "tcpkiss" && expected == 2 && actual == 1,
        _ => false,
    });
    assert!(match "tnc:tcpkiss:a:b:c".parse::<TncAddress>() {
        Err(ParseError::WrongParameterCount {
            tnc_type,
            expected,
            actual,
        }) => tnc_type == "tcpkiss" && expected == 2 && actual == 3,
        _ => false,
    });
    assert!(match "tnc:tcpkiss:192.168.0.1".parse::<TncAddress>() {
        Err(ParseError::WrongParameterCount {
            tnc_type,
            expected,
            actual,
        }) => tnc_type == "tcpkiss" && expected == 2 && actual == 1,
        _ => false,
    });
    assert!(
        match "tnc:tcpkiss:192.168.0.1:hello".parse::<TncAddress>() {
            Err(ParseError::InvalidPort { input, .. }) => input == "hello",
            _ => false,
        }
    );
}

#[test]
fn tnc_address_constructors() {
    let a = TncAddress::new_tcpkiss(TcpKissConfig {
        host: "localhost".to_string(),
        port: 8001,
    });
    assert_eq!(a, "tnc:tcpkiss:localhost:8001".parse::<TncAddress>().unwrap());
    let b = TncAddress::new_linuxif(LinuxIfConfig {
        callsign: "VK7NTK-2".to_string(),
    });
    assert_eq!(b, "tnc:linuxif:VK7NTK-2".parse::<TncAddress>().unwrap());
}

#[test]
fn tnc_address_port_with_plus_sign() {
    // str::parse for unsigned integers accepts a leading plus sign
    let a = "tnc:tcpkiss:host:+80".parse::<TncAddress>().unwrap();
    assert_eq!(
        a.config,
        ConnectConfig::TcpKiss(TcpKissConfig {
            host: "host".to_string(),
            port: 80,
        })
    );
}

fn sample_frame(counter: u8) -> Ax25Frame {
    Ax25Frame {
        source: Address {
            callsign: "VK7NTK".to_string(),
            ssid: 0,
            c_bit: false,
        },
        destination: Address {
            callsign: "APRS".to_string(),
            ssid: 0,
            c_bit: true,
        },
        route: Vec::new(),
        command_or_response: Some(CommandResponse::Command),
        content: FrameContent::UnnumberedInformation(UnnumberedInformation {
            pid: ProtocolIdentifier::NoLayer3,
            info: vec![counter],
            poll_or_final: false,
        }),
    }
}

/// A scripted transport: hands out a fixed run of byte buffers, then fails;
/// records everything sent through it.
#[derive(Clone)]
struct ScriptedTransport {
    incoming: Arc<Mutex<VecDeque<Vec<u8>>>>,
    sent: Arc<Mutex<Vec<Vec<u8>>>>,
}

impl ScriptedTransport {
    fn with_frames(frames: Vec<Vec<u8>>) -> Self {
        ScriptedTransport {
            incoming: Arc::new(Mutex::new(frames.into_iter().collect())),
            sent: Arc::new(Mutex::new(Vec::new())),
        }
    }
}

impl TncTransport for ScriptedTransport {
    fn open(_address: &TncAddress) -> Result<Self, TncError> {
        Ok(ScriptedTransport::with_frames(Vec::new()))
    }

    fn send_frame(&self, frame: &[u8]) -> Result<(), TncError> {
        self.sent.lock().unwrap().push(frame.to_vec());
        Ok(())
    }

    fn receive_frame(&self) -> Result<Vec<u8>, TncError> {
        match self.incoming.lock().unwrap().pop_front() {
            Some(bytes) => Ok(bytes),
            None => Err(TncError::ReceiveFrame {
                source: std::io::Error::new(std::io::ErrorKind::UnexpectedEof, "closed"),
            }),
        }
    }

    fn shutdown(&self) {}
}

#[test]
fn fanout_two_subscribers_same_order() {
    let n = 5u8;
    let frames: Vec<Vec<u8>> = (0..n).map(|i| sample_frame(i).to_bytes()).collect();
    let transport = ScriptedTransport::with_frames(frames);
    let mut tnc = Tnc::with_transport(transport);
    let rx1 = tnc.incoming();
    let rx2 = tnc.incoming();
    for _ in 0..n {
        assert!(tnc.poll_once());
    }
    let got1: Vec<Ax25Frame> = (0..n).map(|_| rx1.try_recv().unwrap().unwrap()).collect();
    let got2: Vec<Ax25Frame> = (0..n).map(|_| rx2.try_recv().unwrap().unwrap()).collect();
    assert_eq!(got1, got2);
    for (i, f) in got1.iter().enumerate() {
        assert_eq!(*f, sample_frame(i as u8));
    }
}

#[test]
fn fanout_unparseable_bytes_skipped() {
    let frames = vec![vec![0x00, 0x00], sample_frame(7).to_bytes()];
    let transport = ScriptedTransport::with_frames(frames);
    let mut tnc = Tnc::with_transport(transport);
    let rx = tnc.incoming();
    assert!(tnc.poll_once()); // garbage: skipped, nothing delivered
    assert!(tnc.poll_once()); // the real frame
    assert_eq!(rx.try_recv().unwrap().unwrap(), sample_frame(7));
    assert!(rx.try_recv().is_err()); // nothing else was delivered
}

#[test]
fn fanout_terminal_error_ends_stream() {
    let transport = ScriptedTransport::with_frames(vec![sample_frame(1).to_bytes()]);
    let mut tnc = Tnc::with_transport(transport);
    let rx = tnc.incoming();
    assert!(tnc.poll_once());
    assert!(!tnc.poll_once()); // the transport is exhausted: terminal error
    assert!(rx.recv().unwrap().is_ok());
    assert!(rx.recv().unwrap().is_err()); // the shared error reaches the subscriber
    assert!(rx.recv().is_err()); // then the stream ends: all senders are gone
}

#[test]
fn tnc_send_frame_writes_encoded_bytes() {
    let transport = ScriptedTransport::with_frames(Vec::new());
    let tnc = Tnc::with_transport(transport.clone());
    let frame = sample_frame(3);
    assert!(frame.is_valid());
    tnc.send_frame(&frame).unwrap();
    let sent = transport.sent.lock().unwrap();
    assert_eq!(sent.len(), 1);
    assert_eq!(sent[0], frame.to_bytes());
}

#[test]
fn tnc_open_uses_transport_open() {
    let address = "tnc:tcpkiss:localhost:8001".parse::<TncAddress>().unwrap();
    let opened: Result<Tnc<ScriptedTransport>, TncError> = Tnc::open(&address);
    assert!(opened.is_ok());
}
