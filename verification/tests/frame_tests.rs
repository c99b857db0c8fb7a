use ax25::frame::{
    Address, Ax25Frame, CommandResponse, FrameContent, FrameParseError, ProtocolIdentifier,
    RouteEntry, UnnumberedInformation,
};
use std::str::FromStr;

#[test]
fn pid_test() {
    assert_eq!(
        ProtocolIdentifier::from_byte(0x01),
        ProtocolIdentifier::X25Plp
    );
    assert_eq!(
        ProtocolIdentifier::from_byte(0xCA),
        ProtocolIdentifier::Appletalk
    );
    assert_eq!(
        ProtocolIdentifier::from_byte(0xFF),
        ProtocolIdentifier::Escape
    );
    assert_eq!(
        ProtocolIdentifier::from_byte(0x45),
        ProtocolIdentifier::Unknown(0x45)
    );
    assert_eq!(
        ProtocolIdentifier::from_byte(0x10),
        ProtocolIdentifier::Layer3Impl
    );
    assert_eq!(
        ProtocolIdentifier::from_byte(0x20),
        ProtocolIdentifier::Layer3Impl
    );
    assert_eq!(
        ProtocolIdentifier::from_byte(0xA5),
        ProtocolIdentifier::Layer3Impl
    );
}

#[test]
fn pid_encode_canonical() {
    assert_eq!(ProtocolIdentifier::Layer3Impl.to_byte(), 0x10);
    assert_eq!(ProtocolIdentifier::NoLayer3.to_byte(), 0xF0);
    assert_eq!(ProtocolIdentifier::Unknown(0x45).to_byte(), 0x45);
    assert_eq!(
        ProtocolIdentifier::from_byte(ProtocolIdentifier::NetRom.to_byte()),
        ProtocolIdentifier::NetRom
    );
}

#[test]
fn test_address_fromstr() {
    assert_eq!(
        Address::from_str("VK7NTK-1").unwrap(),
        Address {
            callsign: "VK7NTK".to_string(),
            ssid: 1,
            c_bit: false
        }
    );
    assert_eq!(
        Address::from_str("ID-15").unwrap(),
        Address {
            callsign: "ID".to_string(),
            ssid: 15,
            c_bit: false
        }
    );
    assert!(Address::from_str("vk7ntk-5").is_ok());

    assert!(Address::from_str("-1").is_err());
    assert!(Address::from_str("VK7NTK").is_err());
    assert!(Address::from_str("VK7N -5").is_err());
    assert!(Address::from_str("VK7NTK-16").is_err());
    assert!(Address::from_str("8").is_err());
    assert!(Address::from_str("vk7n--1").is_err());
}

#[test]
fn test_address_fromstr_uppercases() {
    let a = Address::from_str("vk7ntk-5").unwrap();
    assert_eq!(a.callsign, "VK7NTK");
    assert_eq!(a.ssid, 5);
    assert!(!a.c_bit);
}

#[test]
fn test_address_fromstr_plus_sign_ssid() {
    // str::parse for unsigned integers accepts a leading plus sign
    let a = Address::from_str("VK7NTK-+5").unwrap();
    assert_eq!(a.ssid, 5);
}

#[test]
fn test_address_display() {
    let a = Address {
        callsign: "VK7NTK".to_string(),
        ssid: 0,
        c_bit: false,
    };
    assert_eq!(a.display_string(), "VK7NTK");
    let b = Address {
        callsign: "VK7NTK".to_string(),
        ssid: 12,
        c_bit: false,
    };
    assert_eq!(b.display_string(), "VK7NTK-12");
    let round = Address::from_str(&b.display_string()).unwrap();
    assert_eq!(round.callsign, "VK7NTK");
    assert_eq!(round.ssid, 12);
}

#[test]
fn test_address_default() {
    let a = Address::default();
    assert_eq!(a.callsign, "NOCALL");
    assert_eq!(a.ssid, 0);
    assert!(!a.c_bit);
}

#[test]
fn test_address_encode_decode() {
    let a = Address {
        callsign: "VK7NTK".to_string(),
        ssid: 1,
        c_bit: false,
    };
    let encoded = a.to_bytes(true, false);
    assert_eq!(encoded.len(), 7);
    // callsign bytes shifted left once
    assert_eq!(encoded[0], b'V' << 1);
    assert_eq!(encoded[5], b'K' << 1);
    // ssid octet: c bit, reserved bits, ssid 1, not final
    assert_eq!(encoded[6], 0b1110_0010);
    let decoded = ax25::frame::parse_address(&encoded).unwrap();
    assert_eq!(decoded.callsign, "VK7NTK");
    assert_eq!(decoded.ssid, 1);
    assert!(decoded.c_bit);
}

#[test]
fn test_address_short_callsign_padded() {
    let a = Address {
        callsign: "ID".to_string(),
        ssid: 0,
        c_bit: false,
    };
    let encoded = a.to_bytes(false, true);
    assert_eq!(
        encoded,
        vec![b'I' << 1, b'D' << 1, b' ' << 1, b' ' << 1, b' ' << 1, b' ' << 1, 0b0110_0001]
    );
    let decoded = ax25::frame::parse_address(&encoded).unwrap();
    assert_eq!(decoded.callsign, "ID");
    assert!(!decoded.c_bit);
}

fn aprs_ui_frame() -> Ax25Frame {
    Ax25Frame {
        source: Address {
            callsign: "VK7NTK".to_string(),
            ssid: 0,
            c_bit: false,
        },
        destination: Address {
            callsign: "APRS".to_string(),
            ssid: 0,
            c_bit: true,
        },
        route: Vec::new(),
        command_or_response: Some(CommandResponse::Command),
        content: FrameContent::UnnumberedInformation(UnnumberedInformation {
            pid: ProtocolIdentifier::NoLayer3,
            info: b"Hello".to_vec(),
            poll_or_final: false,
        }),
    }
}

#[test]
fn test_ui_frame_round_trip() {
    let frame = aprs_ui_frame();
    let bytes = frame.to_bytes();
    // destination "APRS", then source "VK7NTK-0" marked final,
    // then control 0x03, PID 0xF0, and the five info octets
    let expected: Vec<u8> = vec![
        b'A' << 1,
        b'P' << 1,
        b'R' << 1,
        b'S' << 1,
        b' ' << 1,
        b' ' << 1,
        0b1110_0000,
        b'V' << 1,
        b'K' << 1,
        b'7' << 1,
        b'N' << 1,
        b'T' << 1,
        b'K' << 1,
        0b0110_0001,
        0x03,
        0xF0,
        b'H',
        b'e',
        b'l',
        b'l',
        b'o',
    ];
    assert_eq!(bytes, expected);
    let parsed = Ax25Frame::from_bytes(&bytes).unwrap();
    assert_eq!(parsed, frame);
    assert_eq!(parsed.to_bytes(), bytes);
}

#[test]
fn test_info_string_lossy() {
    let frame = aprs_ui_frame();
    assert_eq!(frame.info_string_lossy(), Some("Hello".to_string()));
    let mut garbled = aprs_ui_frame();
    if let FrameContent::UnnumberedInformation(ref mut ui) = garbled.content {
        ui.info = vec![b'H', 0xFF, b'i'];
    }
    assert_eq!(garbled.info_string_lossy(), Some("H\u{FFFD}i".to_string()));
    let mut bare = aprs_ui_frame();
    bare.content = FrameContent::Disconnect(ax25::frame::Disconnect { poll: true });
    assert_eq!(bare.info_string_lossy(), None);
}

#[test]
fn test_route_entry_round_trip() {
    let mut frame = aprs_ui_frame();
    frame.route.push(RouteEntry {
        repeater: Address {
            callsign: "WIDE1".to_string(),
            ssid: 1,
            c_bit: true,
        },
        has_repeated: true,
    });
    let bytes = frame.to_bytes();
    assert_eq!(bytes.len(), 7 * 3 + 7);
    // the source no longer ends the address field; the repeater does
    assert_eq!(bytes[13] & 0x01, 0);
    assert_eq!(bytes[20] & 0x01, 1);
    let parsed = Ax25Frame::from_bytes(&bytes).unwrap();
    assert_eq!(parsed.route.len(), 1);
    assert_eq!(parsed.route[0].repeater.callsign, "WIDE1");
    assert!(parsed.route[0].has_repeated);
    assert_eq!(parsed.to_bytes(), bytes);
}

#[test]
fn test_supervisory_and_unnumbered_round_trips() {
    // one captured-style buffer per family, re-encoded byte for byte
    let head: Vec<u8> = aprs_ui_frame().to_bytes()[0..14].to_vec();
    for control in [
        0b1010_0001u8, // RR, N(R)=5
        0b0100_0101u8, // RNR, N(R)=2
        0b0011_1001u8, // REJ with P/F
        0b0011_1111u8, // SABM with P
        0b0101_0011u8, // DISC with P
        0b0000_1111u8, // DM
        0b0111_0011u8, // UA with F
    ] {
        let mut buffer = head.clone();
        buffer.push(control);
        let parsed = Ax25Frame::from_bytes(&buffer).unwrap();
        assert_eq!(parsed.to_bytes(), buffer, "control {:02x}", control);
    }
}

#[test]
fn test_frmr_round_trip() {
    let mut buffer = aprs_ui_frame().to_bytes()[0..14].to_vec();
    buffer.extend([0b1001_0111, 0b0000_0101, 0b1010_0100, 0b0110_1010]);
    let parsed = Ax25Frame::from_bytes(&buffer).unwrap();
    match &parsed.content {
        FrameContent::FrameReject(fr) => {
            assert!(fr.final_bit);
            assert!(fr.y && fr.w && !fr.z && !fr.x);
            assert_eq!(fr.receive_sequence, 5);
            assert_eq!(fr.send_sequence, 2);
            assert_eq!(fr.command_response, CommandResponse::Command);
            assert_eq!(fr.rejected_control_field_raw, 0x6A);
        }
        other => panic!("not an FRMR: {:?}", other),
    }
    assert_eq!(parsed.to_bytes(), buffer);
}

#[test]
fn test_information_frame_fields() {
    let mut buffer = aprs_ui_frame().to_bytes()[0..14].to_vec();
    // N(R)=3, P set, N(S)=2; PID 0xF0; two info octets
    buffer.extend([0b0111_0100, 0xF0, 0x41, 0x42]);
    let parsed = Ax25Frame::from_bytes(&buffer).unwrap();
    match &parsed.content {
        FrameContent::Information(i) => {
            assert_eq!(i.receive_sequence, 3);
            assert_eq!(i.send_sequence, 2);
            assert!(i.poll);
            assert_eq!(i.pid, ProtocolIdentifier::NoLayer3);
            assert_eq!(i.info, vec![0x41, 0x42]);
        }
        other => panic!("not an I frame: {:?}", other),
    }
    assert_eq!(parsed.to_bytes(), buffer);
}

#[test]
fn test_leading_nulls_skipped() {
    let mut buffer = vec![0u8, 0u8];
    buffer.extend(aprs_ui_frame().to_bytes());
    let parsed = Ax25Frame::from_bytes(&buffer).unwrap();
    assert_eq!(parsed, aprs_ui_frame());
}

#[test]
fn test_parse_error_only_null_bytes() {
    assert!(matches!(
        Ax25Frame::from_bytes(&[0, 0, 0]),
        Err(FrameParseError::OnlyNullBytes)
    ));
    assert!(matches!(
        Ax25Frame::from_bytes(&[]),
        Err(FrameParseError::OnlyNullBytes)
    ));
}

#[test]
fn test_parse_error_no_end_to_address_field() {
    assert!(matches!(
        Ax25Frame::from_bytes(&[0x82, 0x84, 0x86]),
        Err(FrameParseError::NoEndToAddressField)
    ));
}

#[test]
fn test_parse_error_address_field_too_short() {
    assert!(matches!(
        Ax25Frame::from_bytes(&[0x82, 0x84, 0x86, 0x61]),
        Err(FrameParseError::AddressFieldTooShort { start: 0, end: 3 })
    ));
}

#[test]
fn test_parse_error_frame_too_short() {
    let head = aprs_ui_frame().to_bytes()[0..14].to_vec();
    assert!(matches!(
        Ax25Frame::from_bytes(&head),
        Err(FrameParseError::FrameTooShort { len: 14 })
    ));
}

#[test]
fn test_parse_error_missing_pid() {
    let mut buffer = aprs_ui_frame().to_bytes()[0..14].to_vec();
    buffer.push(0x03); // UI control with nothing after it
    assert!(matches!(
        Ax25Frame::from_bytes(&buffer),
        Err(FrameParseError::MissingPidField)
    ));
}

#[test]
fn test_parse_error_unrecognised_s_field() {
    let mut buffer = aprs_ui_frame().to_bytes()[0..14].to_vec();
    buffer.push(0b0000_1101); // S frame with nibble 0xD
    assert!(matches!(
        Ax25Frame::from_bytes(&buffer),
        Err(FrameParseError::UnrecognisedSFieldType)
    ));
}

#[test]
fn test_parse_error_unrecognised_u_field() {
    let mut buffer = aprs_ui_frame().to_bytes()[0..14].to_vec();
    buffer.push(0b1110_0011); // U frame with an unknown type pattern
    assert!(matches!(
        Ax25Frame::from_bytes(&buffer),
        Err(FrameParseError::UnrecognisedUFieldType)
    ));
}

#[test]
fn test_parse_error_wrong_size_frmr() {
    let mut buffer = aprs_ui_frame().to_bytes()[0..14].to_vec();
    buffer.extend([0b1000_0111, 0x00]); // FRMR control with a short info field
    assert!(matches!(
        Ax25Frame::from_bytes(&buffer),
        Err(FrameParseError::WrongSizeFrmrInfo)
    ));
}

#[test]
fn test_parse_error_content_zero_length() {
    assert!(matches!(
        ax25::frame::parse_content(&[]),
        Err(FrameParseError::ContentZeroLength)
    ));
}

#[test]
fn test_frame_is_valid() {
    assert!(aprs_ui_frame().is_valid());
    let mut bad = aprs_ui_frame();
    bad.source.ssid = 99;
    assert!(!bad.is_valid());
    let mut bad2 = aprs_ui_frame();
    bad2.destination.callsign = "TOOLONGCALL".to_string();
    assert!(!bad2.is_valid());
}
