//! Encoding and decoding AX.25 v2.0 frames between raw bytes and strongly
//! typed structures.

use crate::ext;
use crate::strutil;
use crate::strutil::spec_split;
use vstd::prelude::*;
use vstd::slice::slice_subrange;

verus! {

/// Errors when parsing a callsign-SSID into an `Address`
#[derive(Debug)]
pub enum AddressParseError {
    InvalidFormat,
    InvalidSsid { source: std::num::ParseIntError },
    SsidOutOfRange,
}

/// Errors when parsing a byte buffer into an `Ax25Frame`
#[derive(Debug)]
pub enum FrameParseError {
    OnlyNullBytes,
    NoEndToAddressField,
    AddressFieldTooShort { start: usize, end: usize },
    FrameTooShort { len: usize },
    AddressInvalidUtf8 { source: std::string::FromUtf8Error },
    ContentZeroLength,
    MissingPidField,
    UnrecognisedSFieldType,
    UnrecognisedUFieldType,
    WrongSizeFrmrInfo,
}

/// Human-readable protocol identifiers, mostly from the AX.25 2.2 spec.
#[derive(Debug, Clone, Copy, PartialEq, Eq, Structural)]
pub enum ProtocolIdentifier {
    Layer3Impl,
    X25Plp,
    CompressedTcpIp,
    UncompressedTcpIp,
    SegmentationFragment,
    TexnetDatagram,
    LinkQuality,
    Appletalk,
    AppletalkArp,
    ArpaIp,
    ArpaAddress,
    Flexnet,
    NetRom,
    NoLayer3,
    Escape,
    Unknown(u8),
}

/// Whether one PID octet marks the frame as carrying an AX.25 layer 3
/// implementation: bits 5 and 4 hold exactly one of the patterns 01 or 10.
pub open spec fn spec_pid_is_layer3(byte: u8) -> bool {
    (byte & 0b0011_0000) == 0b0001_0000 || (byte & 0b0011_0000) == 0b0010_0000
}

/// The symbolic value one PID octet decodes to. The layer 3 range test runs
/// first, then the fixed table, then `Unknown`.
pub open spec fn spec_pid_decode(byte: u8) -> ProtocolIdentifier {
    if spec_pid_is_layer3(byte) {
        ProtocolIdentifier::Layer3Impl
    } else if byte == 0x01 {
        ProtocolIdentifier::X25Plp
    } else if byte == 0x06 {
        ProtocolIdentifier::CompressedTcpIp
    } else if byte == 0x07 {
        ProtocolIdentifier::UncompressedTcpIp
    } else if byte == 0x08 {
        ProtocolIdentifier::SegmentationFragment
    } else if byte == 0xC3 {
        ProtocolIdentifier::TexnetDatagram
    } else if byte == 0xC4 {
        ProtocolIdentifier::LinkQuality
    } else if byte == 0xCA {
        ProtocolIdentifier::Appletalk
    } else if byte == 0xCB {
        ProtocolIdentifier::AppletalkArp
    } else if byte == 0xCC {
        ProtocolIdentifier::ArpaIp
    } else if byte == 0xCD {
        ProtocolIdentifier::ArpaAddress
    } else if byte == 0xCE {
        ProtocolIdentifier::Flexnet
    } else if byte == 0xCF {
        ProtocolIdentifier::NetRom
    } else if byte == 0xF0 {
        ProtocolIdentifier::NoLayer3
    } else if byte == 0xFF {
        ProtocolIdentifier::Escape
    } else {
        ProtocolIdentifier::Unknown(byte)
    }
}

/// The octet one symbolic PID encodes to. `Layer3Impl` has a canonical
/// encoding; `Unknown` keeps its literal octet.
pub open spec fn spec_pid_encode(pid: ProtocolIdentifier) -> u8 {
    match pid {
        ProtocolIdentifier::Layer3Impl => 0b0001_0000,
        ProtocolIdentifier::X25Plp => 0x01,
        ProtocolIdentifier::CompressedTcpIp => 0x06,
        ProtocolIdentifier::UncompressedTcpIp => 0x07,
        ProtocolIdentifier::SegmentationFragment => 0x08,
        ProtocolIdentifier::TexnetDatagram => 0xC3,
        ProtocolIdentifier::LinkQuality => 0xC4,
        ProtocolIdentifier::Appletalk => 0xCA,
        ProtocolIdentifier::AppletalkArp => 0xCB,
        ProtocolIdentifier::ArpaIp => 0xCC,
        ProtocolIdentifier::ArpaAddress => 0xCD,
        ProtocolIdentifier::Flexnet => 0xCE,
        ProtocolIdentifier::NetRom => 0xCF,
        ProtocolIdentifier::NoLayer3 => 0xF0,
        ProtocolIdentifier::Escape => 0xFF,
        ProtocolIdentifier::Unknown(byte) => byte,
    }
}

impl ProtocolIdentifier {
    /// Decode one PID octet to its symbolic value.
    pub fn from_byte(byte: u8) -> (pid: ProtocolIdentifier)
        ensures
            pid == spec_pid_decode(byte),
    {
        let masked = byte & 0b0011_0000;
        if masked == 0b0001_0000 || masked == 0b0010_0000 {
            ProtocolIdentifier::Layer3Impl
        } else {
            match byte {
                0x01 => ProtocolIdentifier::X25Plp,
                0x06 => ProtocolIdentifier::CompressedTcpIp,
                0x07 => ProtocolIdentifier::UncompressedTcpIp,
                0x08 => ProtocolIdentifier::SegmentationFragment,
                0xC3 => ProtocolIdentifier::TexnetDatagram,
                0xC4 => ProtocolIdentifier::LinkQuality,
                0xCA => ProtocolIdentifier::Appletalk,
                0xCB => ProtocolIdentifier::AppletalkArp,
                0xCC => ProtocolIdentifier::ArpaIp,
                0xCD => ProtocolIdentifier::ArpaAddress,
                0xCE => ProtocolIdentifier::Flexnet,
                0xCF => ProtocolIdentifier::NetRom,
                0xF0 => ProtocolIdentifier::NoLayer3,
                0xFF => ProtocolIdentifier::Escape,
                _ => ProtocolIdentifier::Unknown(byte),
            }
        }
    }

    /// Encode this symbolic value to its canonical PID octet.
    pub fn to_byte(&self) -> (byte: u8)
        ensures
            byte == spec_pid_encode(*self),
    {
        match *self {
            ProtocolIdentifier::Layer3Impl => 0b0001_0000,
            ProtocolIdentifier::X25Plp => 0x01,
            ProtocolIdentifier::CompressedTcpIp => 0x06,
            ProtocolIdentifier::UncompressedTcpIp => 0x07,
            ProtocolIdentifier::SegmentationFragment => 0x08,
            ProtocolIdentifier::TexnetDatagram => 0xC3,
            ProtocolIdentifier::LinkQuality => 0xC4,
            ProtocolIdentifier::Appletalk => 0xCA,
            ProtocolIdentifier::AppletalkArp => 0xCB,
            ProtocolIdentifier::ArpaIp => 0xCC,
            ProtocolIdentifier::ArpaAddress => 0xCD,
            ProtocolIdentifier::Flexnet => 0xCE,
            ProtocolIdentifier::NetRom => 0xCF,
            ProtocolIdentifier::NoLayer3 => 0xF0,
            ProtocolIdentifier::Escape => 0xFF,
            ProtocolIdentifier::Unknown(byte) => byte,
        }
    }
}

/// On every octet outside the layer 3 family, decoding and then re-encoding
/// gives the octet back; inside the family it gives the canonical octet.
pub proof fn lemma_pid_round_trip(byte: u8)
    ensures
        !spec_pid_is_layer3(byte) ==> spec_pid_encode(spec_pid_decode(byte)) == byte,
        spec_pid_is_layer3(byte) ==> spec_pid_encode(spec_pid_decode(byte)) == 0b0001_0000u8,
{
}

/// An ASCII letter or digit, the only characters a callsign may hold.
pub open spec fn spec_is_ascii_alnum(c: char) -> bool {
    ('0' as u32 <= c as u32 <= '9' as u32) || ('A' as u32 <= c as u32 <= 'Z' as u32) || ('a' as u32
        <= c as u32 <= 'z' as u32)
}

/// The character with an ASCII lower-case letter turned upper case.
pub open spec fn spec_upper_char(c: char) -> char {
    if 'a' as u32 <= c as u32 <= 'z' as u32 {
        (c as u32 - 32) as char
    } else {
        c
    }
}

/// A source or destination of an AX.25 frame, combining a callsign with an SSID.
#[derive(Debug, Clone, PartialEq, Eq)]
pub struct Address {
    /// An alphanumeric ASCII callsign of maximum length 6, e.g. "VK7NTK"
    pub callsign: String,
    /// Secondary Station Identifier, from 0 to 15
    pub ssid: u8,
    /// The overloaded high bit of the SSID octet: command/response for a
    /// source or destination, "has been repeated" for a repeater entry.
    pub c_bit: bool,
}

/// The seventh octet of an encoded address: the c bit on top, two reserved
/// bits set, the SSID shifted left once, and the end-of-address marker.
pub open spec fn spec_address_ssid_byte(ssid: u8, high_bit: bool, final_in_address: bool) -> u8 {
    ((ssid << 1) | 0b0110_0000) | (if high_bit {
        0b1000_0000u8
    } else {
        0u8
    }) | (if final_in_address {
        0b0000_0001u8
    } else {
        0u8
    })
}

/// The 7-octet encoding of an address: six callsign bytes shifted left once,
/// padded with shifted spaces, then the SSID octet.
pub open spec fn spec_address_encode(a: Address, high_bit: bool, final_in_address: bool) -> Seq<
    u8,
> {
    Seq::new(6, |i: int|
        if i < a.callsign@.len() {
            ((a.callsign@[i] as u32) as u8) << 1
        } else {
            0x40u8
        }
    ).push(spec_address_ssid_byte(a.ssid, high_bit, final_in_address))
}

/// How many bytes are left of a decoded callsign once trailing spaces go.
pub open spec fn spec_trimmed_len(s: Seq<u8>) -> int
    decreases s.len(),
{
    if s.len() == 0 {
        0
    } else if s.last() == 0x20 {
        spec_trimmed_len(s.drop_last())
    } else {
        s.len() as int
    }
}

pub proof fn lemma_trimmed_len_at(s: Seq<u8>, k: int)
    requires
        0 <= k <= s.len(),
        forall|j: int| k <= j < s.len() ==> s[j] == 0x20,
        k > 0 ==> s[k - 1] != 0x20,
    ensures
        spec_trimmed_len(s) == k,
    decreases s.len(),
{
    if s.len() > k {
        lemma_trimmed_len_at(s.drop_last(), k);
    }
}

/// The first six octets of an encoded address field, each shifted back right.
pub open spec fn spec_shifted_prefix(bytes: Seq<u8>) -> Seq<u8> {
    Seq::new(6, |i: int| bytes[i] >> 1)
}

/// The callsign text a 7-octet address field decodes to: the first six
/// octets shifted right once, with trailing spaces dropped.
pub open spec fn spec_decoded_callsign(bytes: Seq<u8>) -> Seq<char> {
    let sh = spec_shifted_prefix(bytes);
    sh.take(spec_trimmed_len(sh)).map_values(|b: u8| b as char)
}

/// The SSID a 7-octet address field decodes to.
pub open spec fn spec_decoded_ssid(bytes: Seq<u8>) -> u8 {
    (bytes[6] >> 1) & 0x0f
}

/// The c bit a 7-octet address field decodes to.
pub open spec fn spec_decoded_c_bit(bytes: Seq<u8>) -> bool {
    bytes[6] & 0b1000_0000 != 0
}

impl Address {
    /// A structurally valid address: a callsign of one to six ASCII letters
    /// or digits and an SSID of at most 15. Encoding is exact only on such
    /// addresses.
    pub open spec fn wf(self) -> bool {
        &&& 1 <= self.callsign@.len() <= 6
        &&& forall|i: int|
            0 <= i < self.callsign@.len() ==> spec_is_ascii_alnum(#[trigger] self.callsign@[i])
        &&& self.ssid <= 15
    }

    /// Whether this address satisfies the structural invariant `wf`.
    pub fn is_valid(&self) -> (r: bool)
        ensures
            r == self.wf(),
    {
        let n = self.callsign.as_str().unicode_len();
        if n < 1 || n > 6 || self.ssid > 15 {
            return false;
        }
        let mut i: usize = 0;
        while i < n
            invariant
                0 <= i <= n,
                n == self.callsign@.len(),
                forall|j: int| 0 <= j < i ==> spec_is_ascii_alnum(#[trigger] self.callsign@[j]),
            decreases n - i,
        {
            let c = self.callsign.as_str().get_char(i);
            let v = c as u32;
            if !((48 <= v && v <= 57) || (65 <= v && v <= 90) || (97 <= v && v <= 122)) {
                return false;
            }
            i += 1;
        }
        true
    }

    /// Encode this address as its 7-octet wire form. `high_bit` sets the
    /// c bit; `final_in_address` sets the end-of-address marker.
    pub fn to_bytes(&self, high_bit: bool, final_in_address: bool) -> (encoded: Vec<u8>)
        requires
            self.wf(),
        ensures
            encoded@ == spec_address_encode(*self, high_bit, final_in_address),
    {
        let mut encoded: Vec<u8> = Vec::new();
        let n = self.callsign.as_str().unicode_len();
        let mut i: usize = 0;
        // Shift by one bit as required for AX.25 address encoding
        while i < n
            invariant
                0 <= i <= n,
                n == self.callsign@.len(),
                self.wf(),
                encoded@.len() == i,
                forall|j: int| 0 <= j < i ==> encoded@[j] == ((self.callsign@[j] as u32) as u8) << 1,
            decreases n - i,
        {
            let c = self.callsign.as_str().get_char(i);
            proof {
                assert(spec_is_ascii_alnum(self.callsign@[i as int]));
            }
            let b = (c as u32) as u8;
            encoded.push(b << 1);
            i += 1;
        }
        // Pad with spaces up to length 6
        while encoded.len() < 6
            invariant
                self.callsign@.len() <= encoded@.len() <= 6,
                forall|j: int|
                    0 <= j < encoded@.len() ==> encoded@[j] == (if j < self.callsign@.len() {
                        ((self.callsign@[j] as u32) as u8) << 1
                    } else {
                        0x40u8
                    }),
            decreases 6 - encoded.len(),
        {
            encoded.push(0x40);
        }
        // Now do the SSID byte
        let high: u8 = if high_bit {
            0b1000_0000
        } else {
            0
        };
        let low: u8 = if final_in_address {
            0b0000_0001
        } else {
            0
        };
        let ssid_byte = ((self.ssid << 1u8) | 0b0110_0000) | high | low;
        encoded.push(ssid_byte);
        proof {
            assert(encoded@ =~= spec_address_encode(*self, high_bit, final_in_address));
        }
        encoded
    }

    /// The display form of this address: the callsign alone when the SSID is
    /// zero, otherwise the callsign, a dash and the SSID in decimal.
    pub fn display_string(&self) -> (s: String)
        ensures
            s@ == spec_address_display(*self),
    {
        let mut s = self.callsign.clone();
        if self.ssid != 0 {
            ext::push_char(&mut s, '-');
            if self.ssid >= 100 {
                ext::push_char(&mut s, (48 + (self.ssid / 100) as u32) as u8 as char);
            }
            if self.ssid >= 10 {
                ext::push_char(&mut s, (48 + ((self.ssid / 10) % 10) as u32) as u8 as char);
            }
            ext::push_char(&mut s, (48 + (self.ssid % 10) as u32) as u8 as char);
        }
        proof {
            assert(s@ =~= spec_address_display(*self));
        }
        s
    }

    /// Parse the text form `CALL-N`: a callsign of one to six ASCII letters
    /// or digits, a dash, and an SSID from 0 to 15. The callsign is turned
    /// upper case; the c bit is left clear, to be set on transmit.
    #[verifier::loop_isolation(false)]
    pub fn parse_str(s: &str) -> (r: Result<Address, AddressParseError>)
        ensures
            spec_address_parse_ok(s@, r),
    {
        let parts = strutil::split_str(s, '-');
        if parts.len() != 2 {
            return Err(AddressParseError::InvalidFormat);
        }
        let callsign_part = &parts[0];
        proof {
            assert(parts@.len() == spec_split(s@, '-').len());
            assert(parts@[0]@ == spec_split(s@, '-')[0]);
            assert(callsign_part@ == parts@[0]@);
        }
        let n = callsign_part.as_str().unicode_len();
        if n == 0 || n > 6 {
            return Err(AddressParseError::InvalidFormat);
        }
        let mut upper: Vec<u8> = Vec::new();
        let mut i: usize = 0;
        while i < n
            invariant
                0 <= i <= n,
                n == callsign_part@.len(),
                upper@.len() == i,
                forall|j: int| 0 <= j < i ==> spec_is_ascii_alnum(#[trigger] callsign_part@[j]),
                forall|j: int|
                    0 <= j < i ==> upper@[j] == (spec_upper_char(#[trigger] callsign_part@[j]) as u32) as u8,
                forall|j: int| 0 <= j < i ==> upper@[j] < 0x80,
            decreases n - i,
        {
            let c = callsign_part.as_str().get_char(i);
            let v = c as u32;
            if (48 <= v && v <= 57) || (65 <= v && v <= 90) {
                upper.push(v as u8);
            } else if 97 <= v && v <= 122 {
                upper.push((v - 32) as u8);
            } else {
                proof {
                    assert(!spec_is_ascii_alnum(callsign_part@[i as int]));
                    assert(spec_split(s@, '-')[0][i as int] == callsign_part@[i as int]);
                }
                return Err(AddressParseError::InvalidFormat);
            }
            i += 1;
        }
        let ssid = match ext::parse_u8_dec(parts[1].as_str()) {
            Ok(v) => v,
            Err(e) => {
                return Err(AddressParseError::InvalidSsid { source: e });
            },
        };
        if ssid > 15 {
            return Err(AddressParseError::SsidOutOfRange);
        }
        let callsign = ext::ascii_to_string(upper.as_slice());
        proof {
            assert(callsign@ =~= spec_split(s@, '-')[0].map_values(|c: char| spec_upper_char(c)));
        }
        Ok(Address { callsign, ssid, c_bit: false })
    }
}

/// Append every byte of a slice to a vector.
fn push_all(dst: &mut Vec<u8>, src: &[u8])
    ensures
        final(dst)@ == old(dst)@ + src@,
{
    let n = src.len();
    let mut i: usize = 0;
    while i < n
        invariant
            0 <= i <= n,
            n == src@.len(),
            dst@ == old(dst)@ + src@.take(i as int),
        decreases n - i,
    {
        let b = src[i];
        proof {
            assert(old(dst)@ + src@.take(i + 1) =~= (old(dst)@ + src@.take(i as int)).push(
                src@[i as int],
            ));
        }
        dst.push(b);
        i += 1;
    }
    proof {
        assert(src@.take(n as int) =~= src@);
    }
}

/// The bytes of a slice from a position to its end, as an owned vector.
fn tail_vec(src: &[u8], from: usize) -> (v: Vec<u8>)
    requires
        from <= src@.len(),
    ensures
        v@ == src@.skip(from as int),
{
    let n = src.len();
    let mut v: Vec<u8> = Vec::new();
    let mut i: usize = from;
    while i < n
        invariant
            from <= i <= n,
            n == src@.len(),
            v@ == src@.subrange(from as int, i as int),
        decreases n - i,
    {
        let b = src[i];
        proof {
            assert(src@.subrange(from as int, i + 1) =~= src@.subrange(from as int, i as int).push(
                src@[i as int],
            ));
        }
        v.push(b);
        i += 1;
    }
    proof {
        assert(src@.subrange(from as int, n as int) =~= src@.skip(from as int));
    }
    v
}

/// The display text of an address: `CALL`, or `CALL-ssid` when the SSID is
/// not zero.
pub open spec fn spec_address_display(a: Address) -> Seq<char> {
    if a.ssid == 0 {
        a.callsign@
    } else {
        a.callsign@.push('-') + spec_ssid_digits(a.ssid)
    }
}

/// The decimal digits of an SSID value.
pub open spec fn spec_ssid_digits(ssid: u8) -> Seq<char> {
    let ones = (48 + (ssid % 10) as u32) as u8 as char;
    let tens = (48 + ((ssid / 10) % 10) as u32) as u8 as char;
    let hundreds = (48 + (ssid / 100) as u32) as u8 as char;
    if ssid >= 100 {
        seq![hundreds, tens, ones]
    } else if ssid >= 10 {
        seq![tens, ones]
    } else {
        seq![ones]
    }
}

/// What `Address::parse_str` returns for each input: the split on dashes
/// must give exactly a callsign of one to six ASCII letters or digits and a
/// decimal SSID of at most 15, and each departure gives its own error.
pub open spec fn spec_address_parse_ok(s: Seq<char>, r: Result<Address, AddressParseError>) -> bool {
    let parts = spec_split(s, '-');
    let shape_ok = parts.len() == 2 && 1 <= parts[0].len() <= 6 && (forall|i: int|
        0 <= i < parts[0].len() ==> spec_is_ascii_alnum(#[trigger] parts[0][i]));
    let ssid_parses = ext::spec_is_dec_literal(parts[1]) && ext::spec_dec_value(
        ext::spec_dec_digits(parts[1]),
    ) <= u8::MAX;
    match r {
        Ok(a) => {
            &&& shape_ok
            &&& ssid_parses
            &&& ext::spec_dec_value(ext::spec_dec_digits(parts[1])) <= 15
            &&& a.callsign@ == parts[0].map_values(|c: char| spec_upper_char(c))
            &&& a.ssid == ext::spec_dec_value(ext::spec_dec_digits(parts[1]))
            &&& !a.c_bit
        },
        Err(AddressParseError::InvalidFormat) => !shape_ok,
        Err(AddressParseError::InvalidSsid { .. }) => shape_ok && !ssid_parses,
        Err(AddressParseError::SsidOutOfRange) => shape_ok && ssid_parses && ext::spec_dec_value(
            ext::spec_dec_digits(parts[1]),
        ) > 15,
    }
}

/// Decode a 7-octet address field. The six callsign octets are shifted right
/// once and trailing spaces dropped; the seventh octet holds the SSID and
/// the c bit. Shifted octets are always ASCII, so this cannot fail.
pub fn parse_address(bytes: &[u8]) -> (r: Result<Address, FrameParseError>)
    requires
        bytes@.len() == 7,
    ensures
        r matches Ok(a) && a.callsign@ == spec_decoded_callsign(bytes@) && a.ssid
            == spec_decoded_ssid(bytes@) && a.c_bit == spec_decoded_c_bit(bytes@),
{
    let mut k: usize = 6;
    while k > 0 && bytes[k - 1] >> 1 == 0x20
        invariant
            0 <= k <= 6,
            bytes@.len() == 7,
            forall|j: int| k <= j < 6 ==> spec_shifted_prefix(bytes@)[j] == 0x20,
        decreases k,
    {
        k -= 1;
    }
    let mut cs: Vec<u8> = Vec::new();
    let mut i: usize = 0;
    while i < k
        invariant
            0 <= i <= k <= 6,
            bytes@.len() == 7,
            cs@.len() == i,
            forall|j: int| 0 <= j < i ==> cs@[j] == spec_shifted_prefix(bytes@)[j],
            forall|j: int| 0 <= j < i ==> cs@[j] < 0x80,
        decreases k - i,
    {
        let b = bytes[i];
        proof {
            assert((b >> 1) < 0x80) by (bit_vector);
        }
        cs.push(b >> 1);
        i += 1;
    }
    let callsign = ext::ascii_to_string(cs.as_slice());
    let ssid_octet = bytes[6];
    proof {
        let sh = spec_shifted_prefix(bytes@);
        lemma_trimmed_len_at(sh, k as int);
        assert(callsign@ =~= spec_decoded_callsign(bytes@));
    }
    Ok(
        Address {
            callsign,
            ssid: (ssid_octet >> 1) & 0x0f,
            c_bit: ssid_octet & 0b1000_0000 > 0,
        },
    )
}

/// Parsing the encoded form of a well-formed address yields the same
/// callsign, the same SSID, and the chosen high bit back.
pub proof fn lemma_address_round_trip(a: Address, high_bit: bool, final_in_address: bool)
    requires
        a.wf(),
    ensures
        spec_decoded_callsign(spec_address_encode(a, high_bit, final_in_address)) == a.callsign@,
        spec_decoded_ssid(spec_address_encode(a, high_bit, final_in_address)) == a.ssid,
        spec_decoded_c_bit(spec_address_encode(a, high_bit, final_in_address)) == high_bit,
{
    let enc = spec_address_encode(a, high_bit, final_in_address);
    let sh = spec_shifted_prefix(enc);
    let cs = a.callsign@;
    assert forall|i: int| 0 <= i < 6 implies sh[i] == (if i < cs.len() {
        (cs[i] as u32) as u8
    } else {
        0x20u8
    }) by {
        if i < cs.len() {
            let c = cs[i];
            assert(spec_is_ascii_alnum(c));
            let b = (c as u32) as u8;
            assert(b < 0x80 && b > 0x20);
            assert((b << 1) >> 1 == b && (b << 1) != 0x40) by (bit_vector)
                requires
                    0x20 < b < 0x80,
            ;
        } else {
            assert(enc[i] == 0x40);
            assert(0x40u8 >> 1 == 0x20) by (bit_vector);
        }
    }
    assert forall|i: int| 0 <= i < cs.len() implies sh[i] != 0x20 by {
        let c = cs[i];
        assert(spec_is_ascii_alnum(c));
        let b = (c as u32) as u8;
        assert(b < 0x80 && b > 0x20);
        assert((b << 1) >> 1 == b && (b << 1) != 0x40) by (bit_vector)
            requires
                0x20 < b < 0x80,
        ;
    }
    lemma_trimmed_len_at(sh, cs.len() as int);
    assert forall|i: int| 0 <= i < cs.len() implies (sh[i] as char) == cs[i] by {
        let c = cs[i];
        assert(spec_is_ascii_alnum(c));
        assert((c as u32) < 0x80);
        vstd::utf8::char_u32_cast(c, c as u32);
        assert(((c as u32) as u8) as char == c);
    }
    let l = cs.len() as int;
    assert(spec_trimmed_len(sh) == l);
    let dec = spec_decoded_callsign(enc);
    assert(dec.len() == cs.len());
    assert forall|i: int| 0 <= i < cs.len() implies dec[i] == cs[i] by {
        assert(sh.take(l)[i] == sh[i]);
        assert(dec[i] == sh[i] as char);
    }
    assert(spec_decoded_callsign(enc) =~= cs);
    let sb = spec_address_ssid_byte(a.ssid, high_bit, final_in_address);
    let ssid = a.ssid;
    if high_bit {
        if final_in_address {
            assert(((((ssid << 1) | 0b0110_0000) | 0b1000_0000 | 0b0000_0001) >> 1) & 0x0f == ssid
                && (((ssid << 1) | 0b0110_0000) | 0b1000_0000 | 0b0000_0001) & 0b1000_0000 != 0)
                by (bit_vector)
                requires
                    ssid <= 15,
            ;
        } else {
            assert(((((ssid << 1) | 0b0110_0000) | 0b1000_0000 | 0u8) >> 1) & 0x0f == ssid && ((
            (ssid << 1) | 0b0110_0000) | 0b1000_0000 | 0u8) & 0b1000_0000 != 0) by (bit_vector)
                requires
                    ssid <= 15,
            ;
        }
    } else {
        if final_in_address {
            assert(((((ssid << 1) | 0b0110_0000) | 0u8 | 0b0000_0001) >> 1) & 0x0f == ssid && ((
            (ssid << 1) | 0b0110_0000) | 0u8 | 0b0000_0001) & 0b1000_0000 == 0) by (bit_vector)
                requires
                    ssid <= 15,
            ;
        } else {
            assert(((((ssid << 1) | 0b0110_0000) | 0u8 | 0u8) >> 1) & 0x0f == ssid && (((ssid << 1)
                | 0b0110_0000) | 0u8 | 0u8) & 0b1000_0000 == 0) by (bit_vector)
                requires
                    ssid <= 15,
            ;
        }
    }
}


/// Indicates whether a given frame is a Command or a Response.
#[derive(Debug, Clone, Copy, PartialEq, Eq, Structural)]
pub enum CommandResponse {
    Command,
    Response,
}

/// Information (I) frame
#[derive(Debug, Clone, PartialEq, Eq)]
pub struct Information {
    pub pid: ProtocolIdentifier,
    pub info: Vec<u8>,
    pub receive_sequence: u8,
    pub send_sequence: u8,
    pub poll: bool,
}

/// RR Supervisory (S) frame
#[derive(Debug, Clone, Copy, PartialEq, Eq, Structural)]
pub struct ReceiveReady {
    pub receive_sequence: u8,
    pub poll_or_final: bool,
}

/// RNR Supervisory (S) frame
#[derive(Debug, Clone, Copy, PartialEq, Eq, Structural)]
pub struct ReceiveNotReady {
    pub receive_sequence: u8,
    pub poll_or_final: bool,
}

/// REJ Supervisory (S) frame
#[derive(Debug, Clone, Copy, PartialEq, Eq, Structural)]
pub struct Reject {
    pub receive_sequence: u8,
    pub poll_or_final: bool,
}

/// SABM Unnumbered (U) frame
#[derive(Debug, Clone, Copy, PartialEq, Eq, Structural)]
pub struct SetAsynchronousBalancedMode {
    pub poll: bool,
}

/// DISC Unnumbered (U) frame
#[derive(Debug, Clone, Copy, PartialEq, Eq, Structural)]
pub struct Disconnect {
    pub poll: bool,
}

/// DM Unnumbered (U) frame
#[derive(Debug, Clone, Copy, PartialEq, Eq, Structural)]
pub struct DisconnectedMode {
    pub final_bit: bool,
}

/// UA Unnumbered (U) frame
#[derive(Debug, Clone, Copy, PartialEq, Eq, Structural)]
pub struct UnnumberedAcknowledge {
    pub final_bit: bool,
}

/// FRMR Unnumbered (U) frame. Flags correspond to names in the AX.25 specification.
#[derive(Debug, Clone, Copy, PartialEq, Eq, Structural)]
pub struct FrameReject {
    pub final_bit: bool,
    /// A raw copy of the control field in the frame that was rejected
    pub rejected_control_field_raw: u8,
    /// The attached control field contained an invalid Receive Sequence Number
    pub z: bool,
    /// The information field of a received frame exceeded the maximum allowable length.
    pub y: bool,
    /// A U or S frame was received that contained an information field.
    pub x: bool,
    /// The received control field was invalid or not implemented.
    pub w: bool,
    pub receive_sequence: u8,
    pub send_sequence: u8,
    pub command_response: CommandResponse,
}

/// UI Unnumbered Information frame
#[derive(Debug, Clone, PartialEq, Eq)]
pub struct UnnumberedInformation {
    pub pid: ProtocolIdentifier,
    pub info: Vec<u8>,
    pub poll_or_final: bool,
}

/// Placeholder for when the Address part was parseable but not the control field
#[derive(Debug, Clone, PartialEq, Eq)]
pub struct UnknownContent {
    pub raw: Vec<u8>,
}

/// The body of the frame after the end of the address field
#[derive(Debug, Clone, PartialEq, Eq)]
pub enum FrameContent {
    Information(Information),
    ReceiveReady(ReceiveReady),
    ReceiveNotReady(ReceiveNotReady),
    Reject(Reject),
    SetAsynchronousBalancedMode(SetAsynchronousBalancedMode),
    Disconnect(Disconnect),
    DisconnectedMode(DisconnectedMode),
    UnnumberedAcknowledge(UnnumberedAcknowledge),
    FrameReject(FrameReject),
    UnnumberedInformation(UnnumberedInformation),
    UnknownContent(UnknownContent),
}

/// The poll/final bit as it sits in a control octet.
pub open spec fn spec_pf_bit(set: bool) -> u8 {
    if set {
        0b0001_0000u8
    } else {
        0u8
    }
}

/// The control octet of a supervisory frame: the receive sequence on top,
/// the poll/final bit, and the sub-type nibble below.
pub open spec fn spec_s_control(nibble: u8, receive_sequence: u8, poll_or_final: bool) -> u8 {
    (nibble | spec_pf_bit(poll_or_final)) | ((receive_sequence & 0b0000_0111) << 5)
}

/// The octets a frame content encodes to: the control octet, then whatever
/// payload its family carries.
pub open spec fn spec_content_encode(c: FrameContent) -> Seq<u8> {
    match c {
        FrameContent::Information(i) => seq![
            (((i.receive_sequence & 0b0000_0111) << 5) | spec_pf_bit(i.poll)) | ((i.send_sequence
                & 0b0000_0111) << 1),
            spec_pid_encode(i.pid),
        ] + i.info@,
        FrameContent::ReceiveReady(rr) => seq![
            spec_s_control(0b0000_0001, rr.receive_sequence, rr.poll_or_final),
        ],
        FrameContent::ReceiveNotReady(rnr) => seq![
            spec_s_control(0b0000_0101, rnr.receive_sequence, rnr.poll_or_final),
        ],
        FrameContent::Reject(rej) => seq![
            spec_s_control(0b0000_1001, rej.receive_sequence, rej.poll_or_final),
        ],
        FrameContent::SetAsynchronousBalancedMode(sabm) => seq![
            0b0010_1111 | spec_pf_bit(sabm.poll),
        ],
        FrameContent::Disconnect(disc) => seq![0b0100_0011 | spec_pf_bit(disc.poll)],
        FrameContent::DisconnectedMode(dm) => seq![0b0000_1111 | spec_pf_bit(dm.final_bit)],
        FrameContent::UnnumberedAcknowledge(ua) => seq![0b0110_0011 | spec_pf_bit(ua.final_bit)],
        FrameContent::FrameReject(fr) => seq![
            0b1000_0111 | spec_pf_bit(fr.final_bit),
            ((if fr.z {
                0b0000_1000u8
            } else {
                0u8
            }) | (if fr.y {
                0b0000_0100u8
            } else {
                0u8
            })) | ((if fr.x {
                0b0000_0010u8
            } else {
                0u8
            }) | (if fr.w {
                0b0000_0001u8
            } else {
                0u8
            })),
            (((fr.receive_sequence & 0b0000_0111) << 5) | (if fr.command_response
                == CommandResponse::Response {
                0b0001_0000u8
            } else {
                0u8
            })) | ((fr.send_sequence & 0b0000_0111) << 1),
            fr.rejected_control_field_raw,
        ],
        FrameContent::UnnumberedInformation(ui) => seq![
            0b0000_0011 | spec_pf_bit(ui.poll_or_final),
            spec_pid_encode(ui.pid),
        ] + ui.info@,
        FrameContent::UnknownContent(uc) => uc.raw@,
    }
}

impl FrameContent {
    /// Encode the control field and payload of this content to octets.
    pub fn encode(&self) -> (encoded: Vec<u8>)
        ensures
            encoded@ == spec_content_encode(*self),
    {
        let mut encoded: Vec<u8> = Vec::new();
        match self {
            FrameContent::Information(i) => {
                let mut c: u8 = (i.receive_sequence & 0b0000_0111) << 5u8;
                c = c | (if i.poll {
                    0b0001_0000u8
                } else {
                    0u8
                });
                c = c | ((i.send_sequence & 0b0000_0111) << 1u8);
                encoded.push(c);
                encoded.push(i.pid.to_byte());
                push_all(&mut encoded, i.info.as_slice());
            },
            FrameContent::ReceiveReady(rr) => {
                let mut c: u8 = 0b0000_0001;
                c = c | (if rr.poll_or_final {
                    0b0001_0000u8
                } else {
                    0u8
                });
                c = c | ((rr.receive_sequence & 0b0000_0111) << 5u8);
                encoded.push(c);
            },
            FrameContent::ReceiveNotReady(rnr) => {
                let mut c: u8 = 0b0000_0101;
                c = c | (if rnr.poll_or_final {
                    0b0001_0000u8
                } else {
                    0u8
                });
                c = c | ((rnr.receive_sequence & 0b0000_0111) << 5u8);
                encoded.push(c);
            },
            FrameContent::Reject(rej) => {
                let mut c: u8 = 0b0000_1001;
                c = c | (if rej.poll_or_final {
                    0b0001_0000u8
                } else {
                    0u8
                });
                c = c | ((rej.receive_sequence & 0b0000_0111) << 5u8);
                encoded.push(c);
            },
            FrameContent::SetAsynchronousBalancedMode(sabm) => {
                let c: u8 = 0b0010_1111 | (if sabm.poll {
                    0b0001_0000u8
                } else {
                    0u8
                });
                encoded.push(c);
            },
            FrameContent::Disconnect(disc) => {
                let c: u8 = 0b0100_0011 | (if disc.poll {
                    0b0001_0000u8
                } else {
                    0u8
                });
                encoded.push(c);
            },
            FrameContent::DisconnectedMode(dm) => {
                let c: u8 = 0b0000_1111 | (if dm.final_bit {
                    0b0001_0000u8
                } else {
                    0u8
                });
                encoded.push(c);
            },
            FrameContent::UnnumberedAcknowledge(ua) => {
                let c: u8 = 0b0110_0011 | (if ua.final_bit {
                    0b0001_0000u8
                } else {
                    0u8
                });
                encoded.push(c);
            },
            FrameContent::FrameReject(fr) => {
                let c: u8 = 0b1000_0111 | (if fr.final_bit {
                    0b0001_0000u8
                } else {
                    0u8
                });
                encoded.push(c);
                let frmr1: u8 = ((if fr.z {
                    0b0000_1000u8
                } else {
                    0u8
                }) | (if fr.y {
                    0b0000_0100u8
                } else {
                    0u8
                })) | ((if fr.x {
                    0b0000_0010u8
                } else {
                    0u8
                }) | (if fr.w {
                    0b0000_0001u8
                } else {
                    0u8
                }));
                encoded.push(frmr1);
                let mut frmr2: u8 = (fr.receive_sequence & 0b0000_0111) << 5u8;
                frmr2 = frmr2 | (if fr.command_response == CommandResponse::Response {
                    0b0001_0000u8
                } else {
                    0u8
                });
                frmr2 = frmr2 | ((fr.send_sequence & 0b0000_0111) << 1u8);
                encoded.push(frmr2);
                encoded.push(fr.rejected_control_field_raw);
            },
            FrameContent::UnnumberedInformation(ui) => {
                let c: u8 = 0b0000_0011 | (if ui.poll_or_final {
                    0b0001_0000u8
                } else {
                    0u8
                });
                encoded.push(c);
                encoded.push(ui.pid.to_byte());
                push_all(&mut encoded, ui.info.as_slice());
            },
            FrameContent::UnknownContent(uc) => {
                push_all(&mut encoded, uc.raw.as_slice());
            },
        }
        proof {
            match self {
                FrameContent::Information(_) => {
                    assert(encoded@ =~= spec_content_encode(*self));
                },
                FrameContent::ReceiveReady(_) => {
                    assert(encoded@ =~= spec_content_encode(*self));
                },
                FrameContent::ReceiveNotReady(_) => {
                    assert(encoded@ =~= spec_content_encode(*self));
                },
                FrameContent::Reject(_) => {
                    assert(encoded@ =~= spec_content_encode(*self));
                },
                FrameContent::SetAsynchronousBalancedMode(_) => {
                    assert(encoded@ =~= spec_content_encode(*self));
                },
                FrameContent::Disconnect(_) => {
                    assert(encoded@ =~= spec_content_encode(*self));
                },
                FrameContent::DisconnectedMode(_) => {
                    assert(encoded@ =~= spec_content_encode(*self));
                },
                FrameContent::UnnumberedAcknowledge(_) => {
                    assert(encoded@ =~= spec_content_encode(*self));
                },
                FrameContent::FrameReject(_) => {
                    assert(encoded@ =~= spec_content_encode(*self));
                },
                FrameContent::UnnumberedInformation(_) => {
                    assert(encoded@ =~= spec_content_encode(*self));
                },
                FrameContent::UnknownContent(_) => {
                    assert(encoded@ =~= spec_content_encode(*self));
                },
            }
        }
        encoded
    }
}


/// What an information (I) frame's octets decode to.
pub open spec fn spec_i_frame_ok(b: Seq<u8>, c: FrameContent) -> bool {
    match c {
        FrameContent::Information(i) => {
            &&& b.len() >= 2
            &&& i.receive_sequence == (b[0] & 0b1110_0000) >> 5
            &&& i.send_sequence == (b[0] & 0b0000_1110) >> 1
            &&& i.poll == ((b[0] & 0b0001_0000) > 0)
            &&& i.pid == spec_pid_decode(b[1])
            &&& i.info@ == b.skip(2)
        },
        _ => false,
    }
}

/// What a supervisory (S) frame's octet decodes to, by its low nibble.
pub open spec fn spec_s_frame_ok(b: Seq<u8>, c: FrameContent) -> bool {
    let n_r = (b[0] & 0b1110_0000) >> 5;
    let pf = (b[0] & 0b0001_0000) > 0;
    match c {
        FrameContent::ReceiveReady(rr) => b[0] & 0b0000_1111 == 0b0000_0001
            && rr.receive_sequence == n_r && rr.poll_or_final == pf,
        FrameContent::ReceiveNotReady(rnr) => b[0] & 0b0000_1111 == 0b0000_0101
            && rnr.receive_sequence == n_r && rnr.poll_or_final == pf,
        FrameContent::Reject(rej) => b[0] & 0b0000_1111 == 0b0000_1001 && rej.receive_sequence
            == n_r && rej.poll_or_final == pf,
        _ => false,
    }
}

/// What a frame reject (FRMR) frame's four octets decode to.
pub open spec fn spec_frmr_ok(b: Seq<u8>, c: FrameContent) -> bool {
    match c {
        FrameContent::FrameReject(fr) => {
            &&& b.len() == 4
            &&& fr.final_bit == (b[0] & 0b0001_0000 > 0)
            &&& fr.rejected_control_field_raw == b[3]
            &&& fr.z == (b[1] & 0b0000_1000 > 0)
            &&& fr.y == (b[1] & 0b0000_0100 > 0)
            &&& fr.x == (b[1] & 0b0000_0010 > 0)
            &&& fr.w == (b[1] & 0b0000_0001 > 0)
            &&& fr.receive_sequence == (b[2] & 0b1110_0000) >> 5
            &&& fr.command_response == (if b[2] & 0b0001_0000 > 0 {
                CommandResponse::Response
            } else {
                CommandResponse::Command
            })
            &&& fr.send_sequence == (b[2] & 0b0000_1110) >> 1
        },
        _ => false,
    }
}

/// What an unnumbered information (UI) frame's octets decode to.
pub open spec fn spec_ui_frame_ok(b: Seq<u8>, c: FrameContent) -> bool {
    match c {
        FrameContent::UnnumberedInformation(ui) => {
            &&& b.len() >= 2
            &&& ui.poll_or_final == (b[0] & 0b0001_0000 > 0)
            &&& ui.pid == spec_pid_decode(b[1])
            &&& ui.info@ == b.skip(2)
        },
        _ => false,
    }
}

/// What an unnumbered (U) frame's octets decode to, by the control octet
/// with its poll/final bit masked off.
pub open spec fn spec_u_frame_ok(b: Seq<u8>, c: FrameContent) -> bool {
    let pf = b[0] & 0b0001_0000 > 0;
    match b[0] & 0b1110_1111 {
        0b0010_1111 => c matches FrameContent::SetAsynchronousBalancedMode(sabm) && sabm.poll
            == pf,
        0b0100_0011 => c matches FrameContent::Disconnect(disc) && disc.poll == pf,
        0b0000_1111 => c matches FrameContent::DisconnectedMode(dm) && dm.final_bit == pf,
        0b0110_0011 => c matches FrameContent::UnnumberedAcknowledge(ua) && ua.final_bit == pf,
        0b1000_0111 => spec_frmr_ok(b, c),
        0b0000_0011 => spec_ui_frame_ok(b, c),
        _ => false,
    }
}

/// What the content region decodes to when parsing succeeds: the family is
/// picked by the low bits of the control octet.
pub open spec fn spec_content_ok(b: Seq<u8>, c: FrameContent) -> bool {
    &&& b.len() >= 1
    &&& if b[0] & 0x01 == 0x00 {
        spec_i_frame_ok(b, c)
    } else if b[0] & 0x03 == 0x01 {
        spec_s_frame_ok(b, c)
    } else {
        spec_u_frame_ok(b, c)
    }
}

/// Exactly when each parse error comes out of the content region.
pub open spec fn spec_content_err(b: Seq<u8>, e: FrameParseError) -> bool {
    match e {
        FrameParseError::ContentZeroLength => b.len() == 0,
        FrameParseError::MissingPidField => b.len() == 1 && (b[0] & 0x01 == 0x00 || (b[0] & 0x03
            == 0x03 && b[0] & 0b1110_1111 == 0b0000_0011)),
        FrameParseError::UnrecognisedSFieldType => b.len() >= 1 && b[0] & 0x03 == 0x01 && b[0]
            & 0b0000_1111 != 0b0000_0001 && b[0] & 0b0000_1111 != 0b0000_0101 && b[0]
            & 0b0000_1111 != 0b0000_1001,
        FrameParseError::UnrecognisedUFieldType => b.len() >= 1 && b[0] & 0x03 == 0x03 && {
            let m = b[0] & 0b1110_1111;
            m != 0b0010_1111 && m != 0b0100_0011 && m != 0b0000_1111 && m != 0b0110_0011 && m
                != 0b1000_0111 && m != 0b0000_0011
        },
        FrameParseError::WrongSizeFrmrInfo => b.len() >= 1 && b[0] & 0x03 == 0x03 && b[0]
            & 0b1110_1111 == 0b1000_0111 && b.len() != 4,
        _ => false,
    }
}

fn parse_i_frame(bytes: &[u8]) -> (r: Result<FrameContent, FrameParseError>)
    requires
        bytes@.len() >= 1,
        bytes@[0] & 0x01 == 0x00,
    ensures
        match r {
            Ok(c) => spec_i_frame_ok(bytes@, c),
            Err(e) => e matches FrameParseError::MissingPidField && bytes@.len() == 1,
        },
{
    if bytes.len() < 2 {
        return Err(FrameParseError::MissingPidField);
    }
    let c = bytes[0];  // control octet
    Ok(
        FrameContent::Information(
            Information {
                receive_sequence: (c & 0b1110_0000) >> 5u8,
                send_sequence: (c & 0b0000_1110) >> 1u8,
                poll: (c & 0b0001_0000) > 0,
                pid: ProtocolIdentifier::from_byte(bytes[1]),
                info: tail_vec(bytes, 2),  // could be empty vec
            },
        ),
    )
}

fn parse_s_frame(bytes: &[u8]) -> (r: Result<FrameContent, FrameParseError>)
    requires
        bytes@.len() >= 1,
        bytes@[0] & 0x03 == 0x01,
    ensures
        match r {
            Ok(c) => spec_s_frame_ok(bytes@, c),
            Err(e) => spec_content_err(bytes@, e) && e matches
                FrameParseError::UnrecognisedSFieldType,
        },
{
    // These all have the same general layout.
    // There should be no PID or info following this control byte.
    let c = bytes[0];
    let n_r = (c & 0b1110_0000) >> 5u8;
    let poll_or_final = (c & 0b0001_0000) > 0;
    match c & 0b0000_1111 {
        0b0000_0001 => Ok(
            FrameContent::ReceiveReady(ReceiveReady { receive_sequence: n_r, poll_or_final }),
        ),
        0b0000_0101 => Ok(
            FrameContent::ReceiveNotReady(
                ReceiveNotReady { receive_sequence: n_r, poll_or_final },
            ),
        ),
        0b0000_1001 => Ok(FrameContent::Reject(Reject { receive_sequence: n_r, poll_or_final })),
        _ => Err(FrameParseError::UnrecognisedSFieldType),
    }
}

fn parse_frmr_frame(bytes: &[u8]) -> (r: Result<FrameContent, FrameParseError>)
    requires
        bytes@.len() >= 1,
        bytes@[0] & 0x03 == 0x03,
        bytes@[0] & 0b1110_1111 == 0b1000_0111,
    ensures
        match r {
            Ok(c) => spec_frmr_ok(bytes@, c),
            Err(e) => spec_content_err(bytes@, e) && e matches FrameParseError::WrongSizeFrmrInfo,
        },
{
    // Expect 24 bits following the control
    if bytes.len() != 4 {
        return Err(FrameParseError::WrongSizeFrmrInfo);
    }
    Ok(
        FrameContent::FrameReject(
            FrameReject {
                final_bit: bytes[0] & 0b0001_0000 > 0,
                rejected_control_field_raw: bytes[3],
                z: bytes[1] & 0b0000_1000 > 0,
                y: bytes[1] & 0b0000_0100 > 0,
                x: bytes[1] & 0b0000_0010 > 0,
                w: bytes[1] & 0b0000_0001 > 0,
                receive_sequence: (bytes[2] & 0b1110_0000) >> 5u8,
                command_response: if bytes[2] & 0b0001_0000 > 0 {
                    CommandResponse::Response
                } else {
                    CommandResponse::Command
                },
                send_sequence: (bytes[2] & 0b0000_1110) >> 1u8,
            },
        ),
    )
}

fn parse_ui_frame(bytes: &[u8]) -> (r: Result<FrameContent, FrameParseError>)
    requires
        bytes@.len() >= 1,
        bytes@[0] & 0x03 == 0x03,
        bytes@[0] & 0b1110_1111 == 0b0000_0011,
    ensures
        match r {
            Ok(c) => spec_ui_frame_ok(bytes@, c),
            Err(e) => e matches FrameParseError::MissingPidField && bytes@.len() == 1,
        },
{
    if bytes.len() < 2 {
        return Err(FrameParseError::MissingPidField);
    }
    // Control, then PID, then Info
    Ok(
        FrameContent::UnnumberedInformation(
            UnnumberedInformation {
                poll_or_final: bytes[0] & 0b0001_0000 > 0,
                pid: ProtocolIdentifier::from_byte(bytes[1]),
                info: tail_vec(bytes, 2),
            },
        ),
    )
}

fn parse_u_frame(bytes: &[u8]) -> (r: Result<FrameContent, FrameParseError>)
    requires
        bytes@.len() >= 1,
        bytes@[0] & 0x03 == 0x03,
    ensures
        match r {
            Ok(c) => spec_u_frame_ok(bytes@, c),
            Err(e) => spec_content_err(bytes@, e),
        },
{
    // The only moving part in control for U frames is the P/F bit.
    // Two special cases to handle:
    // FRMR is followed by a 3-byte information field that must be parsed specially
    // UI is followed by PID and a variable length information field
    let c = bytes[0];
    let poll_or_final = c & 0b0001_0000 > 0;
    // Ignore the P/F bit for identifying the command or response
    match c & 0b1110_1111 {
        0b0010_1111 => Ok(
            FrameContent::SetAsynchronousBalancedMode(
                SetAsynchronousBalancedMode { poll: poll_or_final },
            ),
        ),
        0b0100_0011 => Ok(FrameContent::Disconnect(Disconnect { poll: poll_or_final })),
        0b0000_1111 => Ok(
            FrameContent::DisconnectedMode(DisconnectedMode { final_bit: poll_or_final }),
        ),
        0b0110_0011 => Ok(
            FrameContent::UnnumberedAcknowledge(UnnumberedAcknowledge { final_bit: poll_or_final }),
        ),
        0b1000_0111 => parse_frmr_frame(bytes),
        0b0000_0011 => parse_ui_frame(bytes),
        _ => Err(FrameParseError::UnrecognisedUFieldType),
    }
}

/// Parse the content of the frame starting from the control field.
pub fn parse_content(bytes: &[u8]) -> (r: Result<FrameContent, FrameParseError>)
    ensures
        match r {
            Ok(c) => spec_content_ok(bytes@, c),
            Err(e) => spec_content_err(bytes@, e),
        },
{
    if bytes.len() == 0 {
        return Err(FrameParseError::ContentZeroLength);
    }
    let c = bytes[0];
    if c & 0x01 == 0x00 {
        parse_i_frame(bytes)
    } else if c & 0x03 == 0x01 {
        parse_s_frame(bytes)
    } else {
        proof {
            assert(c & 0x01 != 0x00 && c & 0x03 != 0x01 ==> c & 0x03 == 0x03) by (bit_vector);
        }
        parse_u_frame(bytes)
    }
}


/// Whether the content region's bytes are in the canonical form that a
/// decode-then-encode pass reproduces exactly: the PID octet of an I or UI
/// frame encodes canonically, and the spare bits of an FRMR information
/// field are clear.
pub open spec fn spec_content_canonical(b: Seq<u8>) -> bool {
    &&& (b.len() >= 2 && (b[0] & 0x01 == 0x00 || (b[0] & 0x03 == 0x03 && b[0] & 0b1110_1111
        == 0b0000_0011))) ==> spec_pid_encode(spec_pid_decode(b[1])) == b[1]
    &&& (b.len() == 4 && b[0] & 0x03 == 0x03 && b[0] & 0b1110_1111 == 0b1000_0111) ==> (b[1]
        & 0b1111_0000 == 0 && b[2] & 0b0000_0001 == 0)
}

/// Re-encoding a decoded content region gives the region back, provided the
/// region is canonical and holds no bytes beyond what its family re-encodes.
pub proof fn lemma_content_round_trip(b: Seq<u8>, c: FrameContent)
    requires
        spec_content_ok(b, c),
        spec_content_canonical(b),
        spec_content_encode(c).len() == b.len(),
    ensures
        spec_content_encode(c) == b,
{
    let b0 = b[0];
    lemma_byte_bits(b0);
    match c {
        FrameContent::Information(i) => {
            let pf: u8 = spec_pf_bit(i.poll);
            assert(pf == b0 & 0b0001_0000) by (bit_vector)
                requires
                    pf == (if (b0 & 0b0001_0000) > 0 { 0b0001_0000u8 } else { 0u8 }),
            ;
            assert(((((b0 & 0b1110_0000) >> 5) & 0b0000_0111) << 5) | (b0 & 0b0001_0000) | ((((b0
                & 0b0000_1110) >> 1) & 0b0000_0111) << 1) == b0) by (bit_vector)
                requires
                    b0 & 0x01 == 0x00,
            ;
            assert(spec_content_encode(c) =~= b);
        },
        FrameContent::ReceiveReady(rr) => {
            let pf: u8 = spec_pf_bit(rr.poll_or_final);
            assert(pf == b0 & 0b0001_0000) by (bit_vector)
                requires
                    pf == (if (b0 & 0b0001_0000) > 0 { 0b0001_0000u8 } else { 0u8 }),
            ;
            assert((0b0000_0001 | (b0 & 0b0001_0000)) | ((((b0 & 0b1110_0000) >> 5) & 0b0000_0111)
                << 5) == b0) by (bit_vector)
                requires
                    b0 & 0x03 == 0x01,
                    b0 & 0b0000_1111 == 0b0000_0001,
            ;
            assert(spec_content_encode(c) =~= b);
        },
        FrameContent::ReceiveNotReady(rnr) => {
            let pf: u8 = spec_pf_bit(rnr.poll_or_final);
            assert(pf == b0 & 0b0001_0000) by (bit_vector)
                requires
                    pf == (if (b0 & 0b0001_0000) > 0 { 0b0001_0000u8 } else { 0u8 }),
            ;
            assert((0b0000_0101 | (b0 & 0b0001_0000)) | ((((b0 & 0b1110_0000) >> 5) & 0b0000_0111)
                << 5) == b0) by (bit_vector)
                requires
                    b0 & 0x03 == 0x01,
                    b0 & 0b0000_1111 == 0b0000_0101,
            ;
            assert(spec_content_encode(c) =~= b);
        },
        FrameContent::Reject(rej) => {
            let pf: u8 = spec_pf_bit(rej.poll_or_final);
            assert(pf == b0 & 0b0001_0000) by (bit_vector)
                requires
                    pf == (if (b0 & 0b0001_0000) > 0 { 0b0001_0000u8 } else { 0u8 }),
            ;
            assert((0b0000_1001 | (b0 & 0b0001_0000)) | ((((b0 & 0b1110_0000) >> 5) & 0b0000_0111)
                << 5) == b0) by (bit_vector)
                requires
                    b0 & 0x03 == 0x01,
                    b0 & 0b0000_1111 == 0b0000_1001,
            ;
            assert(spec_content_encode(c) =~= b);
        },
        FrameContent::SetAsynchronousBalancedMode(sabm) => {
            let pf: u8 = spec_pf_bit(sabm.poll);
            assert(0b0010_1111 | pf == b0) by (bit_vector)
                requires
                    pf == (if (b0 & 0b0001_0000) > 0 { 0b0001_0000u8 } else { 0u8 }),
                    b0 & 0b1110_1111 == 0b0010_1111,
            ;
            assert(spec_content_encode(c) =~= b);
        },
        FrameContent::Disconnect(disc) => {
            let pf: u8 = spec_pf_bit(disc.poll);
            assert(0b0100_0011 | pf == b0) by (bit_vector)
                requires
                    pf == (if (b0 & 0b0001_0000) > 0 { 0b0001_0000u8 } else { 0u8 }),
                    b0 & 0b1110_1111 == 0b0100_0011,
            ;
            assert(spec_content_encode(c) =~= b);
        },
        FrameContent::DisconnectedMode(dm) => {
            let pf: u8 = spec_pf_bit(dm.final_bit);
            assert(0b0000_1111 | pf == b0) by (bit_vector)
                requires
                    pf == (if (b0 & 0b0001_0000) > 0 { 0b0001_0000u8 } else { 0u8 }),
                    b0 & 0b1110_1111 == 0b0000_1111,
            ;
            assert(spec_content_encode(c) =~= b);
        },
        FrameContent::UnnumberedAcknowledge(ua) => {
            let pf: u8 = spec_pf_bit(ua.final_bit);
            assert(0b0110_0011 | pf == b0) by (bit_vector)
                requires
                    pf == (if (b0 & 0b0001_0000) > 0 { 0b0001_0000u8 } else { 0u8 }),
                    b0 & 0b1110_1111 == 0b0110_0011,
            ;
            assert(spec_content_encode(c) =~= b);
        },
        FrameContent::FrameReject(fr) => {
            let pf: u8 = spec_pf_bit(fr.final_bit);
            assert(0b1000_0111 | pf == b0) by (bit_vector)
                requires
                    pf == (if (b0 & 0b0001_0000) > 0 { 0b0001_0000u8 } else { 0u8 }),
                    b0 & 0b1110_1111 == 0b1000_0111,
            ;
            let b1 = b[1];
            let fz: u8 = if fr.z { 0b0000_1000u8 } else { 0u8 };
            let fy: u8 = if fr.y { 0b0000_0100u8 } else { 0u8 };
            let fx: u8 = if fr.x { 0b0000_0010u8 } else { 0u8 };
            let fw: u8 = if fr.w { 0b0000_0001u8 } else { 0u8 };
            assert((fz | fy) | (fx | fw) == b1) by (bit_vector)
                requires
                    fz == (if (b1 & 0b0000_1000) > 0 { 0b0000_1000u8 } else { 0u8 }),
                    fy == (if (b1 & 0b0000_0100) > 0 { 0b0000_0100u8 } else { 0u8 }),
                    fx == (if (b1 & 0b0000_0010) > 0 { 0b0000_0010u8 } else { 0u8 }),
                    fw == (if (b1 & 0b0000_0001) > 0 { 0b0000_0001u8 } else { 0u8 }),
                    b1 & 0b1111_0000 == 0,
            ;
            let b2 = b[2];
            let fc: u8 = if fr.command_response == CommandResponse::Response {
                0b0001_0000u8
            } else {
                0u8
            };
            assert((((((b2 & 0b1110_0000) >> 5) & 0b0000_0111) << 5) | fc) | ((((b2 & 0b0000_1110)
                >> 1) & 0b0000_0111) << 1) == b2) by (bit_vector)
                requires
                    fc == (if (b2 & 0b0001_0000) > 0 { 0b0001_0000u8 } else { 0u8 }),
                    b2 & 0b0000_0001 == 0,
            ;
            assert(spec_content_encode(c) =~= b);
        },
        FrameContent::UnnumberedInformation(ui) => {
            let pf: u8 = spec_pf_bit(ui.poll_or_final);
            assert(0b0000_0011 | pf == b0) by (bit_vector)
                requires
                    pf == (if (b0 & 0b0001_0000) > 0 { 0b0001_0000u8 } else { 0u8 }),
                    b0 & 0b1110_1111 == 0b0000_0011,
            ;
            assert(spec_content_encode(c) =~= b);
        },
        FrameContent::UnknownContent(_) => {
            assert(false);
        },
    }
}


/// A single hop in the frame's route
#[derive(Debug, Clone, PartialEq, Eq)]
pub struct RouteEntry {
    /// Callsign-SSID of a repeater to use for source routing.
    pub repeater: Address,
    /// A flag that is set to true when it passes through the nominated repeater.
    pub has_repeated: bool,
}

/// A strongly-typed representation of a single AX.25 frame.
#[derive(Debug, Clone, PartialEq, Eq)]
pub struct Ax25Frame {
    /// Sending station
    pub source: Address,
    /// Destination station
    pub destination: Address,
    /// The route the frame has taken/will take according to repeater entries in the address field
    pub route: Vec<RouteEntry>,
    /// AX.25 2.0-compliant stations will indicate in every frame whether it is a command
    /// or a response, as part of the address field.
    pub command_or_response: Option<CommandResponse>,
    /// Various content depending on the packet type
    pub content: FrameContent,
}

/// The first position at or after `i` holding a byte other than zero, or -1.
pub open spec fn spec_first_nonzero_from(b: Seq<u8>, i: int) -> int
    decreases b.len() - i,
{
    if i < 0 || i >= b.len() {
        -1
    } else if b[i] != 0 {
        i
    } else {
        spec_first_nonzero_from(b, i + 1)
    }
}

/// The first position at or after `i` holding a byte with its low bit set,
/// which ends the address field, or -1.
pub open spec fn spec_first_addr_end_from(b: Seq<u8>, i: int) -> int
    decreases b.len() - i,
{
    if i < 0 || i >= b.len() {
        -1
    } else if b[i] & 0x01 == 0x01 {
        i
    } else {
        spec_first_addr_end_from(b, i + 1)
    }
}

pub proof fn lemma_first_nonzero_at(b: Seq<u8>, k: int)
    requires
        0 <= k <= b.len(),
        forall|j: int| 0 <= j < k ==> b[j] == 0,
        k < b.len() ==> b[k] != 0,
    ensures
        spec_first_nonzero_from(b, 0) == (if k < b.len() {
            k
        } else {
            -1
        }),
{
    lemma_first_nonzero_from_at(b, 0, k);
}

proof fn lemma_first_nonzero_from_at(b: Seq<u8>, i: int, k: int)
    requires
        0 <= i <= k <= b.len(),
        forall|j: int| i <= j < k ==> b[j] == 0,
        k < b.len() ==> b[k] != 0,
    ensures
        spec_first_nonzero_from(b, i) == (if k < b.len() {
            k
        } else {
            -1
        }),
    decreases k - i,
{
    if i < k {
        lemma_first_nonzero_from_at(b, i + 1, k);
    }
}

pub proof fn lemma_first_addr_end_at(b: Seq<u8>, k: int)
    requires
        0 <= k <= b.len(),
        forall|j: int| 0 <= j < k ==> b[j] & 0x01 == 0x00,
        k < b.len() ==> b[k] & 0x01 == 0x01,
    ensures
        spec_first_addr_end_from(b, 0) == (if k < b.len() {
            k
        } else {
            -1
        }),
{
    lemma_first_addr_end_from_at(b, 0, k);
}

proof fn lemma_first_addr_end_from_at(b: Seq<u8>, i: int, k: int)
    requires
        0 <= i <= k <= b.len(),
        forall|j: int| i <= j < k ==> b[j] & 0x01 == 0x00,
        k < b.len() ==> b[k] & 0x01 == 0x01,
    ensures
        spec_first_addr_end_from(b, i) == (if k < b.len() {
            k
        } else {
            -1
        }),
    decreases k - i,
{
    if i < k {
        assert(b[i] & 0x01 == 0x00);
        assert(b[i] & 0x01 != 0x01);
        lemma_first_addr_end_from_at(b, i + 1, k);
    }
}

/// How many repeater entries the address field holds.
pub open spec fn spec_route_count(start: int, end: int) -> int {
    (end + 1 - start - 14) / 7
}

/// The 7-octet address chunk at a position.
pub open spec fn spec_addr_chunk(b: Seq<u8>, at: int) -> Seq<u8> {
    b.subrange(at, at + 7)
}

/// Whether an address value holds exactly what a 7-octet chunk decodes to.
pub open spec fn spec_address_decoded(b7: Seq<u8>, a: Address) -> bool {
    &&& a.callsign@ == spec_decoded_callsign(b7)
    &&& a.ssid == spec_decoded_ssid(b7)
    &&& a.c_bit == spec_decoded_c_bit(b7)
}

/// The command/response marker derived from the two c bits, per the v2.0
/// convention: only opposite bits mean anything.
pub open spec fn spec_cor_derived(dest_c: bool, src_c: bool) -> Option<CommandResponse> {
    if dest_c && !src_c {
        Option::Some(CommandResponse::Command)
    } else if !dest_c && src_c {
        Option::Some(CommandResponse::Response)
    } else {
        Option::None
    }
}

/// Whether a frame value holds exactly what a byte buffer decodes to, for an
/// address field spanning `start..=end`.
pub open spec fn spec_frame_decoded(b: Seq<u8>, start: int, end: int, f: Ax25Frame) -> bool {
    let cnt = spec_route_count(start, end);
    &&& spec_address_decoded(spec_addr_chunk(b, start), f.destination)
    &&& spec_address_decoded(spec_addr_chunk(b, start + 7), f.source)
    &&& f.route@.len() == cnt
    &&& forall|k: int|
        0 <= k < cnt ==> spec_address_decoded(
            spec_addr_chunk(b, start + 14 + 7 * k),
            (#[trigger] f.route@[k]).repeater,
        )
    &&& forall|k: int|
        0 <= k < cnt ==> (#[trigger] f.route@[k]).has_repeated == spec_decoded_c_bit(
            spec_addr_chunk(b, start + 14 + 7 * k),
        )
    &&& spec_content_ok(b.skip(end + 1), f.content)
    &&& f.command_or_response == spec_cor_derived(
        spec_decoded_c_bit(spec_addr_chunk(b, start)),
        spec_decoded_c_bit(spec_addr_chunk(b, start + 7)),
    )
}

/// What `Ax25Frame::from_bytes` returns for each input, success and every
/// error exactly.
pub open spec fn spec_frame_parse_ok(b: Seq<u8>, r: Result<Ax25Frame, FrameParseError>) -> bool {
    let start = spec_first_nonzero_from(b, 0);
    let end = spec_first_addr_end_from(b, 0);
    match r {
        Ok(f) => start >= 0 && end >= 0 && end - start + 1 >= 14 && end + 1 < b.len()
            && spec_frame_decoded(b, start, end, f),
        Err(FrameParseError::OnlyNullBytes) => start < 0,
        Err(FrameParseError::NoEndToAddressField) => start >= 0 && end < 0,
        Err(FrameParseError::AddressFieldTooShort { start: s, end: e }) => start >= 0 && end >= 0
            && end - start + 1 < 14 && s == start && e == end,
        Err(FrameParseError::FrameTooShort { len }) => start >= 0 && end >= 0 && end - start + 1
            >= 14 && end + 1 >= b.len() && len == b.len(),
        Err(e) => start >= 0 && end >= 0 && end - start + 1 >= 14 && end + 1 < b.len()
            && spec_content_err(b.skip(end + 1), e),
    }
}

/// The destination-address c bit a frame encodes from its command/response
/// marker; an unset marker is encoded as a command.
pub open spec fn spec_cor_dest_bit(cor: Option<CommandResponse>) -> bool {
    !(cor matches Option::Some(CommandResponse::Response))
}

/// The source-address c bit for a command/response marker.
pub open spec fn spec_cor_src_bit(cor: Option<CommandResponse>) -> bool {
    cor matches Option::Some(CommandResponse::Response)
}

/// The octets of the route entries from position `i` on, each a 7-octet
/// address with its "has repeated" bit, the last carrying the
/// end-of-address marker.
pub open spec fn spec_route_encode_from(route: Seq<RouteEntry>, i: int) -> Seq<u8>
    decreases route.len() - i,
{
    if i < 0 || i >= route.len() {
        Seq::empty()
    } else {
        spec_address_encode(route[i].repeater, route[i].has_repeated, i + 1 == route.len())
            + spec_route_encode_from(route, i + 1)
    }
}

/// The octets a frame encodes to: destination, source, route entries, then
/// the content region.
pub open spec fn spec_frame_encode(f: Ax25Frame) -> Seq<u8> {
    spec_address_encode(f.destination, spec_cor_dest_bit(f.command_or_response), false)
        + spec_address_encode(
        f.source,
        spec_cor_src_bit(f.command_or_response),
        f.route@.len() == 0,
    ) + spec_route_encode_from(f.route@, 0) + spec_content_encode(f.content)
}

impl Ax25Frame {
    /// A structurally valid frame: every address in it is well formed.
    pub open spec fn wf(self) -> bool {
        &&& self.source.wf()
        &&& self.destination.wf()
        &&& forall|k: int| 0 <= k < self.route@.len() ==> (#[trigger] self.route@[k]).repeater.wf()
    }

    /// Whether this frame satisfies the structural invariant `wf`.
    pub fn is_valid(&self) -> (r: bool)
        ensures
            r == self.wf(),
    {
        if !self.source.is_valid() || !self.destination.is_valid() {
            return false;
        }
        let count = self.route.len();
        let mut k: usize = 0;
        while k < count
            invariant
                0 <= k <= count,
                count == self.route@.len(),
                forall|j: int| 0 <= j < k ==> (#[trigger] self.route@[j]).repeater.wf(),
            decreases count - k,
        {
            if !self.route[k].repeater.is_valid() {
                return false;
            }
            k += 1;
        }
        true
    }

    /// Parse raw bytes into an Ax25Frame if possible. Leading null octets
    /// are skipped; the address field must end and span at least two
    /// addresses; then the content region is decoded.
    #[verifier::loop_isolation(false)]
    pub fn from_bytes(bytes: &[u8]) -> (r: Result<Ax25Frame, FrameParseError>)
        ensures
            spec_frame_parse_ok(bytes@, r),
    {
        let n = bytes.len();
        // Skip over leading null bytes. The Linux interface produces one of
        // these; it is stripped at the transport but also tolerated here.
        let mut addr_start: usize = 0;
        while addr_start < n && bytes[addr_start] == 0
            invariant
                0 <= addr_start <= n,
                forall|j: int| 0 <= j < addr_start ==> bytes@[j] == 0,
            decreases n - addr_start,
        {
            addr_start += 1;
        }
        proof {
            lemma_first_nonzero_at(bytes@, addr_start as int);
        }
        if addr_start == n {
            return Err(FrameParseError::OnlyNullBytes);
        }
        let mut addr_end: usize = 0;
        while addr_end < n && bytes[addr_end] & 0x01 == 0x00
            invariant
                0 <= addr_end <= n,
                forall|j: int| 0 <= j < addr_end ==> bytes@[j] & 0x01 == 0x00,
            decreases n - addr_end,
        {
            addr_end += 1;
        }
        proof {
            if addr_end < n {
                lemma_byte_bits(bytes@[addr_end as int]);
            }
            lemma_first_addr_end_at(bytes@, addr_end as int);
        }
        if addr_end == n {
            return Err(FrameParseError::NoEndToAddressField);
        }
        proof {
            assert forall|j: int| 0 <= j < addr_start implies bytes@[j] & 0x01 == 0x00 by {
                lemma_byte_bits(bytes@[j]);
            }
            assert(addr_end >= addr_start);
        }
        // +1 because the "terminator" is actually within the last byte
        if addr_end - addr_start + 1 < 14 {
            return Err(FrameParseError::AddressFieldTooShort { start: addr_start, end: addr_end });
        }
        let control = addr_end + 1;
        if control >= n {
            return Err(FrameParseError::FrameTooShort { len: n });
        }
        let dest = match parse_address(slice_subrange(bytes, addr_start, addr_start + 7)) {
            Ok(a) => a,
            Err(e) => {
                proof {
                    assert(false);
                }
                return Err(e);
            },
        };
        let src = match parse_address(slice_subrange(bytes, addr_start + 7, addr_start + 14)) {
            Ok(a) => a,
            Err(e) => {
                proof {
                    assert(false);
                }
                return Err(e);
            },
        };
        let rpt_count = (addr_end + 1 - addr_start - 14) / 7;
        proof {
            assert(7 * (((addr_end + 1 - addr_start - 14) as int) / 7) <= addr_end + 1 - addr_start
                - 14) by (nonlinear_arith)
                requires
                    addr_end + 1 - addr_start - 14 >= 0,
            ;
        }
        let mut route: Vec<RouteEntry> = Vec::new();
        let mut i: usize = 0;
        while i < rpt_count
            invariant
                0 <= i <= rpt_count,
                route@.len() == i,
                forall|k: int|
                    0 <= k < i ==> spec_address_decoded(
                        spec_addr_chunk(bytes@, addr_start + 14 + 7 * k),
                        (#[trigger] route@[k]).repeater,
                    ),
                forall|k: int|
                    0 <= k < i ==> (#[trigger] route@[k]).has_repeated == spec_decoded_c_bit(
                        spec_addr_chunk(bytes@, addr_start + 14 + 7 * k),
                    ),
            decreases rpt_count - i,
        {
            proof {
                assert(7 * (i + 1) <= 7 * rpt_count) by (nonlinear_arith)
                    requires
                        i + 1 <= rpt_count,
                ;
            }
            let repeater = match parse_address(
                slice_subrange(bytes, addr_start + 14 + i * 7, addr_start + 14 + (i + 1) * 7),
            ) {
                Ok(a) => a,
                Err(e) => {
                    proof {
                        assert(false);
                    }
                    return Err(e);
                },
            };
            // The "C" bit in an address happens to be the repeated bit for a repeater
            let has_repeated = repeater.c_bit;
            route.push(RouteEntry { has_repeated, repeater });
            i += 1;
        }
        let content = match parse_content(slice_subrange(bytes, control, n)) {
            Ok(c) => c,
            Err(e) => {
                proof {
                    assert(bytes@.subrange(control as int, n as int) =~= bytes@.skip(
                        addr_end + 1,
                    ));
                }
                return Err(e);
            },
        };
        let command_or_response = match (dest.c_bit, src.c_bit) {
            (true, false) => Some(CommandResponse::Command),
            (false, true) => Some(CommandResponse::Response),
            _ => None,
        };
        proof {
            assert(bytes@.subrange(control as int, n as int) =~= bytes@.skip(addr_end + 1));
        }
        Ok(Ax25Frame { source: src, destination: dest, route, content, command_or_response })
    }

    /// Encode an Ax25Frame struct as raw bytes for transmission.
    #[verifier::loop_isolation(false)]
    pub fn to_bytes(&self) -> (frame: Vec<u8>)
        requires
            self.wf(),
        ensures
            frame@ == spec_frame_encode(*self),
    {
        let mut frame: Vec<u8> = Vec::new();
        let dest_c_bit = match self.command_or_response {
            Some(CommandResponse::Response) => false,
            _ => true,  // assume Command when unset
        };
        let src_c_bit = !dest_c_bit;
        let dest_bytes = self.destination.to_bytes(dest_c_bit, false);
        push_all(&mut frame, dest_bytes.as_slice());
        let src_bytes = self.source.to_bytes(src_c_bit, self.route.len() == 0);
        push_all(&mut frame, src_bytes.as_slice());
        let count = self.route.len();
        let mut i: usize = 0;
        let ghost head = spec_address_encode(
            self.destination,
            spec_cor_dest_bit(self.command_or_response),
            false,
        ) + spec_address_encode(
            self.source,
            spec_cor_src_bit(self.command_or_response),
            self.route@.len() == 0,
        );
        proof {
            assert(frame@ =~= head);
        }
        while i < count
            invariant
                0 <= i <= count,
                count == self.route@.len(),
                frame@ + spec_route_encode_from(self.route@, i as int) =~= head
                    + spec_route_encode_from(self.route@, 0),
            decreases count - i,
        {
            let entry = &self.route[i];
            let entry_bytes = entry.repeater.to_bytes(entry.has_repeated, i + 1 == count);
            proof {
                assert((frame@ + entry_bytes@) + spec_route_encode_from(self.route@, i + 1) =~=
                frame@ + spec_route_encode_from(self.route@, i as int));
            }
            push_all(&mut frame, entry_bytes.as_slice());
            i += 1;
        }
        let content_bytes = self.content.encode();
        push_all(&mut frame, content_bytes.as_slice());
        proof {
            assert(frame@ =~= spec_frame_encode(*self));
        }
        frame
    }

    /// Returns a UTF-8 string that is a "best effort" at displaying the
    /// information content of this frame. Returns None if there is no
    /// information field present. Most applications will need to work with
    /// the Vec<u8> info directly.
    pub fn info_string_lossy(&self) -> (r: Option<String>)
        ensures
            match self.content {
                FrameContent::Information(i) => r matches Some(s) && s@ == ext::spec_utf8_lossy(
                    i.info@,
                ),
                FrameContent::UnnumberedInformation(ui) => r matches Some(s) && s@
                    == ext::spec_utf8_lossy(ui.info@),
                _ => r is None,
            },
    {
        match &self.content {
            FrameContent::Information(i) => Some(ext::utf8_lossy_to_string(i.info.as_slice())),
            FrameContent::UnnumberedInformation(ui) => Some(
                ext::utf8_lossy_to_string(ui.info.as_slice()),
            ),
            _ => None,
        }
    }
}

impl Default for Address {
    /// The placeholder address `NOCALL` with SSID zero.
    fn default() -> (a: Address)
        ensures
            a.callsign@ == "NOCALL"@,
            a.ssid == 0,
            !a.c_bit,
    {
        Address { callsign: "NOCALL".to_owned(), ssid: 0, c_bit: false }
    }
}

impl std::str::FromStr for Address {
    type Err = AddressParseError;

    fn from_str(s: &str) -> Result<Address, AddressParseError> {
        Address::parse_str(s)
    }
}


/// Small facts about one octet's bits, used throughout the codec proofs.
pub proof fn lemma_byte_bits(x: u8)
    ensures
        x & 0x01 == 0x00 || x & 0x01 == 0x01,
        x == 0 ==> x & 0x01 == 0x00,
        (x >> 1) < 0x80,
        x & 0x01 == 0x00 ==> ((x >> 1) << 1) == x,
        (x >> 1 == 0x20 && x & 0x01 == 0x00) ==> x == 0x40,
        x & 0x01 != 0x00 && x & 0x03 != 0x01 ==> x & 0x03 == 0x03,
{
    assert((x & 0x01 == 0x00 || x & 0x01 == 0x01) && (x == 0 ==> x & 0x01 == 0x00) && ((x >> 1)
        < 0x80) && (x & 0x01 == 0x00 ==> ((x >> 1) << 1) == x) && ((x >> 1 == 0x20 && x & 0x01
        == 0x00) ==> x == 0x40) && (x & 0x01 != 0x00 && x & 0x03 != 0x01 ==> x & 0x03 == 0x03))
        by (bit_vector);
}

/// Everything past the trimmed length of a decoded callsign is a space.
pub proof fn lemma_trimmed_suffix(s: Seq<u8>)
    ensures
        0 <= spec_trimmed_len(s) <= s.len(),
        forall|j: int| spec_trimmed_len(s) <= j < s.len() ==> s[j] == 0x20,
    decreases s.len(),
{
    if s.len() > 0 && s.last() == 0x20 {
        lemma_trimmed_suffix(s.drop_last());
        assert(forall|j: int| 0 <= j < s.len() - 1 ==> s.drop_last()[j] == s[j]);
    }
}

/// What the first-low-bit search yields: either no octet has its low bit
/// set, or the found position is the first that does.
pub proof fn lemma_first_addr_end_props(b: Seq<u8>)
    ensures
        spec_first_addr_end_from(b, 0) < 0 ==> forall|j: int|
            0 <= j < b.len() ==> b[j] & 0x01 == 0x00,
        spec_first_addr_end_from(b, 0) >= 0 ==> {
            let r = spec_first_addr_end_from(b, 0);
            &&& 0 <= r < b.len()
            &&& b[r] & 0x01 == 0x01
            &&& forall|j: int| 0 <= j < r ==> b[j] & 0x01 == 0x00
        },
{
    lemma_first_addr_end_props_from(b, 0);
}

proof fn lemma_first_addr_end_props_from(b: Seq<u8>, i: int)
    requires
        0 <= i <= b.len(),
    ensures
        spec_first_addr_end_from(b, i) < 0 ==> forall|j: int|
            i <= j < b.len() ==> b[j] & 0x01 == 0x00,
        spec_first_addr_end_from(b, i) >= 0 ==> {
            let r = spec_first_addr_end_from(b, i);
            &&& i <= r < b.len()
            &&& b[r] & 0x01 == 0x01
            &&& forall|j: int| i <= j < r ==> b[j] & 0x01 == 0x00
        },
    decreases b.len() - i,
{
    if i < b.len() && b[i] & 0x01 != 0x01 {
        lemma_first_addr_end_props_from(b, i + 1);
        lemma_byte_bits(b[i]);
    }
}

/// Re-encoding a decoded 7-octet address chunk gives the chunk back,
/// provided the chunk is canonical: shifted callsign octets, reserved SSID
/// bits set, and the end-of-address bit matching the chunk's position.
pub proof fn lemma_address_decode_encode(b7: Seq<u8>, a: Address, last: bool)
    requires
        b7.len() == 7,
        spec_address_decoded(b7, a),
        forall|i: int| 0 <= i < 6 ==> b7[i] & 0x01 == 0x00,
        b7[6] & 0b0110_0000 == 0b0110_0000,
        b7[6] & 0x01 == (if last {
            0x01u8
        } else {
            0u8
        }),
    ensures
        spec_address_encode(a, spec_decoded_c_bit(b7), last) == b7,
{
    let sh = spec_shifted_prefix(b7);
    lemma_trimmed_suffix(sh);
    let trim = spec_trimmed_len(sh);
    let cs = a.callsign@;
    assert(cs.len() == trim);
    let high = spec_decoded_c_bit(b7);
    let enc = spec_address_encode(a, high, last);
    assert forall|i: int| 0 <= i < 6 implies enc[i] == b7[i] by {
        let x = b7[i];
        lemma_byte_bits(x);
        if i < trim {
            assert(cs[i] == (sh[i] as char));
            assert(((x >> 1) as char) as u32 == (x >> 1) as u32);
            assert((cs[i] as u32) as u8 == x >> 1);
        } else {
            assert(sh[i] == 0x20);
        }
    }
    let sb = b7[6];
    let ssid = a.ssid;
    assert(ssid == (sb >> 1) & 0x0f);
    if high {
        assert(sb & 0b1000_0000 != 0);
        if last {
            assert(((((sb >> 1) & 0x0f) << 1) | 0b0110_0000) | 0b1000_0000 | 0b0000_0001 == sb)
                by (bit_vector)
                requires
                    sb & 0b0110_0000 == 0b0110_0000,
                    sb & 0b1000_0000 != 0,
                    sb & 0x01 == 0x01,
            ;
        } else {
            assert(((((sb >> 1) & 0x0f) << 1) | 0b0110_0000) | 0b1000_0000 | 0u8 == sb)
                by (bit_vector)
                requires
                    sb & 0b0110_0000 == 0b0110_0000,
                    sb & 0b1000_0000 != 0,
                    sb & 0x01 == 0u8,
            ;
        }
    } else {
        assert(sb & 0b1000_0000 == 0);
        if last {
            assert(((((sb >> 1) & 0x0f) << 1) | 0b0110_0000) | 0u8 | 0b0000_0001 == sb)
                by (bit_vector)
                requires
                    sb & 0b0110_0000 == 0b0110_0000,
                    sb & 0b1000_0000 == 0,
                    sb & 0x01 == 0x01,
            ;
        } else {
            assert(((((sb >> 1) & 0x0f) << 1) | 0b0110_0000) | 0u8 | 0u8 == sb) by (bit_vector)
                requires
                    sb & 0b0110_0000 == 0b0110_0000,
                    sb & 0b1000_0000 == 0,
                    sb & 0x01 == 0u8,
            ;
        }
    }
    assert(enc =~= b7);
}

proof fn lemma_route_decode_encode(b: Seq<u8>, start: int, end: int, route: Seq<RouteEntry>, i: int)
    requires
        0 <= start,
        start + 13 <= end < b.len(),
        route.len() == spec_route_count(start, end),
        7 * spec_route_count(start, end) == end + 1 - start - 14,
        forall|k: int|
            0 <= k < route.len() ==> spec_address_decoded(
                spec_addr_chunk(b, start + 14 + 7 * k),
                (#[trigger] route[k]).repeater,
            ),
        forall|k: int|
            0 <= k < route.len() ==> (#[trigger] route[k]).has_repeated == spec_decoded_c_bit(
                spec_addr_chunk(b, start + 14 + 7 * k),
            ),
        forall|j: int| 0 <= j < end ==> b[j] & 0x01 == 0x00,
        b[end] & 0x01 == 0x01,
        forall|k: int|
            0 <= k < route.len() ==> (#[trigger] spec_addr_chunk(b, start + 14 + 7 * k))[6]
                & 0b0110_0000 == 0b0110_0000,
        0 <= i <= route.len(),
    ensures
        spec_route_encode_from(route, i) == b.subrange(start + 14 + 7 * i, end + 1),
    decreases route.len() - i,
{
    let cnt = route.len() as int;
    if i == cnt {
        assert(spec_route_encode_from(route, i) =~= b.subrange(start + 14 + 7 * i, end + 1));
    } else {
        let at = start + 14 + 7 * i;
        let chunk = spec_addr_chunk(b, at);
        let last = i + 1 == cnt;
        assert forall|j: int| 0 <= j < 6 implies (#[trigger] chunk[j]) & 0x01 == 0x00 by {
            assert(chunk[j] == b[at + j]);
        }
        assert(chunk[6] == b[start + 14 + 7 * i + 6]);
        if last {
            assert(chunk[6] == b[end]);
        } else {
            assert(chunk[6] == b[at + 6]);
            assert(at + 6 < end);
        }
        lemma_address_decode_encode(chunk, route[i].repeater, last);
        lemma_route_decode_encode(b, start, end, route, i + 1);
        assert(spec_route_encode_from(route, i) =~= b.subrange(at, end + 1));
    }
}

/// Decode-then-encode round trip (law): a byte buffer that decodes
/// successfully is reproduced exactly by re-encoding the decoded frame,
/// provided the buffer is in the canonical form the encoder emits: no
/// leading null octets, an address field of whole 7-octet entries with the
/// reserved SSID bits set, opposite command/response bits, a canonical PID
/// octet, clear FRMR spare bits, and no content octets beyond what the
/// decoded family re-encodes.
pub proof fn lemma_frame_round_trip(b: Seq<u8>, f: Ax25Frame)
    requires
        spec_frame_parse_ok(b, Ok(f)),
        spec_first_nonzero_from(b, 0) == 0,
        (spec_first_addr_end_from(b, 0) + 1 - 14) % 7 == 0,
        f.command_or_response is Some,
        forall|k: int|
            0 <= k < (spec_first_addr_end_from(b, 0) + 1) / 7 ==> (#[trigger] b[7 * k + 6])
                & 0b0110_0000 == 0b0110_0000,
        spec_content_canonical(b.skip(spec_first_addr_end_from(b, 0) + 1)),
        spec_content_encode(f.content).len() == b.len() - (spec_first_addr_end_from(b, 0) + 1),
    ensures
        spec_frame_encode(f) == b,
{
    let end = spec_first_addr_end_from(b, 0);
    lemma_first_addr_end_props(b);
    assert(13 <= end < b.len());
    let cnt = spec_route_count(0, end);
    assert(7 * cnt == end + 1 - 14) by {
        vstd::arithmetic::div_mod::lemma_fundamental_div_mod(end + 1 - 14, 7);
    };
    assert(cnt + 2 == (end + 1) / 7) by {
        assert(end + 1 == 7 * (cnt + 2));
        vstd::arithmetic::div_mod::lemma_div_multiples_vanish(cnt + 2, 7);
    };
    let dest_chunk = spec_addr_chunk(b, 0);
    let src_chunk = spec_addr_chunk(b, 7);
    let dest_c = spec_decoded_c_bit(dest_chunk);
    let src_c = spec_decoded_c_bit(src_chunk);
    assert(f.command_or_response == spec_cor_derived(dest_c, src_c));
    assert(dest_c != src_c);
    assert(spec_cor_dest_bit(f.command_or_response) == dest_c);
    assert(spec_cor_src_bit(f.command_or_response) == src_c);
    assert(b[(7 * 0 + 6) as int] & 0b0110_0000 == 0b0110_0000);
    assert(b[(7 * 1 + 6) as int] & 0b0110_0000 == 0b0110_0000);
    assert(dest_chunk[6] == b[6] && 6 < end);
    lemma_address_decode_encode(dest_chunk, f.destination, false);
    assert(src_chunk[6] == b[13]);
    if cnt == 0 {
        assert(end == 13);
    } else {
        assert(13 < end);
    }
    lemma_address_decode_encode(src_chunk, f.source, f.route@.len() == 0);
    assert forall|k: int|
        0 <= k < f.route@.len() implies (#[trigger] spec_addr_chunk(b, 0int + 14 + 7 * k))[6]
        & 0b0110_0000 == 0b0110_0000 by {
        assert(0 <= k + 2 < (end + 1) / 7);
        assert(spec_addr_chunk(b, 0int + 14 + 7 * k)[6] == b[0int + 14 + 7 * k + 6]);
        assert(0int + 14 + 7 * k + 6 == 7 * (k + 2) + 6);
        assert(b[7 * (k + 2) + 6] & 0b0110_0000 == 0b0110_0000);
    }
    lemma_route_decode_encode(b, 0, end, f.route@, 0);
    lemma_content_round_trip(b.skip(end + 1), f.content);
    assert(spec_frame_encode(f) =~= b);
}

} // verus!
