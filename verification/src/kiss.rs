//! KISS framing: byte-stuffed frame extraction from a streaming buffer, and
//! frame emission with escaping, as used between a host and a TNC modem.

use vstd::prelude::*;

verus! {

/// Frame delimiter.
pub const FEND: u8 = 0xC0;

/// Escape marker.
pub const FESC: u8 = 0xDB;

/// Escaped substitute for a literal `FEND`.
pub const TFEND: u8 = 0xDC;

/// Escaped substitute for a literal `FESC`.
pub const TFESC: u8 = 0xDD;

/// The states of the extraction scan over a receive buffer.
#[derive(Debug, Clone, Copy, PartialEq, Eq, Structural)]
pub enum ScanState {
    /// Discarding bytes until a `FEND` is seen.
    LookingForStartMarker,
    /// Accumulating frame bytes.
    Data,
    /// The last byte was a `FESC`.
    Escaped,
}

/// One full scan of the buffer from position `i` in the given state with
/// the bytes accumulated so far: the first completed frame and the position
/// of its trailing `FEND`, or nothing when no frame completes.
pub open spec fn spec_scan(b: Seq<u8>, i: int, state: ScanState, acc: Seq<u8>) -> Option<
    (Seq<u8>, int),
>
    decreases b.len() - i,
{
    if i < 0 || i >= b.len() {
        Option::None
    } else {
        let c = b[i];
        match state {
            ScanState::LookingForStartMarker => spec_scan(
                b,
                i + 1,
                if c == FEND {
                    ScanState::Data
                } else {
                    ScanState::LookingForStartMarker
                },
                acc,
            ),
            ScanState::Data => {
                if c == FEND {
                    if acc.len() > 0 {
                        Option::Some((acc, i))
                    } else {
                        spec_scan(b, i + 1, ScanState::Data, acc)
                    }
                } else if c == FESC {
                    spec_scan(b, i + 1, ScanState::Escaped, acc)
                } else {
                    spec_scan(b, i + 1, ScanState::Data, acc.push(c))
                }
            },
            ScanState::Escaped => {
                if c == TFEND {
                    spec_scan(b, i + 1, ScanState::Data, acc.push(FEND))
                } else if c == TFESC {
                    spec_scan(b, i + 1, ScanState::Data, acc.push(FESC))
                } else if c == FEND && acc.len() > 0 {
                    Option::Some((acc, i))
                } else {
                    // an unexpected escaped byte is discarded
                    spec_scan(b, i + 1, ScanState::Data, acc)
                }
            },
        }
    }
}

/// What one extraction step yields on a buffer: the first completed frame
/// and the position of its trailing `FEND`, if any frame completes.
pub open spec fn spec_kiss_extract(b: Seq<u8>) -> Option<(Seq<u8>, int)> {
    spec_scan(b, 0, ScanState::LookingForStartMarker, Seq::empty())
}

/// Extract one frame from the front of a receive buffer, if a complete one
/// is there. On success the buffer is drained up to but not including the
/// trailing `FEND`, which serves as the next frame's start marker; the
/// returned frame is never empty. Otherwise the buffer is left unchanged.
pub fn make_frame_from_buffer(buffer: &mut Vec<u8>) -> (r: Option<Vec<u8>>)
    ensures
        match r {
            Some(frame) => {
                &&& spec_kiss_extract(old(buffer)@) matches Some((f, idx)) && frame@ == f
                    && final(buffer)@ == old(buffer)@.skip(idx)
                &&& frame@.len() > 0
                &&& final(buffer)@.len() > 0
                &&& final(buffer)@[0] == FEND
            },
            None => spec_kiss_extract(old(buffer)@) is None && final(buffer)@ == old(buffer)@,
        },
{
    let mut possible_frame: Vec<u8> = Vec::new();
    let mut state = ScanState::LookingForStartMarker;
    let n = buffer.len();
    let mut idx: usize = 0;
    let mut committed = false;
    // Check for a possible frame read-only until we know we have a complete
    // frame; if we take one out, clear the buffer up to the final index.
    while idx < n && !committed
        invariant
            0 <= idx <= n,
            n == buffer@.len(),
            !committed ==> spec_kiss_extract(buffer@) == spec_scan(
                buffer@,
                idx as int,
                state,
                possible_frame@,
            ),
            committed ==> idx < n && spec_kiss_extract(buffer@) == Option::Some(
                (possible_frame@, idx as int),
            ),
            committed ==> buffer@[idx as int] == FEND && possible_frame@.len() > 0,
        decreases n - idx, (if committed {
            0int
        } else {
            1int
        }),
    {
        let c = buffer[idx];
        match state {
            ScanState::LookingForStartMarker => {
                if c == FEND {
                    state = ScanState::Data;
                }
                idx += 1;
            },
            ScanState::Data => {
                if c == FEND {
                    if possible_frame.len() > 0 {
                        // Successfully read a non-zero-length frame
                        committed = true;
                    } else {
                        idx += 1;
                    }
                } else if c == FESC {
                    state = ScanState::Escaped;
                    idx += 1;
                } else {
                    possible_frame.push(c);
                    idx += 1;
                }
            },
            ScanState::Escaped => {
                if c == TFEND {
                    possible_frame.push(FEND);
                    state = ScanState::Data;
                    idx += 1;
                } else if c == TFESC {
                    possible_frame.push(FESC);
                    state = ScanState::Data;
                    idx += 1;
                } else if c == FEND && possible_frame.len() > 0 {
                    // Successfully read a non-zero-length frame
                    committed = true;
                } else {
                    state = ScanState::Data;
                    idx += 1;
                }
            },
        }
    }
    if !committed {
        return None;
    }
    // Draining up to the final index leaves the last FEND in place, so it
    // can serve as the start marker for the next frame.
    let rest = tail_bytes(buffer, idx);
    *buffer = rest;
    Some(possible_frame)
}

/// The bytes of a vector from a position to its end, as an owned vector.
fn tail_bytes(src: &Vec<u8>, from: usize) -> (v: Vec<u8>)
    requires
        from <= src@.len(),
    ensures
        v@ == src@.skip(from as int),
{
    let n = src.len();
    let mut v: Vec<u8> = Vec::new();
    let mut i: usize = from;
    while i < n
        invariant
            from <= i <= n,
            n == src@.len(),
            v@ == src@.subrange(from as int, i as int),
        decreases n - i,
    {
        let b = src[i];
        proof {
            assert(src@.subrange(from as int, i + 1) =~= src@.subrange(from as int, i as int).push(
                src@[i as int],
            ));
        }
        v.push(b);
        i += 1;
    }
    proof {
        assert(src@.subrange(from as int, n as int) =~= src@.skip(from as int));
    }
    v
}

/// The byte-stuffed form of a frame's octets: `FEND` becomes `FESC TFEND`
/// and `FESC` becomes `FESC TFESC`; every other octet passes through.
pub open spec fn spec_kiss_stuff(data: Seq<u8>) -> Seq<u8>
    decreases data.len(),
{
    if data.len() == 0 {
        Seq::empty()
    } else {
        (if data[0] == FEND {
            seq![FESC, TFEND]
        } else if data[0] == FESC {
            seq![FESC, TFESC]
        } else {
            seq![data[0]]
        }) + spec_kiss_stuff(data.skip(1))
    }
}

/// The full wire form of one transmitted data frame: a delimiter, the KISS
/// command octet zero (port 0, data), the stuffed payload, and a closing
/// delimiter.
pub open spec fn spec_kiss_encode(frame: Seq<u8>) -> Seq<u8> {
    seq![FEND, 0x00u8] + spec_kiss_stuff(frame) + seq![FEND]
}

/// Encode one frame for transmission on a KISS connection, with
/// byte-stuffing and delimiters.
pub fn encode_kiss_data_frame(frame: &[u8]) -> (out: Vec<u8>)
    ensures
        out@ == spec_kiss_encode(frame@),
{
    let n = frame.len();
    let mut out: Vec<u8> = Vec::new();
    out.push(FEND);
    // 0x00 is the KISS command byte, which is two nybbles:
    // port = 0, command = 0 (all following bytes are a data frame to transmit)
    out.push(0x00);
    let mut i: usize = 0;
    proof {
        assert(frame@.skip(0) =~= frame@);
    }
    while i < n
        invariant
            0 <= i <= n,
            n == frame@.len(),
            out@ + spec_kiss_stuff(frame@.skip(i as int)) =~= seq![FEND, 0x00u8]
                + spec_kiss_stuff(frame@),
        decreases n - i,
    {
        let c = frame[i];
        proof {
            assert(frame@.skip(i as int).skip(1) =~= frame@.skip(i + 1));
            assert(frame@.skip(i as int)[0] == frame@[i as int]);
        }
        if c == FEND {
            out.push(FESC);
            out.push(TFEND);
        } else if c == FESC {
            out.push(FESC);
            out.push(TFESC);
        } else {
            out.push(c);
        }
        i += 1;
    }
    out.push(FEND);
    proof {
        assert(out@ =~= spec_kiss_encode(frame@));
    }
    out
}

proof fn lemma_skip_parts(b: Seq<u8>, i: int, head: Seq<u8>, tail: Seq<u8>)
    requires
        0 <= i <= b.len(),
        b.skip(i) == head + tail,
    ensures
        i + head.len() + tail.len() == b.len(),
        head.len() >= 1 ==> b[i] == head[0],
        head.len() >= 2 ==> b[i + 1] == head[1],
        b.skip(i + head.len()) == tail,
{
    assert(b.skip(i).len() == head.len() + tail.len());
    assert(b.subrange(i, b.len() as int) == b.skip(i));
    if head.len() >= 1 {
        assert(b.subrange(i, b.len() as int)[0] == b[i + 0]);
        assert((head + tail)[0] == head[0]);
    }
    if head.len() >= 2 {
        assert(b.subrange(i, b.len() as int)[1] == b[i + 1]);
        assert((head + tail)[1] == head[1]);
    }
    let h = head.len() as int;
    assert forall|j: int| 0 <= j < tail.len() implies b.skip(i + h)[j] == tail[j] by {
        assert(b.subrange(i + h, b.len() as int)[j] == b[i + h + j]);
        assert(b.subrange(i, b.len() as int)[j + h] == b[i + h + j]);
        assert((head + tail)[j + h] == tail[j]);
    }
    assert(b.skip(i + h).len() == tail.len());
    assert(b.skip(i + h) =~= tail);
}

proof fn lemma_scan_data_stuffed(b: Seq<u8>, i: int, acc: Seq<u8>, f: Seq<u8>)
    requires
        0 <= i <= b.len(),
        b.skip(i) == spec_kiss_stuff(f) + seq![FEND],
        acc.len() > 0,
    ensures
        spec_scan(b, i, ScanState::Data, acc) == Option::<(Seq<u8>, int)>::Some(
            (acc + f, b.len() - 1),
        ),
    decreases f.len(),
{
    if f.len() == 0 {
        assert(spec_kiss_stuff(f) =~= Seq::<u8>::empty());
        assert(b.skip(i) =~= seq![FEND] + Seq::<u8>::empty());
        lemma_skip_parts(b, i, seq![FEND], Seq::empty());
        assert(b[i] == FEND);
        assert(i == b.len() - 1);
        assert(acc + f =~= acc);
        assert(spec_scan(b, i, ScanState::Data, acc) == Option::<(Seq<u8>, int)>::Some((acc, i)));
    } else {
        let x = f[0];
        let rest = f.skip(1);
        let tail = spec_kiss_stuff(rest) + seq![FEND];
        if x == FEND {
            assert(spec_kiss_stuff(f) == seq![FESC, TFEND] + spec_kiss_stuff(rest));
            assert(b.skip(i) =~= seq![FESC, TFEND] + tail);
            lemma_skip_parts(b, i, seq![FESC, TFEND], tail);
            assert(b[i] == FESC && b[i + 1] == TFEND);
            lemma_scan_data_stuffed(b, i + 2, acc.push(FEND), rest);
            assert(acc.push(FEND) + rest =~= acc + f);
            assert(spec_scan(b, i, ScanState::Data, acc) == spec_scan(
                b,
                i + 1,
                ScanState::Escaped,
                acc,
            ));
            assert(spec_scan(b, i + 1, ScanState::Escaped, acc) == spec_scan(
                b,
                i + 2,
                ScanState::Data,
                acc.push(FEND),
            ));
        } else if x == FESC {
            assert(spec_kiss_stuff(f) == seq![FESC, TFESC] + spec_kiss_stuff(rest));
            assert(b.skip(i) =~= seq![FESC, TFESC] + tail);
            lemma_skip_parts(b, i, seq![FESC, TFESC], tail);
            assert(b[i] == FESC && b[i + 1] == TFESC);
            lemma_scan_data_stuffed(b, i + 2, acc.push(FESC), rest);
            assert(acc.push(FESC) + rest =~= acc + f);
            assert(spec_scan(b, i, ScanState::Data, acc) == spec_scan(
                b,
                i + 1,
                ScanState::Escaped,
                acc,
            ));
            assert(spec_scan(b, i + 1, ScanState::Escaped, acc) == spec_scan(
                b,
                i + 2,
                ScanState::Data,
                acc.push(FESC),
            ));
        } else {
            assert(spec_kiss_stuff(f) == seq![x] + spec_kiss_stuff(rest));
            assert(b.skip(i) =~= seq![x] + tail);
            lemma_skip_parts(b, i, seq![x], tail);
            assert(b[i] == x);
            assert(x != FEND && x != FESC);
            lemma_scan_data_stuffed(b, i + 1, acc.push(x), rest);
            assert(acc.push(x) + rest =~= acc + f);
            assert(spec_scan(b, i, ScanState::Data, acc) == spec_scan(
                b,
                i + 1,
                ScanState::Data,
                acc.push(x),
            ));
        }
    }
}

/// Escape fidelity (law): extracting from a buffer that holds exactly one
/// encoded frame yields the command octet followed by the original payload
/// — whatever `FEND` or `FESC` octets the payload holds — and stops at the
/// closing delimiter.
pub proof fn lemma_kiss_round_trip(f: Seq<u8>)
    ensures
        spec_kiss_extract(spec_kiss_encode(f)) == Option::<(Seq<u8>, int)>::Some(
            (seq![0x00u8] + f, spec_kiss_encode(f).len() - 1),
        ),
{
    let b = spec_kiss_encode(f);
    assert(b[0] == FEND);
    assert(b[1] == 0x00u8);
    assert(b.skip(2) =~= spec_kiss_stuff(f) + seq![FEND]);
    assert(spec_scan(b, 0, ScanState::LookingForStartMarker, Seq::empty()) == spec_scan(
        b,
        1,
        ScanState::Data,
        Seq::empty(),
    ));
    assert(spec_scan(b, 1, ScanState::Data, Seq::empty()) == spec_scan(
        b,
        2,
        ScanState::Data,
        Seq::<u8>::empty().push(0x00u8),
    ));
    assert(Seq::<u8>::empty().push(0x00u8) =~= seq![0x00u8]);
    lemma_scan_data_stuffed(b, 2, seq![0x00u8], f);
}

} // verus!
