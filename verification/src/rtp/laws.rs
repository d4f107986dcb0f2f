//! What holds of the header, the packetizer and the depacketizer together.

use super::depacketizer::{
    absorb, absorb_fragment, accepts, is_gap, note_header, step, DepacketizerState,
};
use crate::annexb::{
    annexb_join, joined_from, lemma_nal_units_are_clean, lemma_split_of_join, nal_units, start_code,
};
use super::header::RtpHeader;
use crate::bytes::{
    be16, be32, bit, lemma_be16_of_bytes, lemma_be32_of_bytes, lemma_be_round_trip,
};
use super::packetizer::{
    access_unit_packets, fragment_count, fu_header, fu_indicator, nal_packet, nal_packets,
    stream_header, unit_packets,
};
use vstd::prelude::*;

verus! {

/// Parsing the wire form of a header gives the header back, whatever bytes
/// follow it, provided it has version 2 and its fields fit their bits.
pub proof fn lemma_parse_of_wire(h: RtpHeader, rest: Seq<u8>)
    requires
        h.version == 2,
        h.fits_wire(),
    ensures
        RtpHeader::spec_parse(h.wire() + rest) == Some(h),
{
    let data = h.wire() + rest;
    lemma_be_round_trip(h.sequence, h.timestamp);
    lemma_be_round_trip(h.sequence, h.ssrc);
    assert(data.len() >= 12);
    assert(data[0] == (128 + bit(h.padding) * 32 + bit(h.extension) * 16 + h.csrc_count) as u8);
    assert(data[1] == (bit(h.marker) * 128 + h.payload_type) as u8);
    assert(data[2] == be16(h.sequence)[0] && data[3] == be16(h.sequence)[1]);
    assert(data[4] == be32(h.timestamp)[0] && data[5] == be32(h.timestamp)[1] && data[6] == be32(
        h.timestamp,
    )[2] && data[7] == be32(h.timestamp)[3]);
    assert(data[8] == be32(h.ssrc)[0] && data[9] == be32(h.ssrc)[1] && data[10] == be32(h.ssrc)[2]
        && data[11] == be32(h.ssrc)[3]);
}

proof fn lemma_first_byte(b: u8)
    requires
        b / 64 == 2,
    ensures
        128 + bit(b / 32 % 2 == 1) * 32 + bit(b / 16 % 2 == 1) * 16 + b % 16 == b,
{
}

proof fn lemma_second_byte(b: u8)
    ensures
        bit(b / 128 == 1) * 128 + b % 128 == b,
{
}

/// The wire form of a parsed header is the twelve bytes it was parsed from.
pub proof fn lemma_wire_of_parse(data: Seq<u8>)
    requires
        RtpHeader::spec_parse(data) is Some,
    ensures
        RtpHeader::spec_parse(data).unwrap().wire() == data.subrange(0, 12),
{
    let h = RtpHeader::spec_parse(data).unwrap();
    lemma_first_byte(data[0]);
    lemma_second_byte(data[1]);
    lemma_be16_of_bytes(data[2], data[3]);
    lemma_be32_of_bytes(data[4], data[5], data[6], data[7]);
    lemma_be32_of_bytes(data[8], data[9], data[10], data[11]);
    let first = seq![
        ((h.version % 4) * 64 + bit(h.padding) * 32 + bit(h.extension) * 16 + h.csrc_count % 16) as u8,
        (bit(h.marker) * 128 + h.payload_type % 128) as u8,
    ];
    assert(first =~= seq![data[0], data[1]]);
    assert(h.wire() =~= data.subrange(0, 12));
}

/// How many packets carry the NAL units `nals[from..]`.
pub open spec fn packet_count(nals: Seq<Seq<u8>>, from: int) -> int
    decreases nals.len() - from,
{
    if from < 0 || from >= nals.len() {
        0
    } else {
        fragment_count(nals[from].len() as int) + packet_count(nals, from + 1)
    }
}

pub proof fn lemma_unit_packets_len(ssrc: u32, seq0: int, ts: u32, nals: Seq<Seq<u8>>, from: int)
    ensures
        unit_packets(ssrc, seq0, ts, nals, from).len() == packet_count(nals, from),
        packet_count(nals, from) >= 0,
    decreases nals.len() - from,
{
    if 0 <= from < nals.len() {
        lemma_unit_packets_len(
            ssrc,
            seq0 + fragment_count(nals[from].len() as int),
            ts,
            nals,
            from + 1,
        );
    }
}

/// What the payload of the `k`-th packet of a NAL unit is.
pub open spec fn packet_payload(nal: Seq<u8>, k: int) -> Seq<u8> {
    if nal.len() <= 1400 {
        nal
    } else {
        let count = fragment_count(nal.len() as int);
        let lo = 1 + k * 1398;
        let hi = if lo + 1398 < nal.len() {
            lo + 1398
        } else {
            nal.len() as int
        };
        seq![fu_indicator(nal[0]), fu_header(nal[0], k == 0, k == count - 1)] + nal.subrange(
            lo,
            hi,
        )
    }
}

/// Each packet of a NAL unit parses to the stream's header with the next
/// sequence number, and carries its share of the unit behind it.
pub proof fn lemma_nal_packet_parts(
    ssrc: u32,
    seq0: int,
    ts: u32,
    nal: Seq<u8>,
    last_nal: bool,
    k: int,
)
    requires
        nal.len() > 0,
        0 <= k < fragment_count(nal.len() as int),
    ensures
        RtpHeader::spec_parse(nal_packet(ssrc, seq0, ts, nal, last_nal, k)) == Some(
            stream_header(
                ssrc,
                seq0 + k,
                ts,
                last_nal && k == fragment_count(nal.len() as int) - 1,
            ),
        ),
        nal_packet(ssrc, seq0, ts, nal, last_nal, k).len() > 12,
        nal_packet(ssrc, seq0, ts, nal, last_nal, k).subrange(
            12,
            nal_packet(ssrc, seq0, ts, nal, last_nal, k).len() as int,
        ) == packet_payload(nal, k),
{
    reveal(nal_packet);
    let h = stream_header(ssrc, seq0 + k, ts, last_nal && k == fragment_count(nal.len() as int) - 1);
    let payload = packet_payload(nal, k);
    let packet = nal_packet(ssrc, seq0, ts, nal, last_nal, k);
    assert(h.wire().len() == 12);
    assert(packet =~= h.wire() + payload);
    lemma_parse_of_wire(h, payload);
    assert(packet.subrange(12, packet.len() as int) =~= payload);
}

/// Sequence numbers, timestamps and markers of an access unit's packets:
/// the `j`-th packet carries the `j`-th sequence number after the first,
/// modulo 2^16, every packet carries the one timestamp, and the marker is set
/// on the last packet and on no other.
pub proof fn lemma_packet_headers(
    ssrc: u32,
    seq0: int,
    ts: u32,
    nals: Seq<Seq<u8>>,
    from: int,
    j: int,
)
    requires
        forall|i: int| 0 <= i < nals.len() ==> (#[trigger] nals[i]).len() > 0,
        0 <= from,
        0 <= j < packet_count(nals, from),
    ensures
        RtpHeader::spec_parse(unit_packets(ssrc, seq0, ts, nals, from)[j]) == Some(
            stream_header(ssrc, seq0 + j, ts, j == packet_count(nals, from) - 1),
        ),
    decreases nals.len() - from,
{
    let count = fragment_count(nals[from].len() as int);
    let next = seq0 + count;
    lemma_unit_packets_len(ssrc, next, ts, nals, from + 1);
    let a = nal_packets(ssrc, seq0, ts, nals[from], from == nals.len() - 1);
    let b = unit_packets(ssrc, next, ts, nals, from + 1);
    if j < count {
        assert((a + b)[j] == a[j]);
        lemma_nal_packet_parts(ssrc, seq0, ts, nals[from], from == nals.len() - 1, j);
        if from < nals.len() - 1 {
            assert(nals[from + 1].len() > 0);
        }
    } else {
        assert((a + b)[j] == b[j - count]);
        lemma_packet_headers(ssrc, next, ts, nals, from + 1, j - count);
    }
}

/// An access unit as a packetizer takes it: its frame time as an RTP
/// timestamp, and its NAL units.
pub struct SentUnit {
    pub ts: u32,
    pub nals: Seq<Seq<u8>>,
}

/// How many packets carry the first `n` access units of `units`.
pub open spec fn stream_count(units: Seq<SentUnit>, n: int) -> int
    decreases n,
{
    if n <= 0 || n > units.len() {
        0
    } else {
        stream_count(units, n - 1) + packet_count(units[n - 1].nals, 0)
    }
}

/// The packets that a packetizer with next sequence number `seq0` gives for
/// the first `n` access units of `units`, one call after the other.
pub open spec fn stream_packets(ssrc: u32, seq0: u16, units: Seq<SentUnit>, n: int) -> Seq<Seq<u8>>
    decreases n,
{
    if n <= 0 || n > units.len() {
        Seq::empty()
    } else {
        stream_packets(ssrc, seq0, units, n - 1) + access_unit_packets(
            ssrc,
            (seq0 + stream_count(units, n - 1)) % 0x1_0000,
            units[n - 1].ts,
            units[n - 1].nals,
        )
    }
}

/// Over any number of calls the sequence numbers run on without a gap: the
/// `j`-th packet of a stream carries the `j`-th sequence number after the
/// first, modulo 2^16.
pub proof fn lemma_stream_sequence(ssrc: u32, seq0: u16, units: Seq<SentUnit>, n: int, j: int)
    requires
        0 <= n <= units.len(),
        forall|u: int, i: int|
            0 <= u < units.len() && 0 <= i < units[u].nals.len() ==> (
            #[trigger] units[u].nals[i]).len() > 0,
        0 <= j < stream_count(units, n),
    ensures
        stream_packets(ssrc, seq0, units, n).len() == stream_count(units, n),
        RtpHeader::spec_parse(stream_packets(ssrc, seq0, units, n)[j]) is Some,
        RtpHeader::spec_parse(stream_packets(ssrc, seq0, units, n)[j]).unwrap().sequence == (seq0
            + j) % 0x1_0000,
        RtpHeader::spec_parse(stream_packets(ssrc, seq0, units, n)[j]).unwrap().ssrc == ssrc,
    decreases n,
{
    lemma_stream_len(ssrc, seq0, units, n);
    lemma_stream_len(ssrc, seq0, units, n - 1);
    let before = stream_packets(ssrc, seq0, units, n - 1);
    let done = stream_count(units, n - 1);
    let unit = units[n - 1];
    let start = (seq0 + done) % 0x1_0000;
    let last = access_unit_packets(ssrc, start, unit.ts, unit.nals);
    if j < done {
        lemma_stream_sequence(ssrc, seq0, units, n - 1, j);
        assert((before + last)[j] == before[j]);
    } else {
        assert forall|i: int| 0 <= i < unit.nals.len() implies (#[trigger] unit.nals[i]).len()
            > 0 by {
            assert(units[n - 1].nals[i].len() > 0);
        }
        lemma_unit_packets_len(ssrc, start, unit.ts, unit.nals, 0);
        lemma_packet_headers(ssrc, start, unit.ts, unit.nals, 0, j - done);
        assert((before + last)[j] == last[j - done]);
        assert((start + (j - done)) % 0x1_0000 == (seq0 + j) % 0x1_0000);
    }
}

proof fn lemma_stream_len(ssrc: u32, seq0: u16, units: Seq<SentUnit>, n: int)
    ensures
        stream_packets(ssrc, seq0, units, n).len() == stream_count(units, n),
        stream_count(units, n) >= 0,
    decreases n,
{
    if 0 < n <= units.len() {
        lemma_stream_len(ssrc, seq0, units, n - 1);
        lemma_unit_packets_len(
            ssrc,
            (seq0 + stream_count(units, n - 1)) % 0x1_0000,
            units[n - 1].ts,
            units[n - 1].nals,
            0,
        );
    }
}

/// The state of a depacketizer after it has taken `packets` in order.
pub open spec fn run(s: DepacketizerState, packets: Seq<Seq<u8>>) -> DepacketizerState
    decreases packets.len(),
{
    if packets.len() == 0 {
        s
    } else {
        step(run(s, packets.drop_last()), packets.last()).0
    }
}

/// The access units that a depacketizer hands out while it takes `packets`
/// in order.
pub open spec fn emitted(s: DepacketizerState, packets: Seq<Seq<u8>>) -> Seq<Seq<u8>>
    decreases packets.len(),
{
    if packets.len() == 0 {
        Seq::empty()
    } else {
        let before = emitted(s, packets.drop_last());
        match step(run(s, packets.drop_last()), packets.last()).1 {
            Some(frame) => before.push(frame),
            None => before,
        }
    }
}

/// A NAL unit that the depacketizer can tell from a fragment or an
/// aggregate: it is not empty and, where it travels whole, its type is one of
/// 1 to 23.
pub open spec fn is_sendable_unit(nal: Seq<u8>) -> bool {
    nal.len() > 0 && (nal.len() <= 1400 ==> 1 <= nal[0] as int % 32 <= 23)
}

/// What a depacketizer in state `s` holds of the access unit with timestamp
/// `ts`.
pub open spec fn pending(s: DepacketizerState, ts: u32) -> Seq<u8> {
    if s.cur_ts == Some(ts) {
        s.cur_frame
    } else {
        Seq::empty()
    }
}

/// Taking `a` and then `b` is taking `a + b`.
pub proof fn lemma_run_concat(s: DepacketizerState, a: Seq<Seq<u8>>, b: Seq<Seq<u8>>)
    ensures
        run(s, a + b) == run(run(s, a), b),
        emitted(s, a + b) == emitted(s, a) + emitted(run(s, a), b),
    decreases b.len(),
{
    if b.len() == 0 {
        assert(a + b =~= a);
        assert(emitted(s, a) + emitted(run(s, a), b) =~= emitted(s, a));
    } else {
        assert((a + b).drop_last() =~= a + b.drop_last());
        assert((a + b).last() == b.last());
        lemma_run_concat(s, a, b.drop_last());
        let mid = run(run(s, a), b.drop_last());
        match step(mid, b.last()).1 {
            Some(frame) => {
                assert(emitted(s, a + b) =~= emitted(s, a) + emitted(run(s, a), b));
            },
            None => {},
        }
    }
}

/// A NAL unit sent whole arrives whole.
proof fn lemma_whole_unit(
    s: DepacketizerState,
    ssrc: u32,
    seq0: int,
    ts: u32,
    nal: Seq<u8>,
    last_nal: bool,
)
    requires
        0 < nal.len() <= 1400,
        1 <= nal[0] as int % 32 <= 23,
    ensures
        ({
            let r = step(s, nal_packet(ssrc, seq0, ts, nal, last_nal, 0));
            let whole = pending(s, ts) + start_code() + nal;
            &&& r.0.cur_ts == Some(ts)
            &&& r.0.last_seq == Some((seq0 % 0x1_0000) as u16)
            &&& r.0.cur_frame == if last_nal {
                Seq::<u8>::empty()
            } else {
                whole
            }
            &&& r.1 == if last_nal {
                Some(whole)
            } else {
                None
            }
        }),
{
    reveal(step);
    lemma_nal_packet_parts(ssrc, seq0, ts, nal, last_nal, 0);
    let packet = nal_packet(ssrc, seq0, ts, nal, last_nal, 0);
    assert(accepts(packet));
    let noted = note_header(s, (seq0 % 0x1_0000) as u16, ts);
    assert(noted.cur_frame == pending(s, ts));
    assert(absorb(noted, nal) is Some);
}

/// The state in which the first `k` fragments of a NAL unit leave a
/// depacketizer that was in state `s`.
pub open spec fn after_fragments(
    s: DepacketizerState,
    seq0: int,
    ts: u32,
    nal: Seq<u8>,
    k: int,
) -> DepacketizerState {
    DepacketizerState {
        last_seq: Some(((seq0 + k - 1) % 0x1_0000) as u16),
        cur_ts: Some(ts),
        cur_frame: pending(s, ts),
        fu_buf: nal.subrange(0, 1 + k * 1398),
        fu_active: true,
    }
}

proof fn lemma_fragment_bytes(nal_header: u8, first: bool, last: bool)
    ensures
        fu_indicator(nal_header) as int % 32 == 28,
        fu_header(nal_header, first, last) / 128 == 1 <==> first,
        fu_header(nal_header, first, last) / 64 % 2 == 1 <==> last,
        (fu_indicator(nal_header) / 32 * 32 + fu_header(nal_header, first, last) % 32) as u8
            == nal_header,
{
}

/// The parts of the payload of the `j`-th fragment of a NAL unit.
proof fn lemma_fragment_payload(nal: Seq<u8>, j: int)
    requires
        nal.len() > 1400,
        0 <= j < fragment_count(nal.len() as int),
    ensures
        ({
            let payload = packet_payload(nal, j);
            let last = j == fragment_count(nal.len() as int) - 1;
            let hi = if last {
                nal.len() as int
            } else {
                1 + (j + 1) * 1398
            };
            &&& payload.len() >= 2
            &&& payload[0] == fu_indicator(nal[0])
            &&& payload[1] == fu_header(nal[0], j == 0, last)
            &&& payload.subrange(2, payload.len() as int) == nal.subrange(1 + j * 1398, hi)
            &&& 1 + j * 1398 < hi <= nal.len()
        }),
{
    let payload = packet_payload(nal, j);
    let last = j == fragment_count(nal.len() as int) - 1;
    let hi = if last {
        nal.len() as int
    } else {
        1 + (j + 1) * 1398
    };
    assert(payload.subrange(2, payload.len() as int) =~= nal.subrange(1 + j * 1398, hi));
}

/// What a fragment does to a depacketizer that has noted its header, where
/// the fragments before it are collected.
proof fn lemma_fragment_absorbed(
    noted: DepacketizerState,
    payload: Seq<u8>,
    nal: Seq<u8>,
    lo: int,
    hi: int,
    first: bool,
    last: bool,
)
    requires
        payload.len() >= 2,
        nal.len() > 0,
        payload[0] == fu_indicator(nal[0]),
        payload[1] == fu_header(nal[0], first, last),
        1 <= lo <= hi <= nal.len(),
        payload.subrange(2, payload.len() as int) == nal.subrange(lo, hi),
        first <==> lo == 1,
        !first ==> noted.fu_active && noted.fu_buf == nal.subrange(0, lo),
    ensures
        absorb(noted, payload) == Some(
            if last {
                DepacketizerState {
                    cur_frame: noted.cur_frame + start_code() + nal.subrange(0, hi),
                    fu_buf: Seq::empty(),
                    fu_active: false,
                    ..noted
                }
            } else {
                DepacketizerState { fu_buf: nal.subrange(0, hi), fu_active: true, ..noted }
            },
        ),
{
    lemma_fragment_bytes(nal[0], first, last);
    let chunk = nal.subrange(lo, hi);
    if first {
        assert(seq![nal[0]] + chunk =~= nal.subrange(0, hi));
    } else {
        assert(noted.fu_buf + chunk =~= nal.subrange(0, hi));
    }
}

/// What the `j`-th fragment of a NAL unit does to a depacketizer that has
/// collected the fragments before it.
proof fn lemma_fragment_step(
    before: DepacketizerState,
    s: DepacketizerState,
    ssrc: u32,
    seq0: int,
    ts: u32,
    nal: Seq<u8>,
    last_nal: bool,
    j: int,
)
    requires
        nal.len() > 1400,
        0 <= j < fragment_count(nal.len() as int),
        j == 0 ==> before == s,
        j > 0 ==> before == after_fragments(s, seq0, ts, nal, j),
    ensures
        ({
            let r = step(before, nal_packet(ssrc, seq0, ts, nal, last_nal, j));
            let whole = pending(s, ts) + start_code() + nal;
            if j < fragment_count(nal.len() as int) - 1 {
                r == (after_fragments(s, seq0, ts, nal, j + 1), None::<Seq<u8>>)
            } else {
                &&& r.0.cur_ts == Some(ts)
                &&& r.0.cur_frame == if last_nal {
                    Seq::<u8>::empty()
                } else {
                    whole
                }
                &&& r.1 == if last_nal {
                    Some(whole)
                } else {
                    None
                }
            }
        }),
{
    reveal(step);
    let count = fragment_count(nal.len() as int);
    let last = j == count - 1;
    let packet = nal_packet(ssrc, seq0, ts, nal, last_nal, j);
    let payload = packet_payload(nal, j);
    let hi = if last {
        nal.len() as int
    } else {
        1 + (j + 1) * 1398
    };
    lemma_nal_packet_parts(ssrc, seq0, ts, nal, last_nal, j);
    lemma_fragment_payload(nal, j);
    let h = stream_header(ssrc, seq0 + j, ts, last_nal && last);
    assert(accepts(packet));
    let noted = note_header(before, h.sequence, ts);
    assert(noted.cur_frame == pending(s, ts));
    assert(noted.cur_ts == Some(ts));
    if j > 0 {
        assert(noted.fu_active);
        assert(noted.fu_buf == nal.subrange(0, 1 + j * 1398));
    }
    lemma_fragment_absorbed(noted, payload, nal, 1 + j * 1398, hi, j == 0, last);
    if last {
        assert(nal.subrange(0, hi) =~= nal);
    }
}

/// All fragments of a NAL unit but the last are collected and nothing is
/// handed out.
proof fn lemma_fragments_collected(
    s: DepacketizerState,
    ssrc: u32,
    seq0: int,
    ts: u32,
    nal: Seq<u8>,
    last_nal: bool,
    k: int,
)
    requires
        nal.len() > 1400,
        1 <= k < fragment_count(nal.len() as int),
    ensures
        run(s, nal_packets(ssrc, seq0, ts, nal, last_nal).subrange(0, k)) == after_fragments(
            s,
            seq0,
            ts,
            nal,
            k,
        ),
        emitted(s, nal_packets(ssrc, seq0, ts, nal, last_nal).subrange(0, k)) == Seq::<
            Seq<u8>,
        >::empty(),
    decreases k,
{
    let all = nal_packets(ssrc, seq0, ts, nal, last_nal);
    let taken = all.subrange(0, k);
    let j = k - 1;
    assert(taken.drop_last() =~= all.subrange(0, j));
    assert(taken.last() == nal_packet(ssrc, seq0, ts, nal, last_nal, j));
    let before = run(s, all.subrange(0, j));
    if j == 0 {
        assert(before == s);
        assert(emitted(s, all.subrange(0, j)) =~= Seq::<Seq<u8>>::empty());
    } else {
        lemma_fragments_collected(s, ssrc, seq0, ts, nal, last_nal, j);
    }
    lemma_fragment_step(before, s, ssrc, seq0, ts, nal, last_nal, j);
}

/// A NAL unit sent in fragments arrives whole.
proof fn lemma_fragmented_unit(
    s: DepacketizerState,
    ssrc: u32,
    seq0: int,
    ts: u32,
    nal: Seq<u8>,
    last_nal: bool,
)
    requires
        nal.len() > 1400,
    ensures
        ({
            let all = nal_packets(ssrc, seq0, ts, nal, last_nal);
            let whole = pending(s, ts) + start_code() + nal;
            &&& run(s, all).cur_ts == Some(ts)
            &&& run(s, all).cur_frame == if last_nal {
                Seq::<u8>::empty()
            } else {
                whole
            }
            &&& emitted(s, all) == if last_nal {
                seq![whole]
            } else {
                Seq::<Seq<u8>>::empty()
            }
            &&& emitted(s, all.drop_last()) == Seq::<Seq<u8>>::empty()
        }),
{
    let all = nal_packets(ssrc, seq0, ts, nal, last_nal);
    let count = fragment_count(nal.len() as int);
    let j = count - 1;
    assert(count >= 2);
    assert(all.drop_last() =~= all.subrange(0, j));
    lemma_fragments_collected(s, ssrc, seq0, ts, nal, last_nal, j);
    let before = run(s, all.drop_last());
    assert(all.last() == nal_packet(ssrc, seq0, ts, nal, last_nal, j));
    lemma_fragment_step(before, s, ssrc, seq0, ts, nal, last_nal, j);
    if last_nal {
        let whole = pending(s, ts) + start_code() + nal;
        assert(emitted(s, all) =~= seq![whole]);
    }
}

/// A depacketizer has given up the fragmented unit whose fragment before
/// `k` it took last, and holds of the access unit what it held in state `s`.
pub open spec fn has_given_up(
    state: DepacketizerState,
    s: DepacketizerState,
    seq0: int,
    ts: u32,
    k: int,
) -> bool {
    &&& state.last_seq == Some(((seq0 + k - 1) % 0x1_0000) as u16)
    &&& state.cur_ts == Some(ts)
    &&& state.cur_frame == pending(s, ts)
    &&& !state.fu_active
}

/// A fragment that is not the first is not collected by a depacketizer that
/// collects no unit, or that sees a gap before the fragment.
proof fn lemma_fragment_ignored(
    before: DepacketizerState,
    s: DepacketizerState,
    ssrc: u32,
    seq0: int,
    ts: u32,
    nal: Seq<u8>,
    last_nal: bool,
    j: int,
)
    requires
        nal.len() > 1400,
        0 < j < fragment_count(nal.len() as int),
        pending(before, ts) == pending(s, ts),
        !before.fu_active || is_gap(before, ((seq0 + j) % 0x1_0000) as u16),
    ensures
        ({
            let r = step(before, nal_packet(ssrc, seq0, ts, nal, last_nal, j));
            let left = pending(s, ts);
            if j < fragment_count(nal.len() as int) - 1 {
                has_given_up(r.0, s, seq0, ts, j + 1) && r.1 is None
            } else {
                &&& r.0.cur_frame == if last_nal && left.len() > 0 {
                    Seq::<u8>::empty()
                } else {
                    left
                }
                &&& r.1 == if last_nal && left.len() > 0 {
                    Some(left)
                } else {
                    None
                }
            }
        }),
{
    reveal(step);
    let count = fragment_count(nal.len() as int);
    let last = j == count - 1;
    let packet = nal_packet(ssrc, seq0, ts, nal, last_nal, j);
    let payload = packet_payload(nal, j);
    lemma_nal_packet_parts(ssrc, seq0, ts, nal, last_nal, j);
    lemma_fragment_payload(nal, j);
    lemma_fragment_bytes(nal[0], false, last);
    let h = stream_header(ssrc, seq0 + j, ts, last_nal && last);
    assert(accepts(packet));
    let noted = note_header(before, h.sequence, ts);
    assert(!noted.fu_active);
    assert(noted.cur_frame == pending(s, ts));
    let got = absorb_fragment(noted, payload);
    assert(got.cur_frame == noted.cur_frame);
    assert(!got.fu_active);
    assert(absorb(noted, payload) == Some(got));
}

/// The fragments behind a lost one are not collected.
proof fn lemma_loss_tail(
    a: DepacketizerState,
    s: DepacketizerState,
    ssrc: u32,
    seq0: int,
    ts: u32,
    nal: Seq<u8>,
    last_nal: bool,
    lost: int,
    k: int,
)
    requires
        nal.len() > 1400,
        0 <= lost < k < fragment_count(nal.len() as int),
        pending(a, ts) == pending(s, ts),
        !a.fu_active || is_gap(a, ((seq0 + lost + 1) % 0x1_0000) as u16),
    ensures
        ({
            let tail = nal_packets(ssrc, seq0, ts, nal, last_nal).subrange(lost + 1, k + 1);
            let left = pending(s, ts);
            if k < fragment_count(nal.len() as int) - 1 {
                has_given_up(run(a, tail), s, seq0, ts, k + 1) && emitted(a, tail) == Seq::<
                    Seq<u8>,
                >::empty()
            } else {
                &&& run(a, tail).cur_frame == if last_nal && left.len() > 0 {
                    Seq::<u8>::empty()
                } else {
                    left
                }
                &&& emitted(a, tail) == if last_nal && left.len() > 0 {
                    seq![left]
                } else {
                    Seq::<Seq<u8>>::empty()
                }
            }
        }),
    decreases k - lost,
{
    let all = nal_packets(ssrc, seq0, ts, nal, last_nal);
    let tail = all.subrange(lost + 1, k + 1);
    let left = pending(s, ts);
    assert(tail.drop_last() =~= all.subrange(lost + 1, k));
    assert(tail.last() == nal_packet(ssrc, seq0, ts, nal, last_nal, k));
    let before = run(a, tail.drop_last());
    if k == lost + 1 {
        assert(before == a);
        assert(emitted(a, tail.drop_last()) =~= Seq::<Seq<u8>>::empty());
    } else {
        lemma_loss_tail(a, s, ssrc, seq0, ts, nal, last_nal, lost, k - 1);
        assert(has_given_up(before, s, seq0, ts, k));
    }
    lemma_fragment_ignored(before, s, ssrc, seq0, ts, nal, last_nal, k);
    if k == fragment_count(nal.len() as int) - 1 && last_nal && left.len() > 0 {
        assert(emitted(a, tail) =~= seq![left]);
    }
}

/// A NAL unit of which a fragment is lost reaches no access unit: a
/// depacketizer that took the packet before the unit and then takes all
/// fragments of the unit but one holds, and hands out, what it did before.
/// What it held of the access unit is handed out with the last fragment if
/// this was the last unit of the access unit, and stays with it otherwise.
pub proof fn lemma_lost_fragment(
    s: DepacketizerState,
    ssrc: u32,
    seq0: int,
    ts: u32,
    nal: Seq<u8>,
    last_nal: bool,
    lost: int,
)
    requires
        nal.len() > 1400,
        0 <= lost < fragment_count(nal.len() as int),
        s.last_seq == Some(((seq0 - 1) % 0x1_0000) as u16),
    ensures
        ({
            let received = nal_packets(ssrc, seq0, ts, nal, last_nal).remove(lost);
            let left = pending(s, ts);
            let closes = last_nal && lost < fragment_count(nal.len() as int) - 1 && left.len() > 0;
            &&& run(s, received).cur_frame == if closes {
                Seq::<u8>::empty()
            } else {
                left
            }
            &&& emitted(s, received) == if closes {
                seq![left]
            } else {
                Seq::<Seq<u8>>::empty()
            }
        }),
{
    let all = nal_packets(ssrc, seq0, ts, nal, last_nal);
    let count = fragment_count(nal.len() as int);
    let head = all.subrange(0, lost);
    let tail = all.subrange(lost + 1, count);
    assert(all.remove(lost) =~= head + tail);
    lemma_run_concat(s, head, tail);
    let a = run(s, head);
    if lost == 0 {
        assert(a == s);
        assert(emitted(s, head) =~= Seq::<Seq<u8>>::empty());
    } else {
        lemma_fragments_collected(s, ssrc, seq0, ts, nal, last_nal, lost);
        assert(a == after_fragments(s, seq0, ts, nal, lost));
    }
    if lost < count - 1 {
        lemma_loss_tail(a, s, ssrc, seq0, ts, nal, last_nal, lost, count - 1);
        assert(emitted(s, head) + emitted(a, tail) =~= emitted(a, tail));
    } else {
        assert(tail =~= Seq::<Seq<u8>>::empty());
        assert(emitted(s, head) + emitted(a, tail) =~= Seq::<Seq<u8>>::empty());
    }
}

/// The packets of one NAL unit bring the unit to the depacketizer whole:
/// it joins what is held of the access unit, and the access unit is handed
/// out with the last packet if this is its last unit.
pub proof fn lemma_unit_arrives(
    s: DepacketizerState,
    ssrc: u32,
    seq0: int,
    ts: u32,
    nal: Seq<u8>,
    last_nal: bool,
)
    requires
        is_sendable_unit(nal),
    ensures
        ({
            let all = nal_packets(ssrc, seq0, ts, nal, last_nal);
            let whole = pending(s, ts) + start_code() + nal;
            &&& run(s, all).cur_ts == Some(ts)
            &&& run(s, all).cur_frame == if last_nal {
                Seq::<u8>::empty()
            } else {
                whole
            }
            &&& emitted(s, all) == if last_nal {
                seq![whole]
            } else {
                Seq::<Seq<u8>>::empty()
            }
            &&& emitted(s, all.drop_last()) == Seq::<Seq<u8>>::empty()
        }),
{
    if nal.len() <= 1400 {
        let all = nal_packets(ssrc, seq0, ts, nal, last_nal);
        lemma_whole_unit(s, ssrc, seq0, ts, nal, last_nal);
        assert(all.len() == 1);
        assert(all.drop_last() =~= Seq::<Seq<u8>>::empty());
        assert(all.last() == nal_packet(ssrc, seq0, ts, nal, last_nal, 0));
        assert(run(s, all.drop_last()) == s);
        assert(emitted(s, all.drop_last()) =~= Seq::<Seq<u8>>::empty());
        if last_nal {
            let whole = pending(s, ts) + start_code() + nal;
            assert(emitted(s, all) =~= seq![whole]);
        }
    } else {
        lemma_fragmented_unit(s, ssrc, seq0, ts, nal, last_nal);
    }
}

proof fn lemma_units_arrive(
    s: DepacketizerState,
    ssrc: u32,
    seq0: int,
    ts: u32,
    nals: Seq<Seq<u8>>,
    from: int,
)
    requires
        0 <= from < nals.len(),
        forall|i: int| 0 <= i < nals.len() ==> is_sendable_unit(#[trigger] nals[i]),
    ensures
        ({
            let all = unit_packets(ssrc, seq0, ts, nals, from);
            &&& all.len() > 0
            &&& run(s, all).cur_frame == Seq::<u8>::empty()
            &&& emitted(s, all) == seq![pending(s, ts) + joined_from(nals, from)]
            &&& emitted(s, all.drop_last()) == Seq::<Seq<u8>>::empty()
        }),
    decreases nals.len() - from,
{
    let nal = nals[from];
    let last_nal = from == nals.len() - 1;
    let a = nal_packets(ssrc, seq0, ts, nal, last_nal);
    let next = seq0 + fragment_count(nal.len() as int);
    let b = unit_packets(ssrc, next, ts, nals, from + 1);
    let all = unit_packets(ssrc, seq0, ts, nals, from);
    assert(all == a + b);
    assert(is_sendable_unit(nal));
    lemma_unit_arrives(s, ssrc, seq0, ts, nal, last_nal);
    if last_nal {
        assert(b =~= Seq::<Seq<u8>>::empty());
        assert(a + b =~= a);
        assert(joined_from(nals, from + 1) =~= Seq::<u8>::empty());
        assert(pending(s, ts) + joined_from(nals, from) =~= pending(s, ts) + start_code() + nal);
    } else {
        let mid = run(s, a);
        lemma_units_arrive(mid, ssrc, next, ts, nals, from + 1);
        lemma_run_concat(s, a, b);
        assert(pending(mid, ts) == pending(s, ts) + start_code() + nal);
        assert(pending(mid, ts) + joined_from(nals, from + 1) =~= pending(s, ts) + joined_from(
            nals,
            from,
        ));
        assert(emitted(s, a) + emitted(mid, b) =~= emitted(mid, b));
        assert((a + b).drop_last() =~= a + b.drop_last());
        lemma_run_concat(s, a, b.drop_last());
        assert(emitted(s, a) + emitted(mid, b.drop_last()) =~= Seq::<Seq<u8>>::empty());
    }
}

/// Packetizing an access unit and depacketizing the packets in order gives
/// the access unit back: the same NAL units in the same order, each behind a
/// four-byte start code. It is handed out with the last packet and not
/// before, and nothing of it is left in the depacketizer.
///
/// This holds of a depacketizer that has seen no packet, and of any that
/// holds nothing of this access unit yet.
pub proof fn lemma_round_trip(
    s: DepacketizerState,
    ssrc: u32,
    seq0: u16,
    ts: u32,
    nals: Seq<Seq<u8>>,
)
    requires
        nals.len() > 0,
        forall|i: int| 0 <= i < nals.len() ==> is_sendable_unit(#[trigger] nals[i]),
        s.cur_ts != Some(ts) || s.cur_frame.len() == 0,
    ensures
        ({
            let packets = access_unit_packets(ssrc, seq0 as int, ts, nals);
            &&& packets.len() > 0
            &&& emitted(s, packets) == seq![annexb_join(nals)]
            &&& emitted(s, packets.drop_last()) == Seq::<Seq<u8>>::empty()
            &&& run(s, packets).cur_frame.len() == 0
        }),
{
    lemma_units_arrive(s, ssrc, seq0 as int, ts, nals, 0);
    assert(pending(s, ts) =~= Seq::<u8>::empty());
    assert(pending(s, ts) + joined_from(nals, 0) =~= joined_from(nals, 0));
}

/// An access unit that is packetized, sent whole and depacketized arrives
/// as an access unit with the same NAL units in the same order: it is handed
/// out once, with the last packet, and splitting what is handed out gives
/// the NAL units of what was sent.
///
/// Asked of the access unit: it holds a NAL unit, and each NAL unit of at
/// most 1400 bytes has a type from 1 to 23.
pub proof fn lemma_access_unit_round_trip(
    s: DepacketizerState,
    ssrc: u32,
    seq0: u16,
    ts: u32,
    data: Seq<u8>,
)
    requires
        nal_units(data).len() > 0,
        forall|i: int|
            0 <= i < nal_units(data).len() && (#[trigger] nal_units(data)[i]).len() <= 1400 ==> 1
                <= nal_units(data)[i][0] as int % 32 <= 23,
        s.cur_ts != Some(ts) || s.cur_frame.len() == 0,
    ensures
        ({
            let packets = access_unit_packets(ssrc, seq0 as int, ts, nal_units(data));
            let arrived = emitted(s, packets);
            &&& arrived.len() == 1
            &&& emitted(s, packets.drop_last()).len() == 0
            &&& arrived[0] == annexb_join(nal_units(data))
            &&& nal_units(arrived[0]) == nal_units(data)
        }),
{
    let nals = nal_units(data);
    lemma_nal_units_are_clean(data);
    assert forall|i: int| 0 <= i < nals.len() implies is_sendable_unit(#[trigger] nals[i]) by {}
    lemma_round_trip(s, ssrc, seq0, ts, nals);
    lemma_split_of_join(nals);
}

} // verus!
