//! The receiving end of the legacy framing: frames arrive as numbered
//! fragments ([`FramePacket`]) and are put together again before they are
//! decoded.

use crate::decoder::H264Decoder;
use crate::discovery::elapsed_ms;
use crate::types::{BroadcastConfig, BroadcastError, FramePacket, FramePacketView, PacketType};
use std::collections::HashMap;
use vstd::prelude::*;

verus! {

broadcast use vstd::std_specs::hash::group_hash_axioms;

/// Milliseconds after which an unfinished frame is given up.
pub const FRAME_TIMEOUT_MS: u64 = 500;

/// How far, in frame numbers, a fragment may lag behind the frame completed
/// last and still be taken.
pub const FRAME_LAG: u32 = 10;

/// A decoded picture with the timestamp and kind of the frame it came from.
#[derive(Debug)]
pub struct DecodedFrame {
    pub rgba_data: Vec<u8>,
    pub width: u32,
    pub height: u32,
    pub timestamp: u32,
    pub is_keyframe: bool,
}

impl Clone for DecodedFrame {
    fn clone(&self) -> (copy: Self)
        ensures
            copy.rgba_data@ == self.rgba_data@,
            copy.width == self.width,
            copy.height == self.height,
            copy.timestamp == self.timestamp,
            copy.is_keyframe == self.is_keyframe,
    {
        DecodedFrame {
            rgba_data: self.rgba_data.clone(),
            width: self.width,
            height: self.height,
            timestamp: self.timestamp,
            is_keyframe: self.is_keyframe,
        }
    }
}

/// The fragments of one frame that have arrived.
struct FrameFragments {
    data: Vec<Option<Vec<u8>>>,
    total: u16,
    received: u16,
    is_keyframe: bool,
    timestamp: u32,
    created_at: u64,
}

/// The fragments of one frame that have arrived, as a mathematical value.
pub struct FragmentsView {
    /// One place for each fragment of the frame, filled where the fragment
    /// has arrived.
    pub slots: Seq<Option<Seq<u8>>>,
    /// How many fragments the frame has.
    pub total: u16,
    /// How many of them have arrived.
    pub received: u16,
    pub is_keyframe: bool,
    pub timestamp: u32,
    /// Time at which the first fragment arrived.
    pub created_at: u64,
}

/// A frame assembler as a mathematical value.
pub struct AssemblerView {
    /// The unfinished frames by their number.
    pub frames: Map<u32, FragmentsView>,
    /// Number of the frame completed last.
    pub last_complete_frame: u32,
}

spec fn slot_views(data: Seq<Option<Vec<u8>>>) -> Seq<Option<Seq<u8>>> {
    Seq::new(
        data.len(),
        |i: int|
            match data[i] {
                Some(bytes) => Some(bytes@),
                None => None,
            },
    )
}

spec fn fragments_view(f: FrameFragments) -> FragmentsView {
    FragmentsView {
        slots: slot_views(f.data@),
        total: f.total,
        received: f.received,
        is_keyframe: f.is_keyframe,
        timestamp: f.timestamp,
        created_at: f.created_at,
    }
}

spec fn frames_view(fragments: Map<u32, FrameFragments>) -> Map<u32, FragmentsView> {
    Map::new(|k: u32| fragments.contains_key(k), |k: u32| fragments_view(fragments[k]))
}

/// How many places are filled.
pub open spec fn filled(slots: Seq<Option<Seq<u8>>>) -> int
    decreases slots.len(),
{
    if slots.len() == 0 {
        0
    } else {
        filled(slots.drop_last()) + if slots.last() is Some {
            1int
        } else {
            0int
        }
    }
}

/// The fragments that have arrived, one behind the other.
pub open spec fn joined_slots(slots: Seq<Option<Seq<u8>>>) -> Seq<u8>
    decreases slots.len(),
{
    if slots.len() == 0 {
        Seq::empty()
    } else {
        joined_slots(slots.drop_last()) + match slots.last() {
            Some(bytes) => bytes,
            None => Seq::empty(),
        }
    }
}

/// The frame has a place for each of its fragments and has counted those
/// that are filled.
pub open spec fn fragments_wf(f: FragmentsView) -> bool {
    f.slots.len() == f.total && f.received == filled(f.slots)
}

/// A fragment of the frame `frame_id` comes too late: the frame lags more
/// than ten frames behind the frame completed last.
pub open spec fn is_outdated(last_complete_frame: u32, frame_id: u32) -> bool {
    frame_id as int + 10 < last_complete_frame
}

/// What an assembler holds of a frame of which `packet` is the first
/// fragment to arrive, before the fragment is put in.
pub open spec fn first_sight(packet: FramePacketView, now: u64) -> FragmentsView {
    FragmentsView {
        slots: Seq::new(packet.total_fragments as nat, |i: int| None),
        total: packet.total_fragments,
        received: 0,
        is_keyframe: packet.packet_type == PacketType::KeyFrame,
        timestamp: packet.timestamp,
        created_at: now,
    }
}

/// The frame with the fragment `packet` put in its place, if the frame has
/// the place and it is free. A key frame fragment makes the frame a key
/// frame.
pub open spec fn with_fragment(f: FragmentsView, packet: FramePacketView) -> FragmentsView {
    let is_keyframe = f.is_keyframe || packet.packet_type == PacketType::KeyFrame;
    let idx = packet.fragment_idx as int;
    if idx < f.slots.len() && f.slots[idx] is None {
        FragmentsView {
            slots: f.slots.update(idx, Some(packet.data)),
            received: (f.received + 1) as u16,
            is_keyframe,
            ..f
        }
    } else {
        FragmentsView { is_keyframe, ..f }
    }
}

/// The frame was begun less than half a second before `now`.
pub open spec fn is_recent(f: FragmentsView, now: u64) -> bool {
    elapsed_ms(now, f.created_at) < 500
}

/// The unfinished frames that are recent at `now`.
pub open spec fn recent_frames(frames: Map<u32, FragmentsView>, now: u64) -> Map<
    u32,
    FragmentsView,
> {
    Map::new(|k: u32| frames.contains_key(k) && is_recent(frames[k], now), |k: u32| frames[k])
}

/// A frame put together: its bytes, whether it is a key frame, and its
/// timestamp.
pub struct Assembled {
    pub data: Seq<u8>,
    pub is_keyframe: bool,
    pub timestamp: u32,
}

/// What a fragment that arrives at `now` does to an assembler: the
/// assembler afterwards, and the frame that the fragment completes, if it
/// completes one.
///
/// An outdated fragment changes nothing. Any other is put in its frame. A
/// frame of which as many fragments have arrived as it has is complete: it
/// leaves the assembler, and with it leave the unfinished frames that are
/// no longer recent.
pub open spec fn after_fragment(view: AssemblerView, packet: FramePacketView, now: u64) -> (
    AssemblerView,
    Option<Assembled>,
) {
    if is_outdated(view.last_complete_frame, packet.frame_id) {
        (view, None)
    } else {
        let known = if view.frames.contains_key(packet.frame_id) {
            view.frames[packet.frame_id]
        } else {
            first_sight(packet, now)
        };
        let entry = with_fragment(known, packet);
        if entry.received == entry.total {
            (
                AssemblerView {
                    frames: recent_frames(view.frames.remove(packet.frame_id), now),
                    last_complete_frame: packet.frame_id,
                },
                Some(
                    Assembled {
                        data: joined_slots(entry.slots),
                        is_keyframe: entry.is_keyframe,
                        timestamp: entry.timestamp,
                    },
                ),
            )
        } else {
            (AssemblerView { frames: view.frames.insert(packet.frame_id, entry), ..view }, None)
        }
    }
}

/// The view of a frame handed out, if one is.
pub open spec fn assembled_view(out: Option<(Vec<u8>, bool, u32)>) -> Option<Assembled> {
    match out {
        Some((data, is_keyframe, timestamp)) => Some(
            Assembled { data: data@, is_keyframe, timestamp },
        ),
        None => None,
    }
}

proof fn lemma_filled_bounds(slots: Seq<Option<Seq<u8>>>)
    ensures
        0 <= filled(slots) <= slots.len(),
    decreases slots.len(),
{
    if slots.len() > 0 {
        lemma_filled_bounds(slots.drop_last());
    }
}

proof fn lemma_filled_update(slots: Seq<Option<Seq<u8>>>, idx: int, bytes: Seq<u8>)
    requires
        0 <= idx < slots.len(),
        slots[idx] is None,
    ensures
        filled(slots.update(idx, Some(bytes))) == filled(slots) + 1,
        filled(slots) < slots.len(),
    decreases slots.len(),
{
    let after = slots.update(idx, Some(bytes));
    if idx == slots.len() - 1 {
        assert(after.drop_last() =~= slots.drop_last());
        lemma_filled_bounds(slots.drop_last());
    } else {
        assert(after.drop_last() =~= slots.drop_last().update(idx, Some(bytes)));
        lemma_filled_update(slots.drop_last(), idx, bytes);
    }
}

proof fn lemma_filled_empty(n: nat)
    ensures
        filled(Seq::new(n, |i: int| None::<Seq<u8>>)) == 0,
    decreases n,
{
    if n > 0 {
        let slots = Seq::new(n, |i: int| None::<Seq<u8>>);
        assert(slots.drop_last() =~= Seq::new((n - 1) as nat, |i: int| None::<Seq<u8>>));
        lemma_filled_empty((n - 1) as nat);
    }
}

/// The fragments that have arrived, one behind the other.
fn join_fragments(data: &Vec<Option<Vec<u8>>>) -> (joined: Vec<u8>)
    ensures
        joined@ == joined_slots(slot_views(data@)),
{
    let mut joined: Vec<u8> = Vec::new();
    let mut i: usize = 0;
    while i < data.len()
        invariant
            i <= data.len(),
            joined@ == joined_slots(slot_views(data@).subrange(0, i as int)),
        decreases data.len() - i,
    {
        proof {
            let upto = slot_views(data@).subrange(0, i + 1);
            assert(upto.drop_last() =~= slot_views(data@).subrange(0, i as int));
            assert(upto.last() == slot_views(data@)[i as int]);
        }
        let ghost before = joined@;
        match &data[i] {
            Some(bytes) => {
                joined.extend_from_slice(bytes.as_slice());
                assert(joined@ =~= before + bytes@);
            },
            None => {
                assert(before + Seq::<u8>::empty() =~= before);
            },
        }
        i = i + 1;
    }
    assert(slot_views(data@).subrange(0, i as int) =~= slot_views(data@));
    joined
}

/// Tells whether a frame was begun less than `timeout` ms before `now`.
fn begun_recently(entry: &FrameFragments, now: u64, timeout: u64) -> (recent: bool)
    ensures
        recent == (elapsed_ms(now, entry.created_at) < timeout),
{
    let elapsed: u64 = if now >= entry.created_at {
        now - entry.created_at
    } else {
        0
    };
    elapsed < timeout
}

/// Calls `HashMap::retain` with [`begun_recently`] for its predicate: the
/// map keeps the entries of which the predicate says true, as they are, and
/// loses the others.
#[verifier::external_body]
fn retain_recent(fragments: &mut HashMap<u32, FrameFragments>, now: u64, timeout: u64)
    ensures
        forall|k: u32|
            final(fragments)@.contains_key(k) <==> old(fragments)@.contains_key(k) && elapsed_ms(
                now,
                old(fragments)@[k].created_at,
            ) < timeout,
        forall|k: u32|
            final(fragments)@.contains_key(k) ==> final(fragments)@[k] == old(fragments)@[k],
{
    fragments.retain(|_, entry| begun_recently(entry, now, timeout));
}

/// Puts frames together from their fragments.
pub struct FrameAssembler {
    fragments: HashMap<u32, FrameFragments>,
    last_complete_frame: u32,
}

impl View for FrameAssembler {
    type V = AssemblerView;

    closed spec fn view(&self) -> AssemblerView {
        AssemblerView {
            frames: frames_view(self.fragments@),
            last_complete_frame: self.last_complete_frame,
        }
    }
}

impl FrameAssembler {
    /// Every unfinished frame has a place for each of its fragments and has
    /// counted those that are filled.
    pub open spec fn wf(&self) -> bool {
        forall|k: u32| self@.frames.contains_key(k) ==> fragments_wf(#[trigger] self@.frames[k])
    }

    pub fn new() -> (assembler: Self)
        ensures
            assembler.wf(),
            assembler@.frames == Map::<u32, FragmentsView>::empty(),
            assembler@.last_complete_frame == 0,
    {
        let assembler = FrameAssembler { fragments: HashMap::new(), last_complete_frame: 0 };
        assert(assembler@.frames =~= Map::<u32, FragmentsView>::empty());
        assembler
    }

    /// Takes a fragment that arrives at the time `now_ms`. Returns the frame
    /// that it completes, if it completes one: its bytes, whether it is a key
    /// frame, and its timestamp.
    pub fn add_packet(&mut self, packet: FramePacket, now_ms: u64) -> (out: Option<
        (Vec<u8>, bool, u32),
    >)
        requires
            old(self).wf(),
        ensures
            final(self).wf(),
            (final(self)@, assembled_view(out)) == after_fragment(old(self)@, packet@, now_ms),
    {
        let ghost before = self@;
        let ghost packet_view = packet@;
        let frame_id: u32 = packet.frame_id;
        if frame_id < self.last_complete_frame.saturating_sub(FRAME_LAG) {
            return None;
        }
        let is_keyframe: bool = match packet.packet_type {
            PacketType::KeyFrame => true,
            _ => false,
        };
        let mut entry: FrameFragments = match self.fragments.remove(&frame_id) {
            Some(known) => known,
            None => {
                proof {
                    lemma_filled_empty(packet.total_fragments as nat);
                }
                let first = FrameFragments {
                    data: empty_slots(packet.total_fragments),
                    total: packet.total_fragments,
                    received: 0,
                    is_keyframe,
                    timestamp: packet.timestamp,
                    created_at: now_ms,
                };
                assert(fragments_view(first).slots =~= first_sight(packet_view, now_ms).slots);
                first
            },
        };
        let ghost known = fragments_view(entry);
        let ghost others = self.fragments@;
        assert(known == if before.frames.contains_key(frame_id) {
            before.frames[frame_id]
        } else {
            first_sight(packet_view, now_ms)
        });
        assert(fragments_wf(known));
        if !entry.is_keyframe && is_keyframe {
            entry.is_keyframe = true;
        }
        let idx: usize = packet.fragment_idx as usize;
        if idx < entry.data.len() && entry.data[idx].is_none() {
            proof {
                lemma_filled_update(known.slots, idx as int, packet.data@);
            }
            entry.data.set(idx, Some(packet.data));
            entry.received = entry.received + 1;
            assert(slot_views(entry.data@) =~= known.slots.update(idx as int, Some(packet_view.data)));
        }
        assert(fragments_view(entry) == with_fragment(known, packet_view));
        assert(frames_view(others) =~= before.frames.remove(frame_id));
        if entry.received == entry.total {
            let data: Vec<u8> = join_fragments(&entry.data);
            let is_key: bool = entry.is_keyframe;
            let timestamp: u32 = entry.timestamp;
            self.last_complete_frame = frame_id;
            self.cleanup_old_frames(now_ms);
            return Some((data, is_key, timestamp));
        }
        self.fragments.insert(frame_id, entry);
        assert(self@.frames =~= before.frames.insert(frame_id, with_fragment(known, packet_view)));
        None
    }

    /// Gives up the unfinished frames that were begun half a second before
    /// `now_ms` or earlier.
    pub fn cleanup_old_frames(&mut self, now_ms: u64)
        ensures
            final(self)@.frames == recent_frames(old(self)@.frames, now_ms),
            final(self)@.last_complete_frame == old(self)@.last_complete_frame,
            old(self).wf() ==> final(self).wf(),
    {
        retain_recent(&mut self.fragments, now_ms, FRAME_TIMEOUT_MS);
        assert(self@.frames =~= recent_frames(old(self)@.frames, now_ms));
    }
}

/// A frame's places, all free.
fn empty_slots(total: u16) -> (slots: Vec<Option<Vec<u8>>>)
    ensures
        slots.len() == total,
        forall|i: int| 0 <= i < total ==> slots@[i] is None,
{
    let mut slots: Vec<Option<Vec<u8>>> = Vec::new();
    let mut i: u16 = 0;
    while i < total
        invariant
            i <= total,
            slots.len() == i,
            forall|k: int| 0 <= k < i ==> slots@[k] is None,
        decreases total - i,
    {
        slots.push(None);
        i = i + 1;
    }
    slots
}

/// A decoded picture with the timestamp and kind of its frame.
pub fn tag_frame(picture: crate::decoder::DecodedFrame, is_keyframe: bool, timestamp: u32) -> (frame:
    DecodedFrame)
    ensures
        frame.rgba_data@ == picture.rgba_data@,
        frame.width == picture.width,
        frame.height == picture.height,
        frame.timestamp == timestamp,
        frame.is_keyframe == is_keyframe,
{
    DecodedFrame {
        rgba_data: picture.rgba_data,
        width: picture.width,
        height: picture.height,
        timestamp,
        is_keyframe,
    }
}

/// The receiving end of the legacy framing: assembler and decoder of one
/// stream. It decodes nothing before a key frame has arrived.
pub struct StreamReceiver {
    decoder: H264Decoder,
    assembler: FrameAssembler,
    #[allow(dead_code)]
    width: u32,
    #[allow(dead_code)]
    height: u32,
    running: bool,
    waiting_for_keyframe: bool,
}

impl StreamReceiver {
    pub closed spec fn wf(&self) -> bool {
        self.assembler.wf()
    }

    pub closed spec fn assembler(&self) -> FrameAssembler {
        self.assembler
    }

    pub closed spec fn decoder(&self) -> H264Decoder {
        self.decoder
    }

    pub closed spec fn spec_waiting(&self) -> bool {
        self.waiting_for_keyframe
    }

    pub closed spec fn spec_running(&self) -> bool {
        self.running
    }

    /// A receiver for the stream that `config` describes. It holds no
    /// fragment, waits for a key frame and is not running. Fails with a
    /// `DecoderError` if the codec cannot be set up.
    pub fn new(config: &BroadcastConfig) -> (made: Result<Self, BroadcastError>)
        ensures
            made matches Ok(r) ==> r.wf() && r.assembler()@.frames == Map::<
                u32,
                FragmentsView,
            >::empty() && r.assembler()@.last_complete_frame == 0 && r.spec_waiting()
                && !r.spec_running(),
            made matches Err(e) ==> e is DecoderError,
    {
        match H264Decoder::new() {
            Ok(decoder) => Ok(
                StreamReceiver {
                    decoder,
                    assembler: FrameAssembler::new(),
                    width: config.width,
                    height: config.height,
                    running: false,
                    waiting_for_keyframe: true,
                },
            ),
            Err(error) => Err(error),
        }
    }

    /// Takes a fragment that arrives at `now_ms`. Where the fragment
    /// completes a frame, the frame is decoded, unless the receiver still
    /// waits for a key frame and the frame is none. A frame that the decoder
    /// fails on gives no picture.
    pub fn process(&mut self, packet: FramePacket, now_ms: u64) -> (out: Option<DecodedFrame>)
        requires
            old(self).wf(),
        ensures
            final(self).wf(),
            final(self).spec_running() == old(self).spec_running(),
            final(self).assembler()@ == after_fragment(old(self).assembler()@, packet@, now_ms).0,
            match after_fragment(old(self).assembler()@, packet@, now_ms).1 {
                None => out is None && final(self).spec_waiting() == old(self).spec_waiting()
                    && final(self).decoder() == old(self).decoder(),
                Some(frame) => if old(self).spec_waiting() && !frame.is_keyframe {
                    &&& out is None
                    &&& final(self).spec_waiting()
                    &&& final(self).decoder() == old(self).decoder()
                } else {
                    !final(self).spec_waiting() && (out matches Some(picture)
                        ==> picture.timestamp == frame.timestamp && picture.is_keyframe
                        == frame.is_keyframe)
                },
            },
    {
        match self.assembler.add_packet(packet, now_ms) {
            Some((frame_data, is_keyframe, timestamp)) => {
                if self.waiting_for_keyframe && !is_keyframe {
                    return None;
                }
                self.waiting_for_keyframe = false;
                self.decode_frame(frame_data.as_slice(), is_keyframe, timestamp)
            },
            None => None,
        }
    }

    fn decode_frame(&mut self, h264_data: &[u8], is_keyframe: bool, timestamp: u32) -> (out: Option<
        DecodedFrame,
    >)
        ensures
            final(self).assembler() == old(self).assembler(),
            final(self).spec_waiting() == old(self).spec_waiting(),
            final(self).spec_running() == old(self).spec_running(),
            out matches Some(picture) ==> {
                &&& picture.timestamp == timestamp
                &&& picture.is_keyframe == is_keyframe
                &&& picture.rgba_data.len() == picture.width * picture.height * 4
            },
            final(self).decoder().spec_frame_count() as int == if out is Some {
                (old(self).decoder().spec_frame_count() + 1) % 0x1_0000_0000_0000_0000
            } else {
                old(self).decoder().spec_frame_count() as int
            },
    {
        picture_of_answer(self.decoder.decode(h264_data), is_keyframe, timestamp)
    }

    pub fn start(&mut self)
        ensures
            final(self).spec_running(),
            final(self).assembler() == old(self).assembler(),
            final(self).decoder() == old(self).decoder(),
            final(self).spec_waiting() == old(self).spec_waiting(),
    {
        self.running = true;
    }

    pub fn is_running(&self) -> (running: bool)
        ensures
            running == self.spec_running(),
    {
        self.running
    }

    pub fn stop(&mut self)
        ensures
            !final(self).spec_running(),
            final(self).assembler() == old(self).assembler(),
            final(self).decoder() == old(self).decoder(),
            final(self).spec_waiting() == old(self).spec_waiting(),
    {
        self.running = false;
    }
}

/// What the receiver makes of the decoder's answer for a frame: the picture
/// with the frame's timestamp and kind, if the decoder gave one. A frame
/// that the decoder failed on gives none.
pub fn picture_of_answer(
    answer: Result<Option<crate::decoder::DecodedFrame>, BroadcastError>,
    is_keyframe: bool,
    timestamp: u32,
) -> (out: Option<DecodedFrame>)
    ensures
        match answer {
            Ok(Some(picture)) => out matches Some(frame) && frame.rgba_data@ == picture.rgba_data@
                && frame.width == picture.width && frame.height == picture.height
                && frame.timestamp == timestamp && frame.is_keyframe == is_keyframe,
            Ok(None) => out is None,
            Err(_) => out is None,
        },
{
    match answer {
        Ok(Some(picture)) => Some(tag_frame(picture, is_keyframe, timestamp)),
        Ok(None) => None,
        Err(_) => None,
    }
}

} // verus!
