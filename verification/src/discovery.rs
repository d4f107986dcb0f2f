//! Peer discovery on the local network: who announced itself, in which role,
//! and how long ago.
//!
//! Every participant sends an announcement every two seconds, answers a
//! query with a response, and forgets a peer that it has not heard of for ten
//! seconds. A datagram is the magic `SCRSHARE` followed by the message as
//! JSON. Sockets and JSON are the caller's part: this module decides what a
//! message does to the table of peers and what is sent in return. Time is a
//! count of milliseconds on any clock that does not run backwards.

use crate::clock::wall_clock_nanos;
use crate::hex::{hex_digits, to_hex};
use vstd::prelude::*;

verus! {

/// UDP port of the discovery protocol.
pub const DISCOVERY_PORT: u16 = 5001;

/// The bytes `SCRSHARE`, which begin every discovery datagram.
pub const DISCOVERY_MAGIC: [u8; 8] = [0x53, 0x43, 0x52, 0x53, 0x48, 0x41, 0x52, 0x45];

/// Milliseconds between two announcements.
pub const ANNOUNCE_INTERVAL_MS: u64 = 2000;

/// Milliseconds after which a silent peer is forgotten.
pub const PEER_TIMEOUT_MS: u64 = 10000;

/// Version that a participant names in its announcements.
pub const PROTOCOL_VERSION: &'static str = "0.1.0";

#[derive(Clone, Copy, Debug, PartialEq, Eq, Structural)]
pub enum PeerRole {
    Teacher,
    Student,
}

/// What a participant tells about itself.
#[derive(Debug)]
pub struct PeerInfo {
    /// Opaque identifier, hexadecimal text made from the clock at start.
    pub id: String,
    pub name: String,
    pub role: PeerRole,
    /// Address of the peer. A receiver puts the datagram's source here.
    pub ip: String,
    pub stream_port: u16,
    pub version: String,
}

/// A [`PeerInfo`] as a mathematical value.
pub struct PeerInfoView {
    pub id: Seq<char>,
    pub name: Seq<char>,
    pub role: PeerRole,
    pub ip: Seq<char>,
    pub stream_port: u16,
    pub version: Seq<char>,
}

impl View for PeerInfo {
    type V = PeerInfoView;

    open spec fn view(&self) -> PeerInfoView {
        PeerInfoView {
            id: self.id@,
            name: self.name@,
            role: self.role,
            ip: self.ip@,
            stream_port: self.stream_port,
            version: self.version@,
        }
    }
}

impl Clone for PeerInfo {
    fn clone(&self) -> (copy: Self)
        ensures
            copy@ == self@,
    {
        PeerInfo {
            id: self.id.clone(),
            name: self.name.clone(),
            role: self.role,
            ip: self.ip.clone(),
            stream_port: self.stream_port,
            version: self.version.clone(),
        }
    }
}

/// A message of the discovery protocol.
#[derive(Debug)]
pub enum DiscoveryMessage {
    /// Sent by every participant every two seconds.
    Announce(PeerInfo),
    /// Asks every participant for a response at once.
    Query,
    /// The answer to a query, sent to the asker alone.
    Response(PeerInfo),
}

/// A [`DiscoveryMessage`] as a mathematical value.
pub enum MessageView {
    Announce(PeerInfoView),
    Query,
    Response(PeerInfoView),
}

impl View for DiscoveryMessage {
    type V = MessageView;

    open spec fn view(&self) -> MessageView {
        match self {
            DiscoveryMessage::Announce(peer) => MessageView::Announce(peer@),
            DiscoveryMessage::Query => MessageView::Query,
            DiscoveryMessage::Response(peer) => MessageView::Response(peer@),
        }
    }
}

/// A peer in the table, with the time at which it was heard of last.
pub struct PeerRecord {
    pub info: PeerInfoView,
    pub last_seen: u64,
}

/// A discovery service as a mathematical value.
pub struct DiscoveryView {
    /// What this participant tells about itself.
    pub local: PeerInfoView,
    /// The table of peers, in the order in which they were first heard of.
    pub peers: Seq<PeerRecord>,
    pub running: bool,
}

/// The table has a record of the peer `id`.
pub open spec fn knows(peers: Seq<PeerRecord>, id: Seq<char>) -> bool {
    exists|i: int| 0 <= i < peers.len() && (#[trigger] peers[i]).info.id == id
}

/// No two records of the table are of one peer.
pub open spec fn distinct_ids(peers: Seq<PeerRecord>) -> bool {
    forall|i: int, j: int|
        0 <= i < j < peers.len() ==> (#[trigger] peers[i]).info.id != (#[trigger] peers[j]).info.id
}

/// The table with `record` in it: in the place of the record that the table
/// had of that peer, or at the end.
pub open spec fn upsert(peers: Seq<PeerRecord>, record: PeerRecord) -> Seq<PeerRecord> {
    if knows(peers, record.info.id) {
        Seq::new(
            peers.len(),
            |i: int|
                if peers[i].info.id == record.info.id {
                    record
                } else {
                    peers[i]
                },
        )
    } else {
        peers.push(record)
    }
}

/// Milliseconds from `earlier` to `now`; none if `earlier` is not earlier.
pub open spec fn elapsed_ms(now: u64, earlier: u64) -> int {
    if now >= earlier {
        now - earlier
    } else {
        0
    }
}

/// The peer was heard of less than ten seconds before `now`.
pub open spec fn is_live(record: PeerRecord, now: u64) -> bool {
    elapsed_ms(now, record.last_seen) < 10000
}

/// The records of the table that are live at `now`, in their order.
pub open spec fn live_peers(peers: Seq<PeerRecord>, now: u64) -> Seq<PeerRecord>
    decreases peers.len(),
{
    if peers.len() == 0 {
        Seq::empty()
    } else {
        let before = live_peers(peers.drop_last(), now);
        if is_live(peers.last(), now) {
            before.push(peers.last())
        } else {
            before
        }
    }
}

/// The peers of a list that have the role `role`, in their order.
pub open spec fn with_role(infos: Seq<PeerInfoView>, role: PeerRole) -> Seq<PeerInfoView>
    decreases infos.len(),
{
    if infos.len() == 0 {
        Seq::empty()
    } else {
        let before = with_role(infos.drop_last(), role);
        if infos.last().role == role {
            before.push(infos.last())
        } else {
            before
        }
    }
}

/// What the records of a table tell of their peers.
pub open spec fn record_infos(peers: Seq<PeerRecord>) -> Seq<PeerInfoView> {
    Seq::new(peers.len(), |i: int| peers[i].info)
}

/// The views of a list of peers.
pub open spec fn info_views(infos: Seq<PeerInfo>) -> Seq<PeerInfoView> {
    Seq::new(infos.len(), |i: int| infos[i]@)
}

/// What a message does to a participant: the table afterwards, the peer if
/// it is new to the table, and the message to send back to the sender.
pub struct Outcome {
    pub peers: Seq<PeerRecord>,
    pub discovered: Option<PeerInfoView>,
    pub reply: Option<MessageView>,
}

/// What a message that came from the address `source_ip` at `now` does to a
/// participant `local` with the table `peers`.
///
/// A peer is taken with the address that its datagram came from, whatever
/// address it names. A participant's own announcement or response changes
/// nothing. A query is answered with a response that carries `local`.
pub open spec fn handle(
    local: PeerInfoView,
    peers: Seq<PeerRecord>,
    msg: MessageView,
    source_ip: Seq<char>,
    now: u64,
) -> Outcome {
    match msg {
        MessageView::Query => Outcome {
            peers,
            discovered: None,
            reply: Some(MessageView::Response(local)),
        },
        MessageView::Announce(peer) | MessageView::Response(peer) => {
            let seen = PeerInfoView { ip: source_ip, ..peer };
            if peer.id == local.id {
                Outcome { peers, discovered: None, reply: None }
            } else {
                Outcome {
                    peers: upsert(peers, PeerRecord { info: seen, last_seen: now }),
                    discovered: if knows(peers, peer.id) {
                        None
                    } else {
                        Some(seen)
                    },
                    reply: None,
                }
            }
        },
    }
}

/// A participant never takes itself for a peer: its own announcement or
/// response leaves the table as it is, and no message brings a record of the
/// participant into a table that has none.
pub proof fn lemma_no_self_echo(
    local: PeerInfoView,
    peers: Seq<PeerRecord>,
    msg: MessageView,
    source_ip: Seq<char>,
    now: u64,
)
    ensures
        (msg matches MessageView::Announce(peer) && peer.id == local.id) ==> handle(
            local,
            peers,
            msg,
            source_ip,
            now,
        ).peers == peers,
        (msg matches MessageView::Response(peer) && peer.id == local.id) ==> handle(
            local,
            peers,
            msg,
            source_ip,
            now,
        ).peers == peers,
        !knows(peers, local.id) ==> !knows(handle(local, peers, msg, source_ip, now).peers, local.id),
{
    let after = handle(local, peers, msg, source_ip, now).peers;
    if !knows(peers, local.id) && knows(after, local.id) {
        let i = choose|i: int| 0 <= i < after.len() && (#[trigger] after[i]).info.id == local.id;
        match msg {
            MessageView::Query => {},
            MessageView::Announce(peer) | MessageView::Response(peer) => {
                if peer.id != local.id {
                    if knows(peers, peer.id) {
                        assert(after[i].info.id == peers[i].info.id || after[i].info.id == peer.id);
                        assert(peers[i].info.id != local.id);
                    } else {
                        if i < peers.len() {
                            assert(after[i] == peers[i]);
                        }
                    }
                }
            },
        }
    }
}

/// The view of what a peer is, if one is given.
pub open spec fn optional_info(peer: Option<PeerInfo>) -> Option<PeerInfoView> {
    match peer {
        Some(info) => Some(info@),
        None => None,
    }
}

/// The view of the message, if one is given.
pub open spec fn optional_message(msg: Option<DiscoveryMessage>) -> Option<MessageView> {
    match msg {
        Some(m) => Some(m@),
        None => None,
    }
}

/// What [`DiscoveryService::process`] hands back.
#[derive(Debug)]
pub struct Reaction {
    /// The peer, if the message made it known.
    pub discovered: Option<PeerInfo>,
    /// The message to send back to the address that the message came from.
    pub reply: Option<DiscoveryMessage>,
}

struct PeerEntry {
    info: PeerInfo,
    last_seen: u64,
}

spec fn entry_records(entries: Seq<PeerEntry>) -> Seq<PeerRecord> {
    Seq::new(
        entries.len(),
        |i: int| PeerRecord { info: entries[i].info@, last_seen: entries[i].last_seen },
    )
}

/// The table of peers of one participant, and what it tells of itself.
pub struct DiscoveryService {
    local_info: PeerInfo,
    peers: Vec<PeerEntry>,
    running: bool,
}

impl View for DiscoveryService {
    type V = DiscoveryView;

    closed spec fn view(&self) -> DiscoveryView {
        DiscoveryView {
            local: self.local_info@,
            peers: entry_records(self.peers@),
            running: self.running,
        }
    }
}

/// A datagram that carries `body`: the magic, then the body.
pub open spec fn framed(body: Seq<u8>) -> Seq<u8> {
    DISCOVERY_MAGIC@ + body
}

/// The body of a discovery datagram: what follows the magic, if the datagram
/// begins with it.
pub open spec fn unframed(datagram: Seq<u8>) -> Option<Seq<u8>> {
    if datagram.len() >= 8 && datagram.subrange(0, 8) == DISCOVERY_MAGIC@ {
        Some(datagram.subrange(8, datagram.len() as int))
    } else {
        None
    }
}

/// Puts the magic in front of an encoded message.
pub fn frame_datagram(body: &[u8]) -> (datagram: Vec<u8>)
    ensures
        datagram@ == framed(body@),
{
    let mut datagram: Vec<u8> = Vec::new();
    datagram.extend_from_slice(DISCOVERY_MAGIC.as_slice());
    datagram.extend_from_slice(body);
    assert(datagram@ =~= framed(body@));
    datagram
}

/// Checks the magic of a datagram and gives the encoded message behind it.
/// `None` for a datagram that is too short or begins otherwise.
pub fn datagram_body(datagram: &[u8]) -> (body: Option<&[u8]>)
    ensures
        match body {
            Some(bytes) => unframed(datagram@) == Some(bytes@),
            None => unframed(datagram@) is None,
        },
{
    if datagram.len() < 8 {
        return None;
    }
    let mut i: usize = 0;
    while i < 8
        invariant
            i <= 8,
            datagram.len() >= 8,
            forall|k: int| 0 <= k < i ==> datagram@[k] == DISCOVERY_MAGIC@[k],
        decreases 8 - i,
    {
        if datagram[i] != DISCOVERY_MAGIC[i] {
            assert(datagram@.subrange(0, 8)[i as int] != DISCOVERY_MAGIC@[i as int]);
            return None;
        }
        i = i + 1;
    }
    assert(datagram@.subrange(0, 8) =~= DISCOVERY_MAGIC@);
    Some(vstd::slice::slice_subrange(datagram, 8, datagram.len()))
}

/// An identifier for a participant that starts now: the wall clock's
/// nanoseconds in hexadecimal.
pub fn generate_id() -> (id: String)
    ensures
        exists|nanos: u128| id@ == hex_digits(nanos as nat),
{
    let nanos: u128 = wall_clock_nanos();
    to_hex(nanos)
}

/// Index of the entry of the peer `id`, if the table has one.
fn find_entry(entries: &Vec<PeerEntry>, id: &String) -> (found: Option<usize>)
    ensures
        match found {
            Some(i) => i < entries.len() && entries@[i as int].info.id@ == id@,
            None => !knows(entry_records(entries@), id@),
        },
{
    let mut i: usize = 0;
    while i < entries.len()
        invariant
            i <= entries.len(),
            forall|k: int| 0 <= k < i ==> entries@[k].info.id@ != id@,
        decreases entries.len() - i,
    {
        if entries[i].info.id == *id {
            return Some(i);
        }
        i = i + 1;
    }
    assert forall|k: int| 0 <= k < entry_records(entries@).len() implies (#[trigger] entry_records(
        entries@,
    )[k]).info.id != id@ by {
        assert(entries@[k].info.id@ != id@);
    }
    None
}

/// What is live of a table stays in its order, and is a part of the table.
proof fn lemma_live_peers_within(peers: Seq<PeerRecord>, now: u64)
    ensures
        live_peers(peers, now).len() <= peers.len(),
        forall|i: int|
            0 <= i < live_peers(peers, now).len() ==> is_live(
                #[trigger] live_peers(peers, now)[i],
                now,
            ) && peers.contains(live_peers(peers, now)[i]),
    decreases peers.len(),
{
    if peers.len() > 0 {
        let front = peers.drop_last();
        lemma_live_peers_within(front, now);
        let live = live_peers(peers, now);
        assert forall|i: int| 0 <= i < live.len() implies is_live(#[trigger] live[i], now)
            && peers.contains(live[i]) by {
            if i < live_peers(front, now).len() {
                let r = live_peers(front, now)[i];
                assert(front.contains(r));
                let k = choose|k: int| 0 <= k < front.len() && front[k] == r;
                assert(peers[k] == r);
            } else {
                assert(peers[peers.len() - 1] == live[i]);
            }
        }
    }
}

proof fn lemma_live_peers_distinct(peers: Seq<PeerRecord>, now: u64)
    requires
        distinct_ids(peers),
    ensures
        distinct_ids(live_peers(peers, now)),
    decreases peers.len(),
{
    if peers.len() > 0 {
        let front = peers.drop_last();
        assert(distinct_ids(front)) by {
            assert forall|i: int, j: int| 0 <= i < j < front.len() implies (#[trigger] front[i]).info.id
                != (#[trigger] front[j]).info.id by {
                assert(peers[i] == front[i] && peers[j] == front[j]);
            }
        }
        lemma_live_peers_distinct(front, now);
        lemma_live_peers_within(front, now);
        let live = live_peers(peers, now);
        let before = live_peers(front, now);
        assert forall|i: int, j: int| 0 <= i < j < live.len() implies (#[trigger] live[i]).info.id
            != (#[trigger] live[j]).info.id by {
            if j < before.len() {
                assert(live[i] == before[i] && live[j] == before[j]);
            } else {
                assert(live[i] == before[i]);
                assert(front.contains(before[i]));
                let k = choose|k: int| 0 <= k < front.len() && front[k] == before[i];
                assert(peers[k] == front[k]);
                assert(live[j] == peers[peers.len() - 1]);
            }
        }
    }
}

/// A peer that was heard of ten seconds before `now` or longer ago is not
/// among the live peers, and every other peer of the table is.
pub proof fn lemma_live_peers_exact(peers: Seq<PeerRecord>, now: u64, record: PeerRecord)
    ensures
        live_peers(peers, now).contains(record) <==> peers.contains(record) && is_live(record, now),
    decreases peers.len(),
{
    if peers.len() > 0 {
        let front = peers.drop_last();
        let live = live_peers(peers, now);
        let before = live_peers(front, now);
        lemma_live_peers_exact(front, now, record);
        lemma_live_peers_within(peers, now);
        if peers.contains(record) && is_live(record, now) {
            let k = choose|k: int| 0 <= k < peers.len() && peers[k] == record;
            if k < front.len() {
                assert(front[k] == record);
                assert(before.contains(record));
                let m = choose|m: int| 0 <= m < before.len() && before[m] == record;
                assert(live[m] == record);
            } else {
                assert(live[live.len() - 1] == record);
            }
        }
    }
}

impl DiscoveryService {
    /// The table holds one record for each peer and none for this
    /// participant.
    pub open spec fn wf(&self) -> bool {
        &&& distinct_ids(self@.peers)
        &&& !knows(self@.peers, self@.local.id)
    }

    /// A participant with the identifier `id`, not yet running, that knows no
    /// peer.
    pub fn with_id(
        id: String,
        name: &str,
        role: PeerRole,
        stream_port: u16,
        local_ip: String,
    ) -> (service: Self)
        ensures
            service@.local == (PeerInfoView {
                id: id@,
                name: name@,
                role,
                ip: local_ip@,
                stream_port,
                version: PROTOCOL_VERSION@,
            }),
            service@.peers.len() == 0,
            !service@.running,
            service.wf(),
    {
        let service = DiscoveryService {
            local_info: PeerInfo {
                id,
                name: String::from_str(name),
                role,
                ip: local_ip,
                stream_port,
                version: String::from_str(PROTOCOL_VERSION),
            },
            peers: Vec::new(),
            running: false,
        };
        service
    }

    /// A participant with a fresh identifier, not yet running, that knows no
    /// peer.
    pub fn new(name: &str, role: PeerRole, stream_port: u16, local_ip: String) -> (service: Self)
        ensures
            service@.local.name == name@,
            service@.local.role == role,
            service@.local.ip == local_ip@,
            service@.local.stream_port == stream_port,
            service@.local.version == PROTOCOL_VERSION@,
            service@.peers.len() == 0,
            !service@.running,
            service.wf(),
    {
        Self::with_id(generate_id(), name, role, stream_port, local_ip)
    }

    pub fn start(&mut self)
        ensures
            final(self)@ == (DiscoveryView { running: true, ..old(self)@ }),
    {
        self.running = true;
    }

    pub fn stop(&mut self)
        ensures
            final(self)@ == (DiscoveryView { running: false, ..old(self)@ }),
    {
        self.running = false;
    }

    pub fn is_running(&self) -> (running: bool)
        ensures
            running == self@.running,
    {
        self.running
    }

    pub fn local_info(&self) -> (info: &PeerInfo)
        ensures
            info@ == self@.local,
    {
        &self.local_info
    }

    /// The announcement to broadcast.
    pub fn announce(&self) -> (msg: DiscoveryMessage)
        ensures
            msg@ == MessageView::Announce(self@.local),
    {
        DiscoveryMessage::Announce(self.local_info.clone())
    }

    /// The query to broadcast.
    pub fn query(&self) -> (msg: DiscoveryMessage)
        ensures
            msg@ == MessageView::Query,
    {
        DiscoveryMessage::Query
    }

    /// Notes that `peer` was heard of at `now`. Tells whether it is new.
    fn note_peer(&mut self, peer: PeerInfo, now: u64) -> (is_new: bool)
        requires
            old(self).wf(),
            peer.id@ != old(self)@.local.id,
        ensures
            final(self).wf(),
            final(self)@.local == old(self)@.local,
            final(self)@.running == old(self)@.running,
            final(self)@.peers == upsert(
                old(self)@.peers,
                PeerRecord { info: peer@, last_seen: now },
            ),
            is_new == !knows(old(self)@.peers, peer.id@),
    {
        let ghost before = entry_records(self.peers@);
        let ghost record = PeerRecord { info: peer@, last_seen: now };
        match find_entry(&self.peers, &peer.id) {
            Some(i) => {
                proof {
                    assert(before[i as int].info.id == peer.id@);
                    let after = entry_records(
                        self.peers@.update(i as int, PeerEntry { info: peer, last_seen: now }),
                    );
                    assert forall|k: int| 0 <= k < before.len() implies #[trigger] after[k] == (if before[k].info.id
                        == record.info.id {
                        record
                    } else {
                        before[k]
                    }) by {
                        if k != i {
                            if k < i {
                                assert(before[k].info.id != before[i as int].info.id);
                            } else {
                                assert(before[i as int].info.id != before[k].info.id);
                            }
                        }
                    }
                    assert(after =~= upsert(before, record));
                    assert forall|a: int, b: int| 0 <= a < b < after.len() implies (#[trigger] after[a]).info.id
                        != (#[trigger] after[b]).info.id by {
                        assert(after[a].info.id == before[a].info.id);
                        assert(after[b].info.id == before[b].info.id);
                    }
                    assert forall|k: int| 0 <= k < after.len() implies (#[trigger] after[k]).info.id
                        != self.local_info.id@ by {
                        assert(after[k].info.id == before[k].info.id);
                    }
                }
                self.peers.set(i, PeerEntry { info: peer, last_seen: now });
                false
            },
            None => {
                proof {
                    let after = entry_records(
                        self.peers@.push(PeerEntry { info: peer, last_seen: now }),
                    );
                    assert(after =~= before.push(record));
                    assert forall|a: int, b: int| 0 <= a < b < after.len() implies (#[trigger] after[a]).info.id
                        != (#[trigger] after[b]).info.id by {
                        assert(after[a] == before[a]);
                        if b < before.len() {
                            assert(after[b] == before[b]);
                        }
                    }
                    assert forall|k: int| 0 <= k < after.len() implies (#[trigger] after[k]).info.id
                        != self.local_info.id@ by {
                        if k < before.len() {
                            assert(after[k] == before[k]);
                        }
                    }
                }
                self.peers.push(PeerEntry { info: peer, last_seen: now });
                true
            },
        }
    }

    /// Takes in a message that came from the address `source_ip` at the time
    /// `now_ms`.
    pub fn process(&mut self, msg: DiscoveryMessage, source_ip: String, now_ms: u64) -> (reaction:
        Reaction)
        requires
            old(self).wf(),
        ensures
            final(self).wf(),
            final(self)@.local == old(self)@.local,
            final(self)@.running == old(self)@.running,
            ({
                let outcome = handle(
                    old(self)@.local,
                    old(self)@.peers,
                    msg@,
                    source_ip@,
                    now_ms,
                );
                &&& final(self)@.peers == outcome.peers
                &&& optional_info(reaction.discovered) == outcome.discovered
                &&& optional_message(reaction.reply) == outcome.reply
            }),
    {
        match msg {
            DiscoveryMessage::Query => Reaction {
                discovered: None,
                reply: Some(DiscoveryMessage::Response(self.local_info.clone())),
            },
            DiscoveryMessage::Announce(peer) => self.take_peer(peer, source_ip, now_ms),
            DiscoveryMessage::Response(peer) => self.take_peer(peer, source_ip, now_ms),
        }
    }

    /// Takes in what a peer announced or responded.
    fn take_peer(&mut self, peer: PeerInfo, source_ip: String, now_ms: u64) -> (reaction: Reaction)
        requires
            old(self).wf(),
        ensures
            final(self).wf(),
            final(self)@.local == old(self)@.local,
            final(self)@.running == old(self)@.running,
            ({
                let outcome = handle(
                    old(self)@.local,
                    old(self)@.peers,
                    MessageView::Announce(peer@),
                    source_ip@,
                    now_ms,
                );
                &&& final(self)@.peers == outcome.peers
                &&& optional_info(reaction.discovered) == outcome.discovered
                &&& reaction.reply is None
            }),
    {
        let seen = PeerInfo {
            id: peer.id,
            name: peer.name,
            role: peer.role,
            ip: source_ip,
            stream_port: peer.stream_port,
            version: peer.version,
        };
        if seen.id == self.local_info.id {
            return Reaction { discovered: None, reply: None };
        }
        let copy = seen.clone();
        let is_new: bool = self.note_peer(seen, now_ms);
        Reaction {
            discovered: if is_new {
                Some(copy)
            } else {
                None
            },
            reply: None,
        }
    }

    /// Forgets the peers that were not heard of for ten seconds at `now_ms`
    /// and lists the others.
    pub fn get_peers(&mut self, now_ms: u64) -> (peers: Vec<PeerInfo>)
        requires
            old(self).wf(),
        ensures
            final(self).wf(),
            final(self)@.local == old(self)@.local,
            final(self)@.running == old(self)@.running,
            final(self)@.peers == live_peers(old(self)@.peers, now_ms),
            info_views(peers@) == record_infos(final(self)@.peers),
            forall|i: int| 0 <= i < peers.len() ==> (#[trigger] peers[i])@.id != old(self)@.local.id,
    {
        let ghost before = entry_records(self.peers@);
        let mut kept: Vec<PeerEntry> = Vec::new();
        let mut listed: Vec<PeerInfo> = Vec::new();
        let mut i: usize = 0;
        while i < self.peers.len()
            invariant
                i <= self.peers.len(),
                entry_records(self.peers@) == before,
                entry_records(kept@) == live_peers(before.subrange(0, i as int), now_ms),
                info_views(listed@) == record_infos(entry_records(kept@)),
            decreases self.peers.len() - i,
        {
            let last_seen: u64 = self.peers[i].last_seen;
            let elapsed: u64 = if now_ms >= last_seen {
                now_ms - last_seen
            } else {
                0
            };
            proof {
                let upto = before.subrange(0, i + 1);
                assert(upto.drop_last() =~= before.subrange(0, i as int));
                assert(upto.last() == before[i as int]);
                assert(before[i as int].last_seen == last_seen);
            }
            if elapsed < PEER_TIMEOUT_MS {
                let info: PeerInfo = self.peers[i].info.clone();
                let copy: PeerInfo = info.clone();
                let ghost kept_before = entry_records(kept@);
                let ghost listed_before = info_views(listed@);
                kept.push(PeerEntry { info, last_seen });
                listed.push(copy);
                proof {
                    assert(entry_records(kept@) =~= kept_before.push(before[i as int]));
                    assert(info_views(listed@) =~= listed_before.push(before[i as int].info));
                    assert(info_views(listed@) =~= record_infos(entry_records(kept@)));
                }
            }
            i = i + 1;
        }
        proof {
            assert(before.subrange(0, i as int) =~= before);
            lemma_live_peers_distinct(before, now_ms);
            lemma_live_peers_within(before, now_ms);
            let live = entry_records(kept@);
            assert forall|k: int| 0 <= k < live.len() implies (#[trigger] live[k]).info.id
                != self.local_info.id@ by {
                assert(before.contains(live[k]));
                let m = choose|m: int| 0 <= m < before.len() && before[m] == live[k];
                assert(before[m].info.id != self.local_info.id@);
            }
            assert forall|k: int| 0 <= k < listed.len() implies (#[trigger] listed[k])@.id
                != self.local_info.id@ by {
                assert(info_views(listed@)[k] == live[k].info);
            }
        }
        self.peers = kept;
        listed
    }

    /// The live peers that are teachers.
    pub fn get_teachers(&mut self, now_ms: u64) -> (peers: Vec<PeerInfo>)
        requires
            old(self).wf(),
        ensures
            final(self).wf(),
            final(self)@.local == old(self)@.local,
            final(self)@.running == old(self)@.running,
            final(self)@.peers == live_peers(old(self)@.peers, now_ms),
            info_views(peers@) == with_role(record_infos(final(self)@.peers), PeerRole::Teacher),
    {
        let all: Vec<PeerInfo> = self.get_peers(now_ms);
        select_role(all, PeerRole::Teacher)
    }

    /// The live peers that are students.
    pub fn get_students(&mut self, now_ms: u64) -> (peers: Vec<PeerInfo>)
        requires
            old(self).wf(),
        ensures
            final(self).wf(),
            final(self)@.local == old(self)@.local,
            final(self)@.running == old(self)@.running,
            final(self)@.peers == live_peers(old(self)@.peers, now_ms),
            info_views(peers@) == with_role(record_infos(final(self)@.peers), PeerRole::Student),
    {
        let all: Vec<PeerInfo> = self.get_peers(now_ms);
        select_role(all, PeerRole::Student)
    }
}

/// The peers of a list that have the role `role`.
fn select_role(all: Vec<PeerInfo>, role: PeerRole) -> (chosen: Vec<PeerInfo>)
    ensures
        info_views(chosen@) == with_role(info_views(all@), role),
{
    let mut chosen: Vec<PeerInfo> = Vec::new();
    let mut i: usize = 0;
    while i < all.len()
        invariant
            i <= all.len(),
            info_views(chosen@) == with_role(info_views(all@).subrange(0, i as int), role),
        decreases all.len() - i,
    {
        proof {
            let upto = info_views(all@).subrange(0, i + 1);
            assert(upto.drop_last() =~= info_views(all@).subrange(0, i as int));
            assert(upto.last() == all@[i as int]@);
        }
        if all[i].role == role {
            let ghost chosen_before = info_views(chosen@);
            chosen.push(all[i].clone());
            assert(info_views(chosen@) =~= chosen_before.push(all@[i as int]@));
        }
        i = i + 1;
    }
    assert(info_views(all@).subrange(0, i as int) =~= info_views(all@));
    chosen
}

} // verus!
