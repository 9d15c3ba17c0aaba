//! The endpoint of the peer-to-peer protocol with one remote client: the handshake, the
//! exchange of compressed inputs with acknowledgements, quality reports and keep-alives, and
//! the detection of interrupted and lost connections.
//!
//! The endpoint decides; the caller does the outside work. Times are milliseconds that the
//! caller reads from its clock and passes in (`now`); messages to send are queued and handed out
//! by [`UdpProtocol::take_messages`]; received messages are handed in through
//! [`UdpProtocol::handle_message`]; what happened is reported as [`Event`]s.
use vstd::prelude::*;

use std::collections::{HashMap, HashSet, VecDeque};

use super::compression::{
    decode, decode_result, delta_encoded, encode, lemma_encode_decode, rle_decodable, rle_encoding,
    rle_output, rle_panics, views,
};
use super::messages::{
    InputView, MessageBodyView, MessageView,
    ChecksumReport, ConnectionStatus, Input, InputAck, Message, MessageBody, MessageHeader,
    QualityReply, QualityReport, SyncReply, SyncRequest,
};
use super::network_stats::NetworkStats;
use crate::error::GgrsError;
use crate::time_sync::{window_slot, TimeSync};
use vstd::layout::size_of;
use vstd::std_specs::cmp::PartialEqSpec;
use vstd::std_specs::iter::IteratorSpec;
use crate::{DesyncDetection, Frame, PlayerHandle, NULL_FRAME};

verus! {

broadcast use {vstd::std_specs::hash::group_hash_axioms, vstd::seq_lib::group_to_multiset_ensures};

/// The size of the IP and UDP headers of a packet.
pub const UDP_HEADER_SIZE: usize = 28;

/// The number of sync roundtrips before an endpoint counts as synchronized.
pub const NUM_SYNC_PACKETS: u32 = 5;

/// Milliseconds between a disconnect and the shutdown of the endpoint.
pub const UDP_SHUTDOWN_TIMER: u128 = 5000;

/// The number of unacknowledged inputs after which a remote is given up.
pub const PENDING_OUTPUT_SIZE: usize = 128;

/// Milliseconds between two sync requests while synchronizing.
pub const SYNC_RETRY_INTERVAL: u128 = 200;

/// Milliseconds without received input after which pending inputs are sent again.
pub const RUNNING_RETRY_INTERVAL: u128 = 200;

/// Milliseconds without sending after which a keep-alive is sent.
pub const KEEP_ALIVE_INTERVAL: u128 = 200;

/// Milliseconds between two quality reports.
pub const QUALITY_REPORT_INTERVAL: u128 = 200;

/// The largest input payload of one packet, in bytes.
pub const MAX_PAYLOAD: usize = 467;

/// The number of remote checksums kept for desync detection.
pub const MAX_CHECKSUM_HISTORY_SIZE: usize = 32;

/// The magic value of a header whose endpoint is not known yet.
pub const UNINITIALIZED_MAGIC: u16 = 0;

/// The magic value of a message meant for every endpoint: accepted whatever the remote's
/// magic value is.
pub const BROADCAST_MAGIC: u16 = 0xffff;

/// `rand::random::<u16>()`: a random number; nothing is claimed about it.
#[verifier::external_body]
fn random_u16() -> u16 {
    rand::random::<u16>()
}

/// `rand::random::<u32>()`: a random number; nothing is claimed about it.
#[verifier::external_body]
fn random_u32() -> u32 {
    rand::random::<u32>()
}

/// The inputs of the players an endpoint stands for, in one frame: each player's bytes one
/// after the other, in ascending handle order.
#[derive(Clone, Debug, PartialEq, Eq)]
pub struct InputBytes {
    /// The frame of the inputs; `NULL_FRAME` for none.
    pub frame: Frame,
    /// The input bytes.
    pub bytes: Vec<u8>,
}

impl InputBytes {
    /// `size` zero bytes for no frame.
    pub fn zeroed(size: usize) -> (r: Self)
        ensures
            r.frame == NULL_FRAME,
            r.bytes@ == Seq::new(size as nat, |i: int| 0u8),
    {
        let mut bytes: Vec<u8> = Vec::new();
        let mut i: usize = 0;
        while i < size
            invariant
                i <= size,
                bytes@ == Seq::new(i as nat, |j: int| 0u8),
            decreases size - i,
        {
            bytes.push(0);
            i = i + 1;
            assert(bytes@ =~= Seq::new(i as nat, |j: int| 0u8));
        }
        InputBytes { frame: NULL_FRAME, bytes }
    }

    /// A copy of these inputs.
    pub fn duplicate(&self) -> (r: Self)
        ensures
            r.frame == self.frame,
            r.bytes@ == self.bytes@,
    {
        let bytes = self.bytes.clone();
        assert(bytes@ =~= self.bytes@);
        InputBytes { frame: self.frame, bytes }
    }

    /// Cuts the bytes into `num_players` equal parts, one per player, each for this frame.
    pub fn to_player_inputs(&self, num_players: usize) -> (r: Vec<(Frame, Vec<u8>)>)
        requires
            num_players > 0,
            (self.bytes@.len() as int) % (num_players as int) == 0,
        ensures
            r@.len() == num_players,
            forall|p: int|
                0 <= p < num_players ==> (#[trigger] r@[p]).0 == self.frame && r@[p].1@
                    == self.bytes@.subrange(
                    p * ((self.bytes@.len() as int) / (num_players as int)),
                    (p + 1) * ((self.bytes@.len() as int) / (num_players as int)),
                ),
    {
        let total = self.bytes.len();
        let size = total / num_players;
        let mut out: Vec<(Frame, Vec<u8>)> = Vec::new();
        let mut p: usize = 0;
        while p < num_players
            invariant
                num_players > 0,
                total == self.bytes@.len(),
                size == (self.bytes@.len() as int) / (num_players as int),
                (self.bytes@.len() as int) % (num_players as int) == 0,
                p <= num_players,
                out@.len() == p,
                forall|q: int|
                    0 <= q < p ==> (#[trigger] out@[q]).0 == self.frame && out@[q].1@
                        == self.bytes@.subrange(q * size, (q + 1) * size),
            decreases num_players - p,
        {
            assert((p + 1) * size <= self.bytes@.len() && p * size + size == (p + 1) * size
                && 0 <= p * size) by (nonlinear_arith)
                requires
                    p < num_players,
                    size == (self.bytes@.len() as int) / (num_players as int),
                    (self.bytes@.len() as int) % (num_players as int) == 0,
                    num_players > 0,
            ;
            let start = p * size;
            let end = start + size;
            let mut part: Vec<u8> = Vec::new();
            let mut i: usize = start;
            while i < end
                invariant
                    start <= i <= end <= self.bytes@.len(),
                    part@ == self.bytes@.subrange(start as int, i as int),
                decreases end - i,
            {
                part.push(self.bytes[i]);
                i = i + 1;
                assert(part@ =~= self.bytes@.subrange(start as int, i as int));
            }
            out.push((self.frame, part));
            p = p + 1;
        }
        out
    }
}

/// What an endpoint reports to its session.
#[derive(Clone, Debug, PartialEq, Eq)]
pub enum Event {
    /// Synchronizing with the remote client; it continues until `count` reaches `total`.
    Synchronizing { total: u32, count: u32 },
    /// The endpoint is now synchronized with the remote client.
    Synchronized,
    /// An input of `player` for `frame` arrived.
    Input { frame: Frame, bytes: Vec<u8>, player: PlayerHandle },
    /// The remote client has disconnected.
    Disconnected,
    /// No packet arrived for a while; the remote is disconnected in `disconnect_timeout` ms.
    NetworkInterrupted { disconnect_timeout: u128 },
    /// Packets arrive again after an interruption.
    NetworkResumed,
}

/// The phases of an endpoint.
#[derive(Debug, Clone, Copy, PartialEq, Eq, Structural)]
pub enum ProtocolState {
    Initializing,
    Synchronizing,
    Running,
    Disconnected,
    Shutdown,
}

/// Whether `s` is sorted in ascending order.
pub open spec fn sorted(s: Seq<PlayerHandle>) -> bool {
    forall|i: int, j: int| 0 <= i <= j < s.len() ==> s[i] <= s[j]
}

/// Sorts handles in ascending order.
fn sort_handles(handles: Vec<PlayerHandle>) -> (r: Vec<PlayerHandle>)
    ensures
        sorted(r@),
        r@.to_multiset() == handles@.to_multiset(),
        handles@.len() <= 1 ==> r@ == handles@,
{
    if handles.len() <= 1 {
        return handles;
    }
    let mut out: Vec<PlayerHandle> = Vec::new();
    let mut k: usize = 0;
    while k < handles.len()
        invariant
            k <= handles@.len(),
            sorted(out@),
            out@.to_multiset() == handles@.subrange(0, k as int).to_multiset(),
        decreases handles@.len() - k,
    {
        let x = handles[k];
        let mut pos: usize = 0;
        while pos < out.len() && out[pos] <= x
            invariant
                pos <= out@.len(),
                sorted(out@),
                forall|i: int| 0 <= i < pos ==> out@[i] <= x,
            decreases out@.len() - pos,
        {
            pos = pos + 1;
        }
        let ghost before = out@;
        out.insert(pos, x);
        proof {
            assert(handles@.subrange(0, k + 1) =~= handles@.subrange(0, k as int).push(x));
            assert(before.insert(pos as int, x).to_multiset() == before.to_multiset().insert(x));
            assert forall|i: int, j: int| 0 <= i <= j < out@.len() implies out@[i] <= out@[j] by {
                if pos < before.len() {
                    assert(x < before[pos as int]);
                }
            }
        }
        k = k + 1;
    }
    assert(handles@.subrange(0, handles@.len() as int) =~= handles@);
    out
}

/// The contents of an [`InputBytes`], with the bytes as a sequence.
pub struct InputBytesView {
    pub frame: Frame,
    pub bytes: Seq<u8>,
}

impl View for InputBytes {
    type V = InputBytesView;

    open spec fn view(&self) -> InputBytesView {
        InputBytesView { frame: self.frame, bytes: self.bytes@ }
    }
}

/// The contents of an [`Event`], with the bytes as a sequence.
pub enum EventView {
    Synchronizing { total: u32, count: u32 },
    Synchronized,
    Input { frame: Frame, bytes: Seq<u8>, player: PlayerHandle },
    Disconnected,
    NetworkInterrupted { disconnect_timeout: u128 },
    NetworkResumed,
}

impl View for Event {
    type V = EventView;

    open spec fn view(&self) -> EventView {
        match self {
            Event::Synchronizing { total, count } => EventView::Synchronizing {
                total: *total,
                count: *count,
            },
            Event::Synchronized => EventView::Synchronized,
            Event::Input { frame, bytes, player } => EventView::Input {
                frame: *frame,
                bytes: bytes@,
                player: *player,
            },
            Event::Disconnected => EventView::Disconnected,
            Event::NetworkInterrupted { disconnect_timeout } => EventView::NetworkInterrupted {
                disconnect_timeout: *disconnect_timeout,
            },
            Event::NetworkResumed => EventView::NetworkResumed,
        }
    }
}

/// Whether `k` is a key of `m` and no key of `m` is larger.
pub open spec fn is_newest<V>(m: Map<Frame, V>, k: Frame) -> bool {
    m.dom().contains(k) && forall|j: Frame| #[trigger] m.dom().contains(j) ==> j <= k
}

/// The frame of the newest received input: the largest key of `m` (`NULL_FRAME` for a map
/// without a largest key).
pub open spec fn newest_frame<V>(m: Map<Frame, V>) -> Frame {
    if exists|k: Frame| is_newest(m, k) {
        choose|k: Frame| is_newest(m, k)
    } else {
        NULL_FRAME
    }
}

/// A map has at most one largest key.
pub proof fn lemma_newest_unique<V>(m: Map<Frame, V>, k: Frame)
    requires
        is_newest(m, k),
    ensures
        newest_frame(m) == k,
{
    let c = choose|j: Frame| is_newest(m, j);
    assert(m.dom().contains(c));
    assert(m.dom().contains(k));
}

/// `a + b`, or `usize::MAX` where that does not fit.
pub open spec fn sat_add(a: usize, b: int) -> usize {
    if a + b > usize::MAX {
        usize::MAX
    } else {
        (a + b) as usize
    }
}

/// `x` clamped to the range of `i16`.
pub open spec fn clamp_i16(x: int) -> i16 {
    if x < -32768 {
        -32768i16
    } else if x > 32767 {
        32767i16
    } else {
        x as i16
    }
}

/// Whether more than `interval` milliseconds passed from `since` to `now`.
pub open spec fn passed(since: u128, interval: u128, now: u128) -> bool {
    since + interval < now
}

/// Tests `passed` without overflow.
fn has_passed(since: u128, interval: u128, now: u128) -> (r: bool)
    ensures
        r == passed(since, interval, now),
{
    now > since && now - since > interval
}

/// The largest key of `m`, if it has any.
fn newest_key<V>(m: &HashMap<Frame, V>) -> (r: Option<Frame>)
    ensures
        match r {
            Some(k) => is_newest(m@, k),
            None => m@.dom().is_empty(),
        },
{
    let mut best: Option<Frame> = None;
    let ghost ks = vstd::std_specs::hash::spec_keys_iter(m).remaining();
    let ghost mut n: int = 0;
    proof {
        vstd::std_specs::hash::axiom_spec_keys_iter(m);
    }
    for k in it: m.keys()
        invariant
            it.seq() == ks,
            ks.unref().to_set() == m@.dom(),
            n == it.index(),
            match best {
                Some(b) => m@.dom().contains(b) && forall|j: int|
                    0 <= j < n ==> *#[trigger] ks[j] <= b,
                None => n == 0,
            },
    {
        proof {
            assert(ks.unref()[n] == *k);
            assert(ks.unref().contains(*k));
            n = n + 1;
        }
        match best {
            Some(b) => {
                if *k > b {
                    best = Some(*k);
                }
            },
            None => {
                best = Some(*k);
            },
        }
    }
    proof {
        assert(n == ks.len());
        match best {
            Some(b) => {
                assert forall|j: Frame| #[trigger] m@.dom().contains(j) implies j <= b by {
                    assert(ks.unref().to_set().contains(j));
                    let idx = choose|i: int| 0 <= i < ks.unref().len() && ks.unref()[i] == j;
                    assert(*ks[idx] <= b);
                }
            },
            None => {
                assert forall|j: Frame| !m@.dom().contains(j) by {
                    if m@.dom().contains(j) {
                        assert(ks.unref().to_set().contains(j));
                    }
                }
                assert(m@.dom() =~= Set::<Frame>::empty());
            },
        }
    }
    best
}

/// The map without its keys below `threshold`.
pub open spec fn kept_from<V>(m: Map<Frame, V>, threshold: int) -> Map<Frame, V> {
    m.filter_keys(|k: Frame| k as int >= threshold)
}

/// Removes the keys of `m` below `threshold`.
fn retain_from<V>(m: &mut HashMap<Frame, V>, threshold: i128)
    ensures
        final(m)@ == kept_from(old(m)@, threshold as int),
{
    let mut doomed: Vec<Frame> = Vec::new();
    let ghost ks = vstd::std_specs::hash::spec_keys_iter(&*m).remaining();
    let ghost mut n: int = 0;
    proof {
        vstd::std_specs::hash::axiom_spec_keys_iter(&*m);
    }
    for k in it: m.keys()
        invariant
            it.seq() == ks,
            ks.unref().to_set() == m@.dom(),
            n == it.index(),
            forall|f: Frame|
                doomed@.contains(f) <==> (f as int) < threshold && exists|j: int|
                    0 <= j < n && *#[trigger] ks[j] == f,
    {
        let ghost before = doomed@;
        if (*k as i128) < threshold {
            doomed.push(*k);
        }
        proof {
            assert(*ks[n] == *k);
            assert forall|f: Frame|
                doomed@.contains(f) <==> (f as int) < threshold && exists|j: int|
                    0 <= j < n + 1 && *#[trigger] ks[j] == f by {
                if doomed@.contains(f) && f != *k {
                    let i = choose|i: int| 0 <= i < doomed@.len() && doomed@[i] == f;
                    assert(before[i] == f);
                    assert(before.contains(f));
                }
                if doomed@.contains(f) && f == *k {
                    assert(*ks[n] == f);
                }
                if (f as int) < threshold && exists|j: int| 0 <= j < n + 1 && *#[trigger] ks[j] == f {
                    let j = choose|j: int| 0 <= j < n + 1 && *#[trigger] ks[j] == f;
                    if j < n {
                        assert(before.contains(f));
                        let i = choose|i: int| 0 <= i < before.len() && before[i] == f;
                        assert(doomed@[i] == f);
                    } else {
                        assert(doomed@[doomed@.len() - 1] == f);
                    }
                }
            }
            n = n + 1;
        }
    }
    let ghost orig = m@;
    proof {
        assert(n == ks.len());
        assert forall|f: Frame| doomed@.contains(f) <==> orig.dom().contains(f) && (f as int)
            < threshold by {
            if orig.dom().contains(f) {
                assert(ks.unref().to_set().contains(f));
                let idx = choose|i: int| 0 <= i < ks.unref().len() && ks.unref()[i] == f;
                assert(*ks[idx] == f);
            }
            if doomed@.contains(f) {
                let j = choose|j: int| 0 <= j < n && *#[trigger] ks[j] == f;
                assert(ks.unref()[j] == f);
                assert(ks.unref().contains(f));
            }
        }
    }
    let mut i: usize = 0;
    while i < doomed.len()
        invariant
            i <= doomed@.len(),
            forall|f: Frame| doomed@.contains(f) <==> orig.dom().contains(f) && (f as int) < threshold,
            forall|g: Frame|
                #[trigger] m@.dom().contains(g) <==> orig.dom().contains(g) && !(exists|j: int|
                    0 <= j < i && doomed@[j] == g),
            forall|g: Frame| #[trigger] m@.dom().contains(g) ==> m@[g] == orig[g],
        decreases doomed@.len() - i,
    {
        let f = doomed[i];
        m.remove(&f);
        i = i + 1;
    }
    proof {
        assert forall|g: Frame| #[trigger] m@.dom().contains(g) <==> kept_from(orig, threshold as int).dom().contains(g) by {
            if doomed@.contains(g) {
                let j = choose|j: int| 0 <= j < doomed@.len() && doomed@[j] == g;
                assert(doomed@[j] == g);
            }
            if exists|j: int| 0 <= j < doomed@.len() && doomed@[j] == g {
                let j = choose|j: int| 0 <= j < doomed@.len() && doomed@[j] == g;
                assert(doomed@.contains(g));
            }
        }
        assert(m@ =~= kept_from(orig, threshold as int));
    }
}

/// The inputs of the players `0..n` in `inputs`, gathered in ascending handle order: their
/// bytes one after the other, and the frame of the last of them that has one.
pub open spec fn gathered(inputs: Map<PlayerHandle, InputBytesView>, n: nat) -> InputBytesView
    decreases n,
{
    if n == 0 {
        InputBytesView { frame: NULL_FRAME, bytes: Seq::empty() }
    } else {
        let g = gathered(inputs, (n - 1) as nat);
        let h = (n - 1) as PlayerHandle;
        if inputs.dom().contains(h) {
            InputBytesView {
                frame: if inputs[h].frame != NULL_FRAME {
                    inputs[h].frame
                } else {
                    g.frame
                },
                bytes: g.bytes + inputs[h].bytes,
            }
        } else {
            g
        }
    }
}

/// Whether the inputs of the players `0..n` that have a frame all have the same one.
pub open spec fn frames_agree(inputs: Map<PlayerHandle, InputBytesView>, n: nat) -> bool {
    forall|a: PlayerHandle, b: PlayerHandle|
        a < n && b < n && inputs.dom().contains(a) && inputs.dom().contains(b) && #[trigger] inputs[a].frame
            != NULL_FRAME && #[trigger] inputs[b].frame != NULL_FRAME ==> inputs[a].frame
            == inputs[b].frame
}

/// Gathers the inputs of the players `0..num_players` into one buffer.
fn gather_inputs(num_players: usize, inputs: &HashMap<PlayerHandle, InputBytes>) -> (r: InputBytes)
    ensures
        r@ == gathered(inputs@.map_values(|x: InputBytes| x@), num_players as nat),
{
    let ghost mv = inputs@.map_values(|x: InputBytes| x@);
    let mut frame: Frame = NULL_FRAME;
    let mut bytes: Vec<u8> = Vec::new();
    let mut handle: usize = 0;
    while handle < num_players
        invariant
            handle <= num_players,
            mv == inputs@.map_values(|x: InputBytes| x@),
            (InputBytesView { frame, bytes: bytes@ }) == gathered(mv, handle as nat),
        decreases num_players - handle,
    {
        match inputs.get(&handle) {
            Some(input) => {
                assert(mv.dom().contains(handle) && mv[handle] == input@);
                if input.frame != NULL_FRAME {
                    frame = input.frame;
                }
                let mut more = input.duplicate().bytes;
                bytes.append(&mut more);
            },
            None => {
                assert(!mv.dom().contains(handle));
            },
        }
        handle = handle + 1;
    }
    InputBytes { frame, bytes }
}

/// `x` clamped to the range of `i32`.
pub open spec fn clamp_i32(x: int) -> i32 {
    if x < i32::MIN {
        i32::MIN
    } else if x > i32::MAX {
        i32::MAX
    } else {
        x as i32
    }
}

/// The larger of two frames.
pub open spec fn max_frame(a: Frame, b: Frame) -> Frame {
    if a >= b {
        a
    } else {
        b
    }
}

/// The connection status `mine` merged with the remote's report `theirs`: a player counts as
/// disconnected once either side says so, and its last frame is the later of the two.
pub open spec fn merged(mine: Seq<ConnectionStatus>, theirs: Seq<ConnectionStatus>) -> Seq<
    ConnectionStatus,
> {
    Seq::new(
        mine.len(),
        |i: int|
            ConnectionStatus {
                disconnected: theirs[i].disconnected || mine[i].disconnected,
                last_frame: max_frame(mine[i].last_frame, theirs[i].last_frame),
            },
    )
}

/// The events for the inputs `bytes` of the players `handles` at `frame`: the bytes cut into
/// equal parts, one per player in order.
pub open spec fn input_events(frame: Frame, bytes: Seq<u8>, handles: Seq<PlayerHandle>) -> Seq<
    EventView,
> {
    let size = bytes.len() / handles.len();
    Seq::new(
        handles.len(),
        |i: int|
            EventView::Input {
                frame,
                bytes: bytes.subrange(i * size, (i + 1) * size),
                player: handles[i],
            },
    )
}

/// A newer frame entering a map becomes its newest.
pub proof fn lemma_newest_insert<V>(m: Map<Frame, V>, k: Frame, f: Frame, x: V)
    requires
        is_newest(m, k),
        f > k,
    ensures
        is_newest(m.insert(f, x), f),
        newest_frame(m.insert(f, x)) == f,
{
    lemma_newest_unique(m.insert(f, x), f);
}

/// Dropping the keys below a threshold at most the newest keeps the newest.
pub proof fn lemma_newest_kept<V>(m: Map<Frame, V>, k: Frame, threshold: int)
    requires
        is_newest(m, k),
        threshold <= k,
    ensures
        is_newest(kept_from(m, threshold), k),
        newest_frame(kept_from(m, threshold)) == k,
{
    lemma_newest_unique(kept_from(m, threshold), k);
}

/// The abstract state of a [`UdpProtocol`].
pub struct ProtocolView<A> {
    pub num_players: usize,
    pub input_size: usize,
    pub handles: Seq<PlayerHandle>,
    pub send_queue: Seq<MessageView>,
    pub event_queue: Seq<EventView>,
    pub state: ProtocolState,
    pub sync_remaining_roundtrips: u32,
    pub sync_random_requests: Set<u32>,
    pub running_last_quality_report: u128,
    pub running_last_input_recv: u128,
    pub disconnect_notify_sent: bool,
    pub disconnect_event_sent: bool,
    pub disconnect_timeout: u128,
    pub disconnect_notify_start: u128,
    pub shutdown_timeout: u128,
    pub fps: usize,
    pub magic: u16,
    pub peer_addr: A,
    pub remote_magic: u16,
    pub peer_connect_status: Seq<ConnectionStatus>,
    pub pending_output: Seq<InputBytesView>,
    pub last_acked_input: InputBytesView,
    pub max_prediction: usize,
    pub recv_inputs: Map<Frame, InputBytesView>,
    pub time_sync_local: Seq<i32>,
    pub time_sync_remote: Seq<i32>,
    pub local_frame_advantage: i32,
    pub remote_frame_advantage: i32,
    pub stats_start_time: u128,
    pub packets_sent: usize,
    pub bytes_sent: usize,
    pub round_trip_time: u128,
    pub last_send_time: u128,
    pub last_recv_time: u128,
    pub pending_checksums: Map<Frame, u128>,
    pub desync_detection: DesyncDetection,
}

impl<A> ProtocolView<A> {
    /// The endpoint's invariant: one connection status per player, a positive input size, at
    /// least one handle, the interruption notice not after the disconnect, roundtrips left
    /// while synchronizing, and a newest received frame.
    pub open spec fn wf(self) -> bool {
        &&& self.peer_connect_status.len() == self.num_players
        &&& (self.state == ProtocolState::Synchronizing ==> self.sync_remaining_roundtrips > 0)
        &&& self.sync_remaining_roundtrips <= NUM_SYNC_PACKETS
        &&& exists|k: Frame| is_newest(self.recv_inputs, k)
    }

    /// Whether the handshake is over (the endpoint runs, or ran before it disconnected).
    pub open spec fn is_synchronized(self) -> bool {
        self.state == ProtocolState::Running || self.state == ProtocolState::Disconnected
            || self.state == ProtocolState::Shutdown
    }

    /// The frame of the newest received input.
    pub open spec fn last_recv_frame(self) -> Frame {
        newest_frame(self.recv_inputs)
    }

    /// This state after queueing a message with `body` at time `now`.
    pub open spec fn queued(self, body: MessageBodyView, now: u128) -> Self {
        ProtocolView {
            send_queue: self.send_queue.push(
                MessageView { header: MessageHeader { magic: self.magic }, body },
            ),
            packets_sent: sat_add(self.packets_sent, 1),
            bytes_sent: sat_add(self.bytes_sent, size_of::<Message>() as int),
            last_send_time: now,
            ..self
        }
    }

    /// This state after the remote acknowledged the inputs up to `ack_frame`: the pending
    /// inputs up to that frame leave the queue, and the last of them is the acknowledged input.
    pub open spec fn acked(self, ack_frame: Frame) -> Self
        decreases self.pending_output.len(),
    {
        if self.pending_output.len() > 0 && self.pending_output[0].frame <= ack_frame {
            (ProtocolView {
                last_acked_input: self.pending_output[0],
                pending_output: self.pending_output.drop_first(),
                ..self
            }).acked(ack_frame)
        } else {
            self
        }
    }

    /// The bytes of the pending inputs, oldest first.
    pub open spec fn pending_bytes(self) -> Seq<Seq<u8>> {
        self.pending_output.map_values(|x: InputBytesView| x.bytes)
    }

    /// The compressed pending inputs, against the last acknowledged input.
    pub open spec fn pending_payload(self) -> Seq<u8> {
        rle_encoding(delta_encoded(self.last_acked_input.bytes, self.pending_bytes()))
    }

    /// Whether the pending inputs go out: there are some, the oldest follows the acknowledged
    /// input, and their compression fits in one packet.
    pub open spec fn can_send_pending(self) -> bool {
        &&& self.pending_output.len() > 0
        &&& (self.last_acked_input.frame == NULL_FRAME || self.last_acked_input.frame + 1
            == self.pending_output[0].frame)
        &&& self.pending_payload().len() <= MAX_PAYLOAD
    }

    /// The input message for the pending inputs, with the connection status `connect_status`.
    pub open spec fn pending_message(self, connect_status: Seq<ConnectionStatus>) -> InputView {
        InputView {
            peer_connect_status: connect_status,
            disconnect_requested: self.state == ProtocolState::Disconnected,
            start_frame: self.pending_output[0].frame,
            ack_frame: self.last_recv_frame(),
            bytes: self.pending_payload(),
        }
    }

    /// This state after sending the pending inputs, where they go out.
    pub open spec fn pending_sent(self, connect_status: Seq<ConnectionStatus>, now: u128) -> Self {
        if self.can_send_pending() {
            self.queued(MessageBodyView::Input(self.pending_message(connect_status)), now)
        } else {
            self
        }
    }

    /// This state after the local inputs `data` were taken up at time `now` (only while
    /// running): the time sync records the advantages at their frame, they join the pending
    /// inputs, a remote with too many unacknowledged inputs is reported disconnected, and the
    /// pending inputs are sent.
    pub open spec fn input_queued(
        self,
        data: InputBytesView,
        connect_status: Seq<ConnectionStatus>,
        now: u128,
    ) -> Self {
        if self.state != ProtocolState::Running {
            self
        } else {
            let v1 = ProtocolView {
                time_sync_local: self.time_sync_local.update(
                    window_slot(data.frame),
                    self.local_frame_advantage,
                ),
                time_sync_remote: self.time_sync_remote.update(
                    window_slot(data.frame),
                    self.remote_frame_advantage,
                ),
                pending_output: self.pending_output.push(data),
                ..self
            };
            let v2 = if v1.pending_output.len() > PENDING_OUTPUT_SIZE {
                ProtocolView { event_queue: v1.event_queue.push(EventView::Disconnected), ..v1 }
            } else {
                v1
            };
            v2.pending_sent(connect_status, now)
        }
    }

    /// The frame the inputs of `b` are delta-encoded against: none before the first input,
    /// else the frame before its first one (when that is a frame).
    pub open spec fn decode_key(self, b: InputView) -> Option<Frame> {
        if self.last_recv_frame() == NULL_FRAME {
            Some(NULL_FRAME)
        } else if b.start_frame > i32::MIN {
            Some((b.start_frame - 1) as Frame)
        } else {
            None
        }
    }

    /// Whether the inputs of `b` can be decoded here: their reference input is known.
    pub open spec fn can_decode(self, b: InputView) -> bool {
        self.decode_key(b) matches Some(k) && self.recv_inputs.dom().contains(k)
    }

    /// The inputs of `b`, decoded against their reference input.
    pub open spec fn decoded(self, b: InputView) -> Seq<Seq<u8>> {
        decode_result(self.recv_inputs[self.decode_key(b)->Some_0].bytes, b.bytes)->Ok_0
    }

    /// Whether the input message `b` is one this endpoint can take: it reports every player's
    /// connection (unless it asks to disconnect), it does not skip inputs that never arrived,
    /// and, where its reference input is known, its bytes decode, each input splits evenly
    /// among the remote's players, and its frames stay frames.
    pub open spec fn input_acceptable(self, b: InputView) -> bool {
        &&& (b.disconnect_requested || b.peer_connect_status.len() >= self.num_players)
        &&& (self.last_recv_frame() == NULL_FRAME || self.last_recv_frame() + 1 >= b.start_frame)
        &&& (self.can_decode(b) ==> {
            &&& !rle_panics(b.bytes, 0, 0)
            &&& (self.decoded(b).len() > 0 ==> self.handles.len() > 0)
            &&& decode_result(self.recv_inputs[self.decode_key(b)->Some_0].bytes, b.bytes) is Ok
            &&& forall|i: int|
                0 <= i < self.decoded(b).len() ==> (#[trigger] self.decoded(b)[i]).len()
                    % self.handles.len() == 0
            &&& b.start_frame + self.decoded(b).len() <= i32::MAX + 1
        })
    }

    /// This state after taking the first `n` of the decoded inputs `xs`, whose first is for
    /// frame `start`: each input newer than the newest received one is stored and reported to
    /// the session, one event per remote player.
    pub open spec fn inputs_taken(self, start: Frame, xs: Seq<Seq<u8>>, n: nat) -> Self
        decreases n,
    {
        if n == 0 {
            self
        } else {
            let v = self.inputs_taken(start, xs, (n - 1) as nat);
            let f = (start + n - 1) as Frame;
            if f <= v.last_recv_frame() {
                v
            } else {
                ProtocolView {
                    recv_inputs: v.recv_inputs.insert(
                        f,
                        InputBytesView { frame: f, bytes: xs[n - 1] },
                    ),
                    event_queue: v.event_queue + input_events(f, xs[n - 1], v.handles),
                    ..v
                }
            }
        }
    }

    /// This state after the peer connection status and disconnect request of `b`.
    pub open spec fn status_taken(self, b: InputView) -> Self {
        if b.disconnect_requested {
            if self.state != ProtocolState::Disconnected && !self.disconnect_event_sent {
                ProtocolView {
                    event_queue: self.event_queue.push(EventView::Disconnected),
                    disconnect_event_sent: true,
                    ..self
                }
            } else {
                self
            }
        } else {
            ProtocolView {
                peer_connect_status: merged(self.peer_connect_status, b.peer_connect_status),
                ..self
            }
        }
    }

    /// This state after the decoded inputs `xs`, the first for frame `start`, arrived at time
    /// `now`: they are taken, an acknowledgement goes out, and the inputs older than twice the
    /// prediction window before the newest are forgotten.
    pub open spec fn inputs_received(self, start: Frame, xs: Seq<Seq<u8>>, now: u128) -> Self {
        let v3 = (ProtocolView { running_last_input_recv: now, ..self }).inputs_taken(
            start,
            xs,
            xs.len(),
        );
        let v4 = v3.queued(
            MessageBodyView::InputAck(InputAck { ack_frame: v3.last_recv_frame() }),
            now,
        );
        ProtocolView {
            recv_inputs: kept_from(
                v4.recv_inputs,
                v4.last_recv_frame() - 2 * v4.max_prediction,
            ),
            ..v4
        }
    }

    /// This state after the input message `b` arrived at time `now`. A message this endpoint
    /// cannot take changes nothing.
    pub open spec fn input_handled(self, b: InputView, now: u128) -> Self {
        if !self.input_acceptable(b) {
            self
        } else {
            let v2 = self.acked(b.ack_frame).status_taken(b);
            if v2.can_decode(b) {
                v2.inputs_received(b.start_frame, v2.decoded(b), now)
            } else {
                v2
            }
        }
    }

    /// This state after a quality report was queued at time `now`.
    pub open spec fn quality_reported(self, now: u128) -> Self {
        (ProtocolView { running_last_quality_report: now, ..self }).queued(
            MessageBodyView::QualityReport(
                QualityReport {
                    frame_advantage: clamp_i16(self.local_frame_advantage as int),
                    ping: now,
                },
            ),
            now,
        )
    }

    /// This state after the sync reply `b` arrived with the magic value `magic` at time `now`;
    /// `nonce` is the random value of the next sync request, where one is sent. A reply to a
    /// request this endpoint made (and made only once) counts one roundtrip; after the last
    /// one the endpoint runs and accepts the remote's magic value.
    pub open spec fn sync_reply_handled(self, b: SyncReply, magic: u16, nonce: u32, now: u128) -> Self {
        if self.state != ProtocolState::Synchronizing || !self.sync_random_requests.contains(
            b.random_reply,
        ) {
            self
        } else {
            let v1 = ProtocolView {
                sync_random_requests: self.sync_random_requests.remove(b.random_reply),
                sync_remaining_roundtrips: (self.sync_remaining_roundtrips - 1) as u32,
                ..self
            };
            if v1.sync_remaining_roundtrips > 0 {
                (ProtocolView {
                    event_queue: v1.event_queue.push(
                        EventView::Synchronizing {
                            total: NUM_SYNC_PACKETS,
                            count: (NUM_SYNC_PACKETS - v1.sync_remaining_roundtrips) as u32,
                        },
                    ),
                    ..v1
                }).sync_requested(nonce, now)
            } else {
                ProtocolView {
                    state: ProtocolState::Running,
                    event_queue: v1.event_queue.push(EventView::Synchronized),
                    remote_magic: magic,
                    ..v1
                }
            }
        }
    }

    /// This state after the checksum report `b` arrived: it is stored, and when the history is
    /// full the reports older than the history's span before it are forgotten first.
    pub open spec fn checksum_handled(self, b: ChecksumReport) -> Self {
        let interval: int = match self.desync_detection {
            DesyncDetection::On { interval } => interval as int,
            DesyncDetection::Off => 1,
        };
        let kept = if self.pending_checksums.dom().len() >= MAX_CHECKSUM_HISTORY_SIZE {
            kept_from(
                self.pending_checksums,
                b.frame - (MAX_CHECKSUM_HISTORY_SIZE - 1) * interval,
            )
        } else {
            self.pending_checksums
        };
        ProtocolView { pending_checksums: kept.insert(b.frame, b.checksum), ..self }
    }

    /// This state after the body `body` of a message with magic value `magic` arrived at time
    /// `now` (`nonce` as in `sync_reply_handled`).
    pub open spec fn body_handled(self, body: MessageBodyView, magic: u16, nonce: u32, now: u128) -> Self {
        match body {
            MessageBodyView::SyncRequest(b) => self.queued(
                MessageBodyView::SyncReply(SyncReply { random_reply: b.random_request }),
                now,
            ),
            MessageBodyView::SyncReply(b) => self.sync_reply_handled(b, magic, nonce, now),
            MessageBodyView::Input(b) => self.input_handled(b, now),
            MessageBodyView::InputAck(b) => self.acked(b.ack_frame),
            MessageBodyView::QualityReport(b) => (ProtocolView {
                remote_frame_advantage: b.frame_advantage as i32,
                ..self
            }).queued(MessageBodyView::QualityReply(QualityReply { pong: b.ping }), now),
            MessageBodyView::QualityReply(b) => if now >= b.pong {
                ProtocolView { round_trip_time: (now - b.pong) as u128, ..self }
            } else {
                self
            },
            MessageBodyView::ChecksumReport(b) => self.checksum_handled(b),
            MessageBodyView::KeepAlive => self,
        }
    }

    /// Whether a message with magic value `magic` is this endpoint's: any is, until the
    /// remote's magic value is known; then the remote's and a broadcast are.
    pub open spec fn accepts_magic(self, magic: u16) -> bool {
        self.remote_magic == UNINITIALIZED_MAGIC || self.remote_magic == magic || magic
            == BROADCAST_MAGIC
    }

    /// This state after the message `msg` arrived at time `now` (`nonce` as in
    /// `sync_reply_handled`). An endpoint that shut down, or a message from another endpoint,
    /// changes nothing; otherwise the time of the last packet is `now`, an interrupted running
    /// connection is reported resumed, and the body is handled.
    pub open spec fn message_handled(self, msg: MessageView, nonce: u32, now: u128) -> Self {
        if self.state == ProtocolState::Shutdown || !self.accepts_magic(msg.header.magic) {
            self
        } else {
            let v1 = ProtocolView { last_recv_time: now, ..self };
            let v2 = if v1.disconnect_notify_sent && v1.state == ProtocolState::Running {
                ProtocolView {
                    disconnect_notify_sent: false,
                    event_queue: v1.event_queue.push(EventView::NetworkResumed),
                    ..v1
                }
            } else {
                v1
            };
            v2.body_handled(msg.body, msg.header.magic, nonce, now)
        }
    }

    /// This state after a running endpoint's timers were checked at time `now`: pending inputs
    /// are sent again when no input arrived for a while, a quality report and a keep-alive go
    /// out when due, and a silent remote is reported interrupted, then disconnected (each once).
    pub open spec fn running_polled(self, connect_status: Seq<ConnectionStatus>, now: u128) -> Self {
        let v1 = if passed(self.running_last_input_recv, RUNNING_RETRY_INTERVAL, now) {
            ProtocolView {
                running_last_input_recv: now,
                ..self.pending_sent(connect_status, now)
            }
        } else {
            self
        };
        let v2 = if passed(v1.running_last_quality_report, QUALITY_REPORT_INTERVAL, now) {
            v1.quality_reported(now)
        } else {
            v1
        };
        let v3 = if passed(v2.last_send_time, KEEP_ALIVE_INTERVAL, now) {
            v2.queued(MessageBodyView::KeepAlive, now)
        } else {
            v2
        };
        let v4 = if !v3.disconnect_notify_sent && passed(
            v3.last_recv_time,
            v3.disconnect_notify_start,
            now,
        ) {
            ProtocolView {
                event_queue: v3.event_queue.push(
                    EventView::NetworkInterrupted {
                        disconnect_timeout: if v3.disconnect_notify_start <= v3.disconnect_timeout {
                            (v3.disconnect_timeout - v3.disconnect_notify_start) as u128
                        } else {
                            0
                        },
                    },
                ),
                disconnect_notify_sent: true,
                ..v3
            }
        } else {
            v3
        };
        if !v4.disconnect_event_sent && passed(v4.last_recv_time, v4.disconnect_timeout, now) {
            ProtocolView {
                event_queue: v4.event_queue.push(EventView::Disconnected),
                disconnect_event_sent: true,
                ..v4
            }
        } else {
            v4
        }
    }

    /// This state after the timers were checked at time `now` (`nonce` is the random value of
    /// a sync request, where one is sent): a synchronizing endpoint repeats its sync request
    /// when it sent nothing for a while, a running one checks its timers, and a disconnected
    /// one shuts down once its shutdown time passed.
    pub open spec fn polled(self, connect_status: Seq<ConnectionStatus>, nonce: u32, now: u128) -> Self {
        match self.state {
            ProtocolState::Synchronizing => if passed(self.last_send_time, SYNC_RETRY_INTERVAL, now) {
                self.sync_requested(nonce, now)
            } else {
                self
            },
            ProtocolState::Running => self.running_polled(connect_status, now),
            ProtocolState::Disconnected => if self.shutdown_timeout < now {
                ProtocolView { state: ProtocolState::Shutdown, ..self }
            } else {
                self
            },
            _ => self,
        }
    }

    /// The estimated frame advantage for the local frame `local_frame`: the remote's frame,
    /// estimated as the newest received frame plus the frames that pass in half a roundtrip
    /// (at most `i32::MAX` ms), minus the local frame, clamped to `i32`.
    pub open spec fn estimated_advantage(self, local_frame: Frame) -> i32 {
        let ping: int = if self.round_trip_time / 2 > i32::MAX {
            i32::MAX as int
        } else {
            (self.round_trip_time / 2) as int
        };
        clamp_i32(self.last_recv_frame() + (ping * self.fps) / 1000 - local_frame)
    }

    /// This state after a disconnect at time `now`: it shuts down `UDP_SHUTDOWN_TIMER` ms
    /// later; an endpoint that shut down stays so.
    pub open spec fn disconnected(self, now: u128) -> Self {
        if self.state == ProtocolState::Shutdown {
            self
        } else {
            ProtocolView {
                state: ProtocolState::Disconnected,
                shutdown_timeout: (now + UDP_SHUTDOWN_TIMER) as u128,
                ..self
            }
        }
    }

    /// This state after estimating the frame advantage for the local frame `local_frame`
    /// (see `estimated_advantage`); nothing changes before the first input of either side.
    pub open spec fn advantage_at(self, local_frame: Frame) -> Self {
        if local_frame == NULL_FRAME || self.last_recv_frame() == NULL_FRAME {
            self
        } else {
            ProtocolView { local_frame_advantage: self.estimated_advantage(local_frame), ..self }
        }
    }

    /// This state when the handshake starts at time `now`.
    pub open spec fn started(self, now: u128) -> Self {
        ProtocolView {
            state: ProtocolState::Synchronizing,
            sync_remaining_roundtrips: NUM_SYNC_PACKETS,
            stats_start_time: now,
            ..self
        }
    }

    /// This state after sending the sync request `nonce` at time `now`.
    pub open spec fn sync_requested(self, nonce: u32, now: u128) -> Self {
        ProtocolView {
            sync_random_requests: self.sync_random_requests.insert(nonce),
            ..self
        }.queued(MessageBodyView::SyncRequest(SyncRequest { random_request: nonce }), now)
    }
}

/// Taking acknowledgements changes only the pending inputs and the acknowledged input.
pub proof fn lemma_acked_frame<A>(v: ProtocolView<A>, ack_frame: Frame)
    ensures
        v.acked(ack_frame) == (ProtocolView {
            pending_output: v.acked(ack_frame).pending_output,
            last_acked_input: v.acked(ack_frame).last_acked_input,
            ..v
        }),
    decreases v.pending_output.len(),
{
    if v.pending_output.len() > 0 && v.pending_output[0].frame <= ack_frame {
        let w = ProtocolView {
            last_acked_input: v.pending_output[0],
            pending_output: v.pending_output.drop_first(),
            ..v
        };
        lemma_acked_frame(w, ack_frame);
    }
}

/// Decoded inputs are reported once per frame, one event per remote player: taking the input
/// of a frame newer than the newest received one adds, for each handle of the endpoint in
/// order, one `Input` event of that frame for that player; the input of a frame already
/// received adds nothing.
pub proof fn lemma_one_event_per_handle<A>(v: ProtocolView<A>, start: Frame, xs: Seq<Seq<u8>>, n: nat)
    requires
        n > 0,
    ensures
        ({
            let u = v.inputs_taken(start, xs, (n - 1) as nat);
            let w = v.inputs_taken(start, xs, n);
            let f = (start + n - 1) as Frame;
            &&& f <= u.last_recv_frame() ==> w == u
            &&& f > u.last_recv_frame() ==> {
                let added = w.event_queue.subrange(u.event_queue.len() as int, w.event_queue.len() as int);
                &&& w.event_queue.subrange(0, u.event_queue.len() as int) == u.event_queue
                &&& added.len() == v.handles.len()
                &&& forall|i: int|
                    0 <= i < added.len() ==> (#[trigger] added[i] matches EventView::Input {
                        frame,
                        player,
                        ..
                    } && frame == f && player == v.handles[i])
            }
        }),
{
    let u = v.inputs_taken(start, xs, (n - 1) as nat);
    let w = v.inputs_taken(start, xs, n);
    lemma_inputs_taken_frame(v, start, xs, (n - 1) as nat);
    let f = (start + n - 1) as Frame;
    if f > u.last_recv_frame() {
        let ev = input_events(f, xs[n - 1], u.handles);
        assert(w.event_queue == u.event_queue + ev);
        assert(w.event_queue.subrange(0, u.event_queue.len() as int) =~= u.event_queue);
        assert(w.event_queue.subrange(u.event_queue.len() as int, w.event_queue.len() as int)
            =~= ev);
    }
}

/// Taking inputs changes only the received inputs and the events.
pub proof fn lemma_inputs_taken_frame<A>(v: ProtocolView<A>, start: Frame, xs: Seq<Seq<u8>>, n: nat)
    ensures
        v.inputs_taken(start, xs, n) == (ProtocolView {
            recv_inputs: v.inputs_taken(start, xs, n).recv_inputs,
            event_queue: v.inputs_taken(start, xs, n).event_queue,
            ..v
        }),
    decreases n,
{
    if n > 0 {
        lemma_inputs_taken_frame(v, start, xs, (n - 1) as nat);
    }
}

/// Acknowledging inputs keeps the endpoint's remote address.
proof fn lemma_acked_keeps_peer<A>(v: ProtocolView<A>, ack_frame: Frame)
    ensures
        v.acked(ack_frame).peer_addr == v.peer_addr,
    decreases v.pending_output.len(),
{
    if v.pending_output.len() > 0 && v.pending_output[0].frame <= ack_frame {
        lemma_acked_keeps_peer(
            ProtocolView {
                last_acked_input: v.pending_output[0],
                pending_output: v.pending_output.drop_first(),
                ..v
            },
            ack_frame,
        );
    }
}

/// Taking decoded inputs keeps the endpoint's remote address.
proof fn lemma_taken_keeps_peer<A>(v: ProtocolView<A>, start: Frame, xs: Seq<Seq<u8>>, n: nat)
    ensures
        v.inputs_taken(start, xs, n).peer_addr == v.peer_addr,
    decreases n,
{
    if n > 0 {
        lemma_taken_keeps_peer(v, start, xs, (n - 1) as nat);
    }
}

/// Handling a message keeps the endpoint's remote address: an endpoint always talks to the
/// remote it was made for.
pub proof fn lemma_message_keeps_peer<A>(v: ProtocolView<A>, msg: MessageView, nonce: u32, now: u128)
    ensures
        v.message_handled(msg, nonce, now).peer_addr == v.peer_addr,
{
    if !(v.state == ProtocolState::Shutdown || !v.accepts_magic(msg.header.magic)) {
        let v1 = ProtocolView { last_recv_time: now, ..v };
        let v2 = if v1.disconnect_notify_sent && v1.state == ProtocolState::Running {
            ProtocolView {
                disconnect_notify_sent: false,
                event_queue: v1.event_queue.push(EventView::NetworkResumed),
                ..v1
            }
        } else {
            v1
        };
        match msg.body {
            MessageBodyView::Input(b) => {
                if v2.input_acceptable(b) {
                    lemma_acked_keeps_peer(v2, b.ack_frame);
                    let v3 = v2.acked(b.ack_frame).status_taken(b);
                    if v3.can_decode(b) {
                        let w = ProtocolView { running_last_input_recv: now, ..v3 };
                        let xs = v3.decoded(b);
                        lemma_taken_keeps_peer(w, b.start_frame, xs, xs.len());
                    }
                }
            },
            MessageBodyView::InputAck(b) => {
                lemma_acked_keeps_peer(v2, b.ack_frame);
            },
            _ => {},
        }
    }
}

/// A message whose magic value is neither the remote's nor a broadcast changes nothing, once
/// the remote's magic value is known: an endpoint that knows its remote ignores strangers.
pub proof fn lemma_foreign_message_ignored<A>(v: ProtocolView<A>, msg: MessageView, nonce: u32, now: u128)
    requires
        v.remote_magic != UNINITIALIZED_MAGIC,
        v.remote_magic != msg.header.magic,
        msg.header.magic != BROADCAST_MAGIC,
    ensures
        v.message_handled(msg, nonce, now) == v,
{
}

/// A quality report tells the endpoint how far ahead the remote runs, and is answered: once an
/// endpoint that has not shut down takes a report carrying frame advantage `a` in a message it
/// accepts, its remote frame advantage is `a`, its own frame advantage is unchanged, and a
/// reply carrying the report's ping is the one message added to its send queue.
pub proof fn lemma_quality_report_answered<A>(
    v: ProtocolView<A>,
    header: MessageHeader,
    report: QualityReport,
    nonce: u32,
    now: u128,
)
    requires
        v.state != ProtocolState::Shutdown,
        v.accepts_magic(header.magic),
    ensures
        ({
            let w = v.message_handled(
                MessageView { header, body: MessageBodyView::QualityReport(report) },
                nonce,
                now,
            );
            &&& w.remote_frame_advantage == report.frame_advantage
            &&& w.local_frame_advantage == v.local_frame_advantage
            &&& w.send_queue == v.send_queue.push(
                MessageView {
                    header: MessageHeader { magic: v.magic },
                    body: MessageBodyView::QualityReply(QualityReply { pong: report.ping }),
                },
            )
        }),
{
}

/// The timers of a running endpoint report each interruption once and the disconnect once,
/// and never the disconnect before the interruption: a poll adds to the events at most a
/// `NetworkInterrupted` and then a `Disconnected`; it adds no `NetworkInterrupted` once one
/// was reported (until a packet arrives again) and no `Disconnected` once one was; after a
/// poll the flags stay set; and when the notification comes no later than the timeout, a
/// reported disconnect finds the interruption reported too.
pub proof fn lemma_interrupt_then_disconnect_once<A>(
    v: ProtocolView<A>,
    connect_status: Seq<ConnectionStatus>,
    now: u128,
)
    ensures
        ({
            let w = v.running_polled(connect_status, now);
            let added = w.event_queue.subrange(v.event_queue.len() as int, w.event_queue.len() as int);
            &&& w.event_queue.subrange(0, v.event_queue.len() as int) == v.event_queue
            &&& added.len() <= 2
            &&& forall|i: int|
                0 <= i < added.len() ==> (#[trigger] added[i] is NetworkInterrupted) || added[i]
                    is Disconnected
            &&& added.len() == 2 ==> added[0] is NetworkInterrupted && added[1] is Disconnected
            &&& v.disconnect_notify_sent ==> forall|i: int|
                0 <= i < added.len() ==> !(#[trigger] added[i] is NetworkInterrupted)
            &&& v.disconnect_event_sent ==> forall|i: int|
                0 <= i < added.len() ==> !(#[trigger] added[i] is Disconnected)
            &&& v.disconnect_notify_sent ==> w.disconnect_notify_sent
            &&& v.disconnect_event_sent ==> w.disconnect_event_sent
            &&& v.disconnect_notify_start <= v.disconnect_timeout && !v.disconnect_event_sent
                && w.disconnect_event_sent ==> w.disconnect_notify_sent
        }),
{
    let v1 = if passed(v.running_last_input_recv, RUNNING_RETRY_INTERVAL, now) {
        ProtocolView { running_last_input_recv: now, ..v.pending_sent(connect_status, now) }
    } else {
        v
    };
    let v2 = if passed(v1.running_last_quality_report, QUALITY_REPORT_INTERVAL, now) {
        v1.quality_reported(now)
    } else {
        v1
    };
    let v3 = if passed(v2.last_send_time, KEEP_ALIVE_INTERVAL, now) {
        v2.queued(MessageBodyView::KeepAlive, now)
    } else {
        v2
    };
    assert(v3.event_queue == v.event_queue);
    assert(v3.last_recv_time == v.last_recv_time);
    assert(v3.disconnect_notify_sent == v.disconnect_notify_sent);
    assert(v3.disconnect_event_sent == v.disconnect_event_sent);
    let w = v.running_polled(connect_status, now);
    let n = v.event_queue.len() as int;
    let interrupt = !v3.disconnect_notify_sent && passed(
        v3.last_recv_time,
        v3.disconnect_notify_start,
        now,
    );
    let disconnect = !v.disconnect_event_sent && passed(v.last_recv_time, v.disconnect_timeout, now);
    let added = w.event_queue.subrange(n, w.event_queue.len() as int);
    if interrupt {
        let ev = EventView::NetworkInterrupted {
            disconnect_timeout: if v3.disconnect_notify_start <= v3.disconnect_timeout {
                (v3.disconnect_timeout - v3.disconnect_notify_start) as u128
            } else {
                0
            },
        };
        if disconnect {
            assert(w.event_queue == v.event_queue.push(ev).push(EventView::Disconnected));
            assert(added =~= seq![ev, EventView::Disconnected]);
        } else {
            assert(w.event_queue == v.event_queue.push(ev));
            assert(added =~= seq![ev]);
        }
    } else {
        if disconnect {
            assert(w.event_queue == v.event_queue.push(EventView::Disconnected));
            assert(added =~= seq![EventView::Disconnected]);
        } else {
            assert(w.event_queue == v.event_queue);
            assert(added =~= Seq::<EventView>::empty());
        }
    }
    assert(w.event_queue.subrange(0, n) =~= v.event_queue);
}

/// The running endpoint `v` after its timers were checked at the times `times` in turn.
pub open spec fn timers_checked<A>(
    v: ProtocolView<A>,
    connect_status: Seq<ConnectionStatus>,
    times: Seq<u128>,
) -> ProtocolView<A>
    decreases times.len(),
{
    if times.len() == 0 {
        v
    } else {
        timers_checked(v, connect_status, times.drop_last()).running_polled(
            connect_status,
            times.last(),
        )
    }
}

/// Over any run of timer checks with no packet arriving, a running endpoint reports the
/// interruption at most once and the disconnect at most once (neither again once reported
/// before), and only adds such events to the ones it had.
pub proof fn lemma_timers_report_once<A>(
    v: ProtocolView<A>,
    connect_status: Seq<ConnectionStatus>,
    times: Seq<u128>,
)
    ensures
        ({
            let w = timers_checked(v, connect_status, times);
            let n = v.event_queue.len() as int;
            let added = w.event_queue.subrange(n, w.event_queue.len() as int);
            &&& w.event_queue.len() >= n
            &&& w.event_queue.subrange(0, n) == v.event_queue
            &&& forall|i: int|
                0 <= i < added.len() ==> (#[trigger] added[i] is NetworkInterrupted) || added[i]
                    is Disconnected
            &&& forall|i: int, j: int|
                0 <= i < j < added.len() && #[trigger] added[i] is NetworkInterrupted
                    ==> !(#[trigger] added[j] is NetworkInterrupted)
            &&& forall|i: int, j: int|
                0 <= i < j < added.len() && #[trigger] added[i] is Disconnected ==> !(
                #[trigger] added[j] is Disconnected)
            &&& v.disconnect_notify_sent ==> forall|i: int|
                0 <= i < added.len() ==> !(#[trigger] added[i] is NetworkInterrupted)
            &&& v.disconnect_event_sent ==> forall|i: int|
                0 <= i < added.len() ==> !(#[trigger] added[i] is Disconnected)
            &&& (exists|i: int| 0 <= i < added.len() && #[trigger] added[i] is NetworkInterrupted)
                ==> w.disconnect_notify_sent
            &&& (exists|i: int| 0 <= i < added.len() && #[trigger] added[i] is Disconnected)
                ==> w.disconnect_event_sent
            &&& v.disconnect_notify_sent ==> w.disconnect_notify_sent
            &&& v.disconnect_event_sent ==> w.disconnect_event_sent
        }),
    decreases times.len(),
{
    let n = v.event_queue.len() as int;
    if times.len() == 0 {
        assert(v.event_queue.subrange(0, n) =~= v.event_queue);
        assert(v.event_queue.subrange(n, n).len() == 0);
    } else {
        lemma_timers_report_once(v, connect_status, times.drop_last());
        let u = timers_checked(v, connect_status, times.drop_last());
        let w = timers_checked(v, connect_status, times);
        lemma_interrupt_then_disconnect_once(u, connect_status, times.last());
        let m = u.event_queue.len() as int;
        let before = u.event_queue.subrange(n, m);
        let new = w.event_queue.subrange(m, w.event_queue.len() as int);
        let added = w.event_queue.subrange(n, w.event_queue.len() as int);
        assert(w.event_queue.subrange(0, m) == u.event_queue);
        assert(added =~= before + new) by {
            assert forall|i: int| 0 <= i < added.len() implies added[i] == (before + new)[i] by {
                if i < m - n {
                    assert(added[i] == w.event_queue[n + i]);
                    assert(w.event_queue[n + i] == w.event_queue.subrange(0, m)[n + i]);
                }
            }
        }
        assert(w.event_queue.subrange(0, n) =~= v.event_queue) by {
            assert forall|i: int| 0 <= i < n implies w.event_queue.subrange(0, n)[i]
                == v.event_queue[i] by {
                assert(w.event_queue[i] == w.event_queue.subrange(0, m)[i]);
                assert(u.event_queue[i] == u.event_queue.subrange(0, n)[i]);
            }
        }
        assert forall|i: int, j: int|
            0 <= i < j < added.len() && #[trigger] added[i] is NetworkInterrupted implies !(
            #[trigger] added[j] is NetworkInterrupted) by {
            if j >= before.len() && i < before.len() {
                assert(before[i] is NetworkInterrupted);
                assert(u.disconnect_notify_sent);
                assert(new[j - before.len()] == added[j]);
            } else if i >= before.len() {
                assert(new[i - before.len()] == added[i]);
                assert(new[j - before.len()] == added[j]);
            } else {
                assert(before[i] == added[i]);
                assert(before[j] == added[j]);
            }
        }
        assert forall|i: int, j: int|
            0 <= i < j < added.len() && #[trigger] added[i] is Disconnected implies !(
            #[trigger] added[j] is Disconnected) by {
            if j >= before.len() && i < before.len() {
                assert(before[i] is Disconnected);
                assert(u.disconnect_event_sent);
                assert(new[j - before.len()] == added[j]);
            } else if i >= before.len() {
                assert(new[i - before.len()] == added[i]);
                assert(new[j - before.len()] == added[j]);
            } else {
                assert(before[i] == added[i]);
                assert(before[j] == added[j]);
            }
        }
        assert forall|i: int| 0 <= i < added.len() implies (#[trigger] added[i] is NetworkInterrupted)
            || added[i] is Disconnected by {
            if i < before.len() {
                assert(before[i] == added[i]);
            } else {
                assert(new[i - before.len()] == added[i]);
            }
        }
        if v.disconnect_notify_sent {
            assert forall|i: int| 0 <= i < added.len() implies !(#[trigger] added[i]
                is NetworkInterrupted) by {
                if i < before.len() {
                    assert(before[i] == added[i]);
                } else {
                    assert(new[i - before.len()] == added[i]);
                }
            }
        }
        if v.disconnect_event_sent {
            assert forall|i: int| 0 <= i < added.len() implies !(#[trigger] added[i]
                is Disconnected) by {
                if i < before.len() {
                    assert(before[i] == added[i]);
                } else {
                    assert(new[i - before.len()] == added[i]);
                }
            }
        }
        if exists|i: int| 0 <= i < added.len() && #[trigger] added[i] is NetworkInterrupted {
            let i = choose|i: int| 0 <= i < added.len() && #[trigger] added[i] is NetworkInterrupted;
            if i < before.len() {
                assert(before[i] == added[i]);
            } else {
                assert(new[i - before.len()] == added[i]);
            }
        }
        if exists|i: int| 0 <= i < added.len() && #[trigger] added[i] is Disconnected {
            let i = choose|i: int| 0 <= i < added.len() && #[trigger] added[i] is Disconnected;
            if i < before.len() {
                assert(before[i] == added[i]);
            } else {
                assert(new[i - before.len()] == added[i]);
            }
        }
    }
}

/// The handshake takes `NUM_SYNC_PACKETS` answered requests, each answer counted once: a reply
/// to a request the synchronizing endpoint made counts one roundtrip, and after the last one
/// the endpoint runs with the remote's magic value; any other reply changes nothing; and the
/// same reply arriving again after a counted, unfinished roundtrip changes nothing unless the
/// new request drew the same random value.
pub proof fn lemma_handshake_counts_replies<A>(
    v: ProtocolView<A>,
    b: SyncReply,
    magic: u16,
    nonce: u32,
    nonce2: u32,
    now: u128,
    now2: u128,
)
    requires
        v.wf(),
    ensures
        ({
            let w = v.sync_reply_handled(b, magic, nonce, now);
            let counted = v.state == ProtocolState::Synchronizing
                && v.sync_random_requests.contains(b.random_reply);
            &&& !counted ==> w == v
            &&& counted ==> w.sync_remaining_roundtrips == v.sync_remaining_roundtrips - 1
            &&& counted ==> (w.state == ProtocolState::Running <==> v.sync_remaining_roundtrips
                == 1)
            &&& counted && v.sync_remaining_roundtrips == 1 ==> w.remote_magic == magic
                && w.event_queue == v.event_queue.push(EventView::Synchronized)
            &&& counted && v.sync_remaining_roundtrips > 1 && nonce != b.random_reply
                ==> w.sync_reply_handled(b, magic, nonce2, now2) == w
        }),
{
    let w = v.sync_reply_handled(b, magic, nonce, now);
    if v.state == ProtocolState::Synchronizing && v.sync_random_requests.contains(b.random_reply)
        && v.sync_remaining_roundtrips > 1 && nonce != b.random_reply {
        assert(!w.sync_random_requests.contains(b.random_reply));
    }
}

/// An endpoint that shut down stays so: messages change nothing, and polling keeps it shut down
/// without sending anything.
pub proof fn lemma_shutdown_is_final<A>(
    v: ProtocolView<A>,
    msg: MessageView,
    connect_status: Seq<ConnectionStatus>,
    nonce: u32,
    now: u128,
)
    requires
        v.state == ProtocolState::Shutdown,
    ensures
        v.message_handled(msg, nonce, now) == v,
        v.polled(connect_status, nonce, now) == v,
{
}

/// After an acknowledgement of `ack_frame`, no pending input up to that frame is left at the
/// front of the queue, what is left is the end of what was pending, and a second identical
/// acknowledgement changes nothing.
pub proof fn lemma_acked_settles<A>(v: ProtocolView<A>, ack_frame: Frame)
    ensures
        v.acked(ack_frame).pending_output.len() > 0 ==> v.acked(ack_frame).pending_output[0].frame
            > ack_frame,
        v.acked(ack_frame).pending_output.len() <= v.pending_output.len(),
        v.acked(ack_frame).pending_output == v.pending_output.subrange(
            v.pending_output.len() - v.acked(ack_frame).pending_output.len(),
            v.pending_output.len() as int,
        ),
        v.acked(ack_frame).acked(ack_frame) == v.acked(ack_frame),
    decreases v.pending_output.len(),
{
    if v.pending_output.len() > 0 && v.pending_output[0].frame <= ack_frame {
        let w = ProtocolView {
            last_acked_input: v.pending_output[0],
            pending_output: v.pending_output.drop_first(),
            ..v
        };
        lemma_acked_settles(w, ack_frame);
        assert(w.pending_output.subrange(
            w.pending_output.len() - w.acked(ack_frame).pending_output.len(),
            w.pending_output.len() as int,
        ) =~= v.pending_output.subrange(
            v.pending_output.len() - v.acked(ack_frame).pending_output.len(),
            v.pending_output.len() as int,
        ));
    } else {
        assert(v.pending_output.subrange(0, v.pending_output.len() as int) =~= v.pending_output);
    }
}

/// Filtering a sequence whose items all pass keeps it whole.
proof fn lemma_filter_keeps_all<T>(s: Seq<T>, f: spec_fn(T) -> bool)
    requires
        forall|i: int| 0 <= i < s.len() ==> f(#[trigger] s[i]),
    ensures
        s.filter(f) == s,
    decreases s.len(),
{
    reveal(Seq::filter);
    if s.len() > 0 {
        lemma_filter_keeps_all(s.drop_last(), f);
        assert(f(s[s.len() - 1]));
        assert(s.drop_last().push(s.last()) =~= s);
    }
}

/// An acknowledgement drops every pending input up to its frame and keeps every later one:
/// when the pending inputs are in ascending frame order, what is left pending is exactly the
/// inputs of frames after `ack_frame`, in order.
pub proof fn lemma_ack_drops_acknowledged<A>(v: ProtocolView<A>, ack_frame: Frame)
    requires
        forall|i: int, j: int|
            0 <= i < j < v.pending_output.len() ==> v.pending_output[i].frame
                < v.pending_output[j].frame,
    ensures
        v.acked(ack_frame).pending_output == v.pending_output.filter(
            |x: InputBytesView| x.frame > ack_frame,
        ),
        forall|j: int|
            0 <= j < v.acked(ack_frame).pending_output.len() ==> (#[trigger] v.acked(
                ack_frame,
            ).pending_output[j]).frame > ack_frame,
    decreases v.pending_output.len(),
{
    let p = v.pending_output;
    let f = |x: InputBytesView| x.frame > ack_frame;
    if p.len() > 0 && p[0].frame <= ack_frame {
        let w = ProtocolView {
            last_acked_input: p[0],
            pending_output: p.drop_first(),
            ..v
        };
        lemma_ack_drops_acknowledged(w, ack_frame);
        assert(p =~= seq![p[0]] + p.drop_first());
        p.drop_first().lemma_filter_prepend(p[0], f);
        assert(p.filter(f) =~= w.pending_output.filter(f));
    } else {
        assert(v.acked(ack_frame) == v);
        assert forall|j: int| 0 <= j < p.len() implies #[trigger] f(p[j]) by {
            if j > 0 {
                assert(p[0].frame < p[j].frame);
            }
        }
        lemma_filter_keeps_all(p, f);
    }
}

/// The inputs a sender has pending arrive whole: when its input message reaches a receiver
/// whose reference input equals the sender's acknowledged input, the receiver decodes exactly
/// the sender's pending inputs (each shorter than 65536 bytes, with the run-length layer
/// giving back what it encoded, as `encode` ensures of the bytes it returns).
pub proof fn lemma_pending_inputs_arrive<A, B>(
    sender: ProtocolView<A>,
    receiver: ProtocolView<B>,
    connect_status: Seq<ConnectionStatus>,
)
    requires
        sender.can_send_pending(),
        receiver.can_decode(sender.pending_message(connect_status)),
        receiver.recv_inputs[receiver.decode_key(sender.pending_message(connect_status))->Some_0].bytes
            == sender.last_acked_input.bytes,
        forall|i: int|
            0 <= i < sender.pending_output.len() ==> (#[trigger] sender.pending_output[i]).bytes.len()
                < 65536,
        rle_output(sender.pending_payload(), 0) == Some(
            delta_encoded(sender.last_acked_input.bytes, sender.pending_bytes()),
        ),
    ensures
        decode_result(
            receiver.recv_inputs[receiver.decode_key(sender.pending_message(connect_status))->Some_0].bytes,
            sender.pending_message(connect_status).bytes,
        ) is Ok,
        receiver.decoded(sender.pending_message(connect_status)) == sender.pending_bytes(),
{
    let xs = sender.pending_bytes();
    assert forall|i: int| 0 <= i < xs.len() implies (#[trigger] xs[i]).len() < 65536 by {
        assert(xs[i] == sender.pending_output[i].bytes);
    }
    lemma_encode_decode(sender.last_acked_input.bytes, xs, sender.pending_payload());
}

/// The endpoint of the protocol with one remote client, which stands for the players `handles`.
pub struct UdpProtocol<A> {
    num_players: usize,
    input_size: usize,
    handles: Vec<PlayerHandle>,
    send_queue: Vec<Message>,
    event_queue: Vec<Event>,
    state: ProtocolState,
    sync_remaining_roundtrips: u32,
    sync_random_requests: HashSet<u32>,
    running_last_quality_report: u128,
    running_last_input_recv: u128,
    disconnect_notify_sent: bool,
    disconnect_event_sent: bool,
    disconnect_timeout: u128,
    disconnect_notify_start: u128,
    shutdown_timeout: u128,
    fps: usize,
    magic: u16,
    peer_addr: A,
    remote_magic: u16,
    peer_connect_status: Vec<ConnectionStatus>,
    pending_output: VecDeque<InputBytes>,
    last_acked_input: InputBytes,
    max_prediction: usize,
    recv_inputs: HashMap<Frame, InputBytes>,
    time_sync_layer: TimeSync,
    local_frame_advantage: i32,
    remote_frame_advantage: i32,
    stats_start_time: u128,
    packets_sent: usize,
    bytes_sent: usize,
    round_trip_time: u128,
    last_send_time: u128,
    last_recv_time: u128,
    pending_checksums: HashMap<Frame, u128>,
    desync_detection: DesyncDetection,
}

impl<A> View for UdpProtocol<A> {
    type V = ProtocolView<A>;

    closed spec fn view(&self) -> ProtocolView<A> {
        ProtocolView {
            num_players: self.num_players,
            input_size: self.input_size,
            handles: self.handles@,
            send_queue: self.send_queue@.map_values(|m: Message| m@),
            event_queue: self.event_queue@.map_values(|e: Event| e@),
            state: self.state,
            sync_remaining_roundtrips: self.sync_remaining_roundtrips,
            sync_random_requests: self.sync_random_requests@,
            running_last_quality_report: self.running_last_quality_report,
            running_last_input_recv: self.running_last_input_recv,
            disconnect_notify_sent: self.disconnect_notify_sent,
            disconnect_event_sent: self.disconnect_event_sent,
            disconnect_timeout: self.disconnect_timeout,
            disconnect_notify_start: self.disconnect_notify_start,
            shutdown_timeout: self.shutdown_timeout,
            fps: self.fps,
            magic: self.magic,
            peer_addr: self.peer_addr,
            remote_magic: self.remote_magic,
            peer_connect_status: self.peer_connect_status@,
            pending_output: self.pending_output@.map_values(|x: InputBytes| x@),
            last_acked_input: self.last_acked_input@,
            max_prediction: self.max_prediction,
            recv_inputs: self.recv_inputs@.map_values(|x: InputBytes| x@),
            time_sync_local: self.time_sync_layer.local_view(),
            time_sync_remote: self.time_sync_layer.remote_view(),
            local_frame_advantage: self.local_frame_advantage,
            remote_frame_advantage: self.remote_frame_advantage,
            stats_start_time: self.stats_start_time,
            packets_sent: self.packets_sent,
            bytes_sent: self.bytes_sent,
            round_trip_time: self.round_trip_time,
            last_send_time: self.last_send_time,
            last_recv_time: self.last_recv_time,
            pending_checksums: self.pending_checksums@,
            desync_detection: self.desync_detection,
        }
    }
}

impl<A> UdpProtocol<A> {
    /// An endpoint for the remote client at `peer_addr`, which stands for the players
    /// `handles`; each of their inputs is `input_size` bytes. Its own magic value is a random
    /// nonzero number; it is created at time `now` and waits for `synchronize`.
    pub fn new(
        handles: Vec<PlayerHandle>,
        peer_addr: A,
        num_players: usize,
        local_players: usize,
        input_size: usize,
        max_prediction: usize,
        disconnect_timeout: u128,
        disconnect_notify_start: u128,
        fps: usize,
        desync_detection: DesyncDetection,
        now: u128,
    ) -> (r: Self)
        requires
            handles@.len() * input_size <= usize::MAX,
            local_players * input_size <= usize::MAX,
        ensures
            r@.wf(),
            sorted(r@.handles),
            r@.handles.to_multiset() == handles@.to_multiset(),
            handles@.len() == 1 ==> r@.handles == handles@,
            r@.magic != UNINITIALIZED_MAGIC,
            r@.remote_magic == UNINITIALIZED_MAGIC,
            r@.state == ProtocolState::Initializing,
            r@.peer_addr == peer_addr,
            r@.num_players == num_players,
            r@.input_size == input_size,
            r@.max_prediction == max_prediction,
            r@.fps == fps,
            r@.disconnect_timeout == disconnect_timeout,
            r@.disconnect_notify_start == disconnect_notify_start,
            r@.desync_detection == desync_detection,
            r@.send_queue.len() == 0,
            r@.event_queue.len() == 0,
            r@.pending_output.len() == 0,
            r@.sync_random_requests.is_empty(),
            r@.sync_remaining_roundtrips == NUM_SYNC_PACKETS,
            !r@.disconnect_notify_sent,
            !r@.disconnect_event_sent,
            r@.last_acked_input == (InputBytesView {
                frame: NULL_FRAME,
                bytes: Seq::new((local_players * input_size) as nat, |i: int| 0u8),
            }),
            r@.recv_inputs == map![NULL_FRAME => InputBytesView {
                frame: NULL_FRAME,
                bytes: Seq::new((handles@.len() * input_size) as nat, |i: int| 0u8),
            }],
            r@.last_recv_frame() == NULL_FRAME,
            r@.pending_checksums.is_empty(),
            r@.local_frame_advantage == 0,
            r@.remote_frame_advantage == 0,
            r@.stats_start_time == 0,
            r@.packets_sent == 0,
            r@.bytes_sent == 0,
            r@.round_trip_time == 0,
            r@.running_last_quality_report == now,
            r@.running_last_input_recv == now,
            r@.shutdown_timeout == now,
            r@.last_send_time == now,
            r@.last_recv_time == now,
            forall|i: int|
                0 <= i < num_players ==> #[trigger] r@.peer_connect_status[i] == (
                ConnectionStatus { disconnected: false, last_frame: NULL_FRAME }),
    {
        // draw a nonzero magic value (a zero is drawn again; after many zeros in a row, 1 is
        // taken)
        let mut magic = random_u16();
        let mut tries: u32 = 0;
        while magic == UNINITIALIZED_MAGIC && tries < 64
            invariant
                tries <= 64,
            decreases 64 - tries,
        {
            magic = random_u16();
            tries = tries + 1;
        }
        if magic == UNINITIALIZED_MAGIC {
            magic = 1;
        }
        let handles = sort_handles(handles);
        proof {
            assert(handles@.len() == handles@.to_multiset().len());
        }
        let recv_player_num = handles.len();
        let mut peer_connect_status: Vec<ConnectionStatus> = Vec::new();
        let mut i: usize = 0;
        while i < num_players
            invariant
                i <= num_players,
                peer_connect_status@.len() == i,
                forall|j: int|
                    0 <= j < i ==> #[trigger] peer_connect_status@[j] == (ConnectionStatus {
                        disconnected: false,
                        last_frame: NULL_FRAME,
                    }),
            decreases num_players - i,
        {
            peer_connect_status.push(ConnectionStatus::new());
            i = i + 1;
        }
        let mut recv_inputs: HashMap<Frame, InputBytes> = HashMap::new();
        recv_inputs.insert(NULL_FRAME, InputBytes::zeroed(recv_player_num * input_size));
        let r = UdpProtocol {
            num_players,
            input_size,
            handles,
            send_queue: Vec::new(),
            event_queue: Vec::new(),
            state: ProtocolState::Initializing,
            sync_remaining_roundtrips: NUM_SYNC_PACKETS,
            sync_random_requests: HashSet::new(),
            running_last_quality_report: now,
            running_last_input_recv: now,
            disconnect_notify_sent: false,
            disconnect_event_sent: false,
            disconnect_timeout,
            disconnect_notify_start,
            shutdown_timeout: now,
            fps,
            magic,
            peer_addr,
            remote_magic: UNINITIALIZED_MAGIC,
            peer_connect_status,
            pending_output: VecDeque::new(),
            last_acked_input: InputBytes::zeroed(local_players * input_size),
            max_prediction,
            recv_inputs,
            time_sync_layer: TimeSync::new(),
            local_frame_advantage: 0,
            remote_frame_advantage: 0,
            stats_start_time: 0,
            packets_sent: 0,
            bytes_sent: 0,
            round_trip_time: 0,
            last_send_time: now,
            last_recv_time: now,
            pending_checksums: HashMap::new(),
            desync_detection,
        };
        proof {
            assert(r@.recv_inputs =~= map![NULL_FRAME => InputBytesView {
                frame: NULL_FRAME,
                bytes: Seq::new((r@.handles.len() * input_size) as nat, |i: int| 0u8),
            }]);
            assert(is_newest(r@.recv_inputs, NULL_FRAME));
            lemma_newest_unique(r@.recv_inputs, NULL_FRAME);
        }
        r
    }

    /// The players this endpoint stands for, in ascending order.
    pub fn handles(&self) -> (r: &Vec<PlayerHandle>)
        ensures
            r@ == self@.handles,
    {
        &self.handles
    }

    /// Whether the handshake is over.
    pub fn is_synchronized(&self) -> (r: bool)
        ensures
            r == self@.is_synchronized(),
    {
        self.state == ProtocolState::Running || self.state == ProtocolState::Disconnected
            || self.state == ProtocolState::Shutdown
    }

    /// Whether the endpoint is running.
    pub fn is_running(&self) -> (r: bool)
        ensures
            r == (self@.state == ProtocolState::Running),
    {
        self.state == ProtocolState::Running
    }

    /// Whether messages from `addr` are this endpoint's.
    pub fn is_handling_message(&self, addr: &A) -> (r: bool)
        where
            A: PartialEq,
        ensures
            A::obeys_eq_spec() ==> r == self@.peer_addr.eq_spec(addr),
    {
        self.peer_addr == *addr
    }

    /// What the remote client reported last of the connection of player `handle`.
    pub fn peer_connect_status(&self, handle: PlayerHandle) -> (r: ConnectionStatus)
        requires
            self@.wf(),
            handle < self@.num_players,
        ensures
            r == self@.peer_connect_status[handle as int],
    {
        self.peer_connect_status[handle]
    }

    /// The address of the remote client.
    pub fn peer_addr(&self) -> (r: A)
        where
            A: Clone,
        ensures
            vstd::pervasive::cloned(self@.peer_addr, r),
    {
        self.peer_addr.clone()
    }

    /// The checksums the remote reported, by frame.
    pub fn pending_checksums(&self) -> (r: &HashMap<Frame, u128>)
        ensures
            r@ == self@.pending_checksums,
    {
        &self.pending_checksums
    }

    /// The state of the endpoint.
    pub fn state(&self) -> (r: ProtocolState)
        ensures
            r == self@.state,
    {
        self.state
    }

    /// Queues a message with `body` for the remote client, at time `now`.
    fn queue_message(&mut self, body: MessageBody, now: u128)
        ensures
            final(self)@ == old(self)@.queued(body@, now),
    {
        let header = MessageHeader { magic: self.magic };
        let msg = Message { header, body };
        if self.packets_sent < usize::MAX {
            self.packets_sent = self.packets_sent + 1;
        }
        let size = core::mem::size_of::<Message>();
        if self.bytes_sent <= usize::MAX - size {
            self.bytes_sent = self.bytes_sent + size;
        } else {
            self.bytes_sent = usize::MAX;
        }
        self.last_send_time = now;
        let ghost before = self.send_queue@;
        self.send_queue.push(msg);
        proof {
            assert(self.send_queue@.map_values(|m: Message| m@) =~= before.map_values(
                |m: Message| m@,
            ).push(msg@));
        }
    }

    /// The frame of the newest received input.
    pub fn last_recv_frame(&self) -> (r: Frame)
        requires
            self@.wf(),
        ensures
            r == self@.last_recv_frame(),
    {
        let ghost v = self@.recv_inputs;
        proof {
            assert(v.dom() =~= self.recv_inputs@.dom());
        }
        match newest_key(&self.recv_inputs) {
            Some(k) => {
                proof {
                    assert(is_newest(v, k));
                    lemma_newest_unique(v, k);
                }
                k
            },
            None => {
                proof {
                    let k = choose|k: Frame| is_newest(v, k);
                    assert(v.dom().contains(k));
                }
                NULL_FRAME
            },
        }
    }

    /// Queues a sync request with a fresh random value, which it returns.
    fn queue_sync_request(&mut self, now: u128) -> (nonce: u32)
        ensures
            final(self)@ == old(self)@.sync_requested(nonce, now),
    {
        let nonce = random_u32();
        self.sync_random_requests.insert(nonce);
        self.queue_message(MessageBody::SyncRequest(SyncRequest { random_request: nonce }), now);
        nonce
    }

    /// Queues a keep-alive message.
    fn queue_keep_alive(&mut self, now: u128)
        ensures
            final(self)@ == old(self)@.queued(MessageBodyView::KeepAlive, now),
    {
        self.queue_message(MessageBody::KeepAlive, now);
    }

    /// Queues the acknowledgement of the newest received input.
    fn queue_input_ack(&mut self, now: u128)
        requires
            old(self)@.wf(),
        ensures
            final(self)@ == old(self)@.queued(
                MessageBodyView::InputAck(InputAck { ack_frame: old(self)@.last_recv_frame() }),
                now,
            ),
    {
        let ack_frame = self.last_recv_frame();
        self.queue_message(MessageBody::InputAck(InputAck { ack_frame }), now);
    }

    /// Queues a quality report: the local frame advantage (clamped to 16 bits) and the time.
    fn queue_quality_report(&mut self, now: u128)
        ensures
            final(self)@ == old(self)@.quality_reported(now),
    {
        self.running_last_quality_report = now;
        let adv = self.local_frame_advantage;
        let frame_advantage: i16 = if adv < -32768 {
            -32768
        } else if adv > 32767 {
            32767
        } else {
            adv as i16
        };
        self.queue_message(
            MessageBody::QualityReport(QualityReport { frame_advantage, ping: now }),
            now,
        );
    }

    /// Starts the handshake at time `now`: the endpoint synchronizes and sends its first sync
    /// request.
    pub fn synchronize(&mut self, now: u128)
        requires
            old(self)@.wf(),
            old(self)@.state == ProtocolState::Initializing,
        ensures
            final(self)@.wf(),
            exists|nonce: u32| final(self)@ == #[trigger] old(self)@.started(now).sync_requested(nonce, now),
    {
        self.state = ProtocolState::Synchronizing;
        self.sync_remaining_roundtrips = NUM_SYNC_PACKETS;
        self.stats_start_time = now;
        let nonce = self.queue_sync_request(now);
        proof {
            let k = choose|k: Frame| is_newest(old(self)@.recv_inputs, k);
            assert(is_newest(self@.recv_inputs, k));
        }
    }

    /// Disconnects the remote at time `now`; it shuts down `UDP_SHUTDOWN_TIMER` ms later. An
    /// endpoint that shut down stays so.
    pub fn disconnect(&mut self, now: u128)
        requires
            now + UDP_SHUTDOWN_TIMER <= u128::MAX,
        ensures
            final(self)@ == old(self)@.disconnected(now),
            old(self)@.wf() ==> final(self)@.wf(),
    {
        if self.state == ProtocolState::Shutdown {
            return;
        }
        self.state = ProtocolState::Disconnected;
        self.shutdown_timeout = now + UDP_SHUTDOWN_TIMER;
        proof {
            if old(self)@.wf() {
                let k = choose|k: Frame| is_newest(old(self)@.recv_inputs, k);
                assert(is_newest(self@.recv_inputs, k));
            }
        }
    }

    /// Sets the time without packets after which the remote counts as disconnected.
    pub fn set_disconnect_timeout(&mut self, timeout: u128)
        requires
            old(self)@.wf(),
        ensures
            final(self)@.wf(),
            final(self)@ == (ProtocolView { disconnect_timeout: timeout, ..old(self)@ }),
    {
        self.disconnect_timeout = timeout;
        proof {
            let k = choose|k: Frame| is_newest(old(self)@.recv_inputs, k);
            assert(is_newest(self@.recv_inputs, k));
        }
    }

    /// Sets the time without packets after which the session hears that the remote is
    /// interrupted.
    pub fn set_disconnect_notify_start(&mut self, notify_start: u128)
        requires
            old(self)@.wf(),
        ensures
            final(self)@.wf(),
            final(self)@ == (ProtocolView { disconnect_notify_start: notify_start, ..old(self)@ }),
    {
        self.disconnect_notify_start = notify_start;
        proof {
            let k = choose|k: Frame| is_newest(old(self)@.recv_inputs, k);
            assert(is_newest(self@.recv_inputs, k));
        }
    }

    /// Hands out the queued messages for the remote client and empties the queue; an endpoint
    /// that shut down sends nothing.
    pub fn take_messages(&mut self) -> (r: Vec<Message>)
        ensures
            final(self)@ == (ProtocolView { send_queue: Seq::empty(), ..old(self)@ }),
            r@.map_values(|m: Message| m@) == if old(self)@.state == ProtocolState::Shutdown {
                Seq::empty()
            } else {
                old(self)@.send_queue
            },
    {
        let mut out: Vec<Message> = Vec::new();
        core::mem::swap(&mut out, &mut self.send_queue);
        proof {
            assert(self.send_queue@.map_values(|m: Message| m@) =~= Seq::<MessageView>::empty());
        }
        if self.state == ProtocolState::Shutdown {
            let empty: Vec<Message> = Vec::new();
            proof {
                assert(empty@.map_values(|m: Message| m@) =~= Seq::<MessageView>::empty());
            }
            return empty;
        }
        out
    }

    /// Drops the pending inputs up to `ack_frame`, which the remote acknowledged.
    fn pop_pending_output(&mut self, ack_frame: Frame)
        ensures
            final(self)@ == old(self)@.acked(ack_frame),
            final(self)@.handles == old(self)@.handles,
            final(self)@.num_players == old(self)@.num_players,
            final(self)@.input_size == old(self)@.input_size,
    {
        while self.pending_output.len() > 0 && self.pending_output[0].frame <= ack_frame
            invariant
                self@.acked(ack_frame) == old(self)@.acked(ack_frame),
                self@.handles == old(self)@.handles,
                self@.num_players == old(self)@.num_players,
                self@.input_size == old(self)@.input_size,
            decreases self.pending_output@.len(),
        {
            let ghost before = self@;
            match self.pending_output.pop_front() {
                Some(x) => {
                    self.last_acked_input = x;
                },
                None => {},
            }
            proof {
                assert(self@.pending_output =~= before.pending_output.drop_first());
                assert(self@ == (ProtocolView {
                    last_acked_input: before.pending_output[0],
                    pending_output: before.pending_output.drop_first(),
                    ..before
                }));
            }
        }
    }

    /// Queues the pending inputs, compressed against the last acknowledged input, with the
    /// connection status `connect_status`. Nothing is queued when there are none, when the
    /// oldest does not follow the acknowledged input, or when they do not fit in one packet.
    fn queue_pending_output(&mut self, connect_status: &[ConnectionStatus], now: u128)
        requires
            old(self)@.wf(),
        ensures
            final(self)@ == old(self)@.pending_sent(connect_status@, now),
    {
        if self.pending_output.len() == 0 {
            return;
        }
        let start_frame = self.pending_output[0].frame;
        let acked_frame = self.last_acked_input.frame;
        if !(acked_frame == NULL_FRAME || acked_frame as i64 + 1 == start_frame as i64) {
            return;
        }
        let mut pending: Vec<Vec<u8>> = Vec::new();
        let mut i: usize = 0;
        while i < self.pending_output.len()
            invariant
                i <= self.pending_output@.len(),
                pending@.len() == i,
                forall|j: int| 0 <= j < i ==> (#[trigger] pending@[j])@ == self.pending_output@[j].bytes@,
            decreases self.pending_output@.len() - i,
        {
            pending.push(self.pending_output[i].duplicate().bytes);
            i = i + 1;
        }
        proof {
            assert(views(pending@) =~= self@.pending_bytes());
        }
        let payload = encode(self.last_acked_input.bytes.as_slice(), pending.as_slice());
        if payload.len() > MAX_PAYLOAD {
            return;
        }
        let ack_frame = self.last_recv_frame();
        let body = Input {
            peer_connect_status: vstd::slice::slice_to_vec(connect_status),
            disconnect_requested: self.state == ProtocolState::Disconnected,
            start_frame,
            ack_frame,
            bytes: payload,
        };
        self.queue_message(MessageBody::Input(body), now);
    }

    /// Takes up the local inputs of this frame, `inputs` by player handle (the inputs of the
    /// players `0..num_players` that have a frame must agree on it), while running, and sends
    /// them with the connection status `connect_status` at time `now`.
    pub fn queue_input(
        &mut self,
        inputs: &HashMap<PlayerHandle, InputBytes>,
        connect_status: &[ConnectionStatus],
        now: u128,
    )
        requires
            old(self)@.wf(),
            frames_agree(inputs@.map_values(|x: InputBytes| x@), old(self)@.num_players as nat),
        ensures
            final(self)@.wf(),
            final(self)@ == old(self)@.input_queued(
                gathered(inputs@.map_values(|x: InputBytes| x@), old(self)@.num_players as nat),
                connect_status@,
                now,
            ),
    {
        if self.state != ProtocolState::Running {
            return;
        }
        let data = gather_inputs(self.num_players, inputs);
        self.time_sync_layer.advance_frame(
            data.frame,
            self.local_frame_advantage,
            self.remote_frame_advantage,
        );
        let ghost before = self.pending_output@;
        let ghost data_view = data@;
        self.pending_output.push_back(data);
        proof {
            assert(self.pending_output@.map_values(|x: InputBytes| x@) =~= before.map_values(
                |x: InputBytes| x@,
            ).push(data_view));
        }
        if self.pending_output.len() > PENDING_OUTPUT_SIZE {
            let ghost ev = self.event_queue@;
            self.event_queue.push(Event::Disconnected);
            proof {
                assert(self.event_queue@.map_values(|e: Event| e@) =~= ev.map_values(
                    |e: Event| e@,
                ).push(EventView::Disconnected));
            }
        }
        proof {
            let k = choose|k: Frame| is_newest(old(self)@.recv_inputs, k);
            assert(is_newest(self@.recv_inputs, k));
        }
        self.queue_pending_output(connect_status, now);
        proof {
            let k = choose|k: Frame| is_newest(old(self)@.recv_inputs, k);
            assert(is_newest(self@.recv_inputs, k));
        }
    }

    /// Queues the checksum `checksum` of the game state at `frame` for the remote, unless the
    /// endpoint shut down.
    pub fn queue_checksum_report(&mut self, frame: Frame, checksum: u128, now: u128)
        ensures
            old(self)@.state == ProtocolState::Shutdown ==> final(self)@ == old(self)@,
            old(self)@.state != ProtocolState::Shutdown ==> final(self)@ == old(self)@.queued(
                MessageBodyView::ChecksumReport(ChecksumReport { checksum, frame }),
                now,
            ),
    {
        if self.state == ProtocolState::Shutdown {
            return;
        }
        self.queue_message(MessageBody::ChecksumReport(ChecksumReport { checksum, frame }), now);
    }

    /// Stores the decoded inputs `xs`, the first for frame `start`, that arrived at time `now`,
    /// reports them, acknowledges them and forgets the inputs that are too old.
    fn take_inputs(&mut self, start: Frame, xs: Vec<Vec<u8>>, now: u128)
        requires
            old(self)@.wf(),
            xs@.len() > 0 ==> old(self)@.handles.len() > 0,
            forall|i: int| 0 <= i < xs@.len() ==> (#[trigger] xs@[i])@.len() % old(self)@.handles.len() == 0,
            start + xs@.len() <= i32::MAX + 1,
        ensures
            final(self)@.wf(),
            final(self)@ == old(self)@.inputs_received(start, views(xs@), now),
            final(self)@.handles == old(self)@.handles,
            final(self)@.num_players == old(self)@.num_players,
            final(self)@.input_size == old(self)@.input_size,
    {
        let ghost xv = views(xs@);
        self.running_last_input_recv = now;
        let ghost v0 = self@;
        proof {
            let k = choose|k: Frame| is_newest(old(self)@.recv_inputs, k);
            assert(is_newest(v0.recv_inputs, k));
        }
        let mut newest = self.last_recv_frame();
        proof {
            let k = choose|k: Frame| is_newest(v0.recv_inputs, k);
            lemma_newest_unique(v0.recv_inputs, k);
        }
        let n = self.handles.len();
        let mut i: usize = 0;
        while i < xs.len()
            invariant
                v0.wf(),
                v0.handles == self@.handles,
                n == self@.handles.len(),
                xs@.len() > 0 ==> n > 0,
                xv == views(xs@),
                i <= xs@.len(),
                forall|j: int| 0 <= j < xs@.len() ==> (#[trigger] xs@[j])@.len() % (n as nat) == 0,
                start + xs@.len() <= i32::MAX + 1,
                self@ == v0.inputs_taken(start, xv, i as nat),
                is_newest(self@.recv_inputs, newest),
                newest == self@.last_recv_frame(),
            decreases xs@.len() - i,
        {
            let f: Frame = (start as i64 + i as i64) as Frame;
            proof {
                lemma_inputs_taken_frame(v0, start, xv, i as nat);
                assert(f == (start + (i + 1) - 1) as Frame);
            }
            if f > newest {
                let ghost before = self@;
                let bytes = xs[i].clone();
                proof {
                    assert(bytes@ =~= xs@[i as int]@);
                }
                let data = InputBytes { frame: f, bytes };
                let parts = data.to_player_inputs(n);
                let mut j: usize = 0;
                while j < n
                    invariant
                        j <= n,
                        n == self.handles@.len(),
                        parts@.len() == n,
                        forall|q: int|
                            0 <= q < n ==> (#[trigger] parts@[q]).0 == f && parts@[q].1@
                                == data.bytes@.subrange(
                                q * ((data.bytes@.len() as int) / (n as int)),
                                (q + 1) * ((data.bytes@.len() as int) / (n as int)),
                            ),
                        self@ == (ProtocolView { event_queue: self@.event_queue, ..before }),
                        self.event_queue@.map_values(|e: Event| e@) == before.event_queue
                            + input_events(f, data.bytes@, self.handles@).subrange(0, j as int),
                    decreases n - j,
                {
                    let part = parts[j].1.clone();
                    proof {
                        assert(part@ =~= parts@[j as int].1@);
                    }
                    let ev = Event::Input { frame: f, bytes: part, player: self.handles[j] };
                    let ghost eq = self.event_queue@;
                    self.event_queue.push(ev);
                    proof {
                        assert(self.event_queue@.map_values(|e: Event| e@) =~= eq.map_values(
                            |e: Event| e@,
                        ).push(ev@));
                        assert(input_events(f, data.bytes@, self.handles@).subrange(0, j + 1)
                            =~= input_events(f, data.bytes@, self.handles@).subrange(
                            0,
                            j as int,
                        ).push(ev@));
                    }
                    j = j + 1;
                }
                let ghost data_view = data@;
                self.recv_inputs.insert(f, data);
                proof {
                    assert(input_events(f, data_view.bytes, self.handles@).subrange(0, n as int)
                        =~= input_events(f, data_view.bytes, self.handles@));
                    assert(self.recv_inputs@.map_values(|x: InputBytes| x@) =~= before.recv_inputs.insert(
                        f,
                        data_view,
                    ));
                    lemma_newest_insert(before.recv_inputs, newest, f, data_view);
                }
                newest = f;
            }
            i = i + 1;
        }
        proof {
            lemma_inputs_taken_frame(v0, start, xv, xs@.len());
        }
        self.queue_input_ack(now);
        let ghost v4 = self@;
        let threshold: i128 = newest as i128 - 2 * (self.max_prediction as i128);
        retain_from(&mut self.recv_inputs, threshold);
        proof {
            assert(self@.recv_inputs =~= kept_from(v4.recv_inputs, threshold as int));
            lemma_newest_kept(v4.recv_inputs, newest, threshold as int);
        }
    }

    /// Takes the input message `body` that arrived at time `now`; a message this endpoint
    /// cannot take (see `input_acceptable`) is dropped.
    fn handle_input(&mut self, body: &Input, now: u128)
        requires
            old(self)@.wf(),
        ensures
            final(self)@.wf(),
            final(self)@ == old(self)@.input_handled(body@, now),
            final(self)@.handles == old(self)@.handles,
            final(self)@.num_players == old(self)@.num_players,
            final(self)@.input_size == old(self)@.input_size,
    {
        if !body.disconnect_requested && body.peer_connect_status.len() < self.num_players {
            return;
        }
        let last = self.last_recv_frame();
        if !(last == NULL_FRAME || last as i64 + 1 >= body.start_frame as i64) {
            return;
        }
        let key: Option<Frame> = if last == NULL_FRAME {
            Some(NULL_FRAME)
        } else if body.start_frame > i32::MIN {
            Some(body.start_frame - 1)
        } else {
            None
        };
        let mut decoded: Option<Vec<Vec<u8>>> = None;
        let ghost v = self@;
        match key {
            Some(k) => {
                match self.recv_inputs.get(&k) {
                    Some(reference) => {
                        proof {
                            assert(v.recv_inputs.dom().contains(k));
                            assert(v.recv_inputs[k] == reference@);
                            assert(v.can_decode(body@));
                        }
                        if !rle_decodable(body.bytes.as_slice()) {
                            return;
                        }
                        match decode(reference.bytes.as_slice(), body.bytes.as_slice()) {
                            Ok(xs) => {
                                let n = self.handles.len();
                                if n == 0 && xs.len() > 0 {
                                    proof {
                                        assert(!v.input_acceptable(body@));
                                    }
                                    return;
                                }
                                let mut i: usize = 0;
                                while i < xs.len()
                                    invariant
                                        i <= xs@.len(),
                                        self@ == old(self)@,
                                        v == old(self)@,
                                        v.wf(),
                                        v.can_decode(body@),
                                        views(xs@) == v.decoded(body@),
                                        n == self@.handles.len(),
                                        xs@.len() > 0 ==> n > 0,
                                        forall|j: int| 0 <= j < i ==> (#[trigger] xs@[j])@.len() % (n as nat) == 0,
                                    decreases xs@.len() - i,
                                {
                                    if xs[i].len() % n != 0 {
                                        proof {
                                            assert(views(xs@)[i as int] == xs@[i as int]@);
                                            assert(!v.input_acceptable(body@));
                                        }
                                        return;
                                    }
                                    i = i + 1;
                                }
                                if body.start_frame as i128 + xs.len() as i128 > i32::MAX as i128 + 1 {
                                    return;
                                }
                                decoded = Some(xs);
                            },
                            Err(_) => {
                                return;
                            },
                        }
                    },
                    None => {
                        proof {
                            assert(!v.recv_inputs.dom().contains(k));
                        }
                    },
                }
            },
            None => {},
        }
        proof {
            assert(v.input_acceptable(body@)) by {
                if v.can_decode(body@) {
                    let xs = decoded->Some_0;
                    assert(views(xs@) == v.decoded(body@));
                    assert forall|i: int| 0 <= i < v.decoded(body@).len() implies (#[trigger] v.decoded(body@)[i]).len()
                        % v.handles.len() == 0 by {
                        assert(views(xs@)[i] == xs@[i]@);
                    }
                }
            }
        }
        self.pop_pending_output(body.ack_frame);
        proof {
            lemma_acked_frame(v, body.ack_frame);
        }
        let ghost va = self@;
        if body.disconnect_requested {
            if self.state != ProtocolState::Disconnected && !self.disconnect_event_sent {
                let ghost eq = self.event_queue@;
                self.event_queue.push(Event::Disconnected);
                self.disconnect_event_sent = true;
                proof {
                    assert(self.event_queue@.map_values(|e: Event| e@) =~= eq.map_values(
                        |e: Event| e@,
                    ).push(EventView::Disconnected));
                }
            }
        } else {
            let ghost mine = self.peer_connect_status@;
            let mut i: usize = 0;
            while i < self.peer_connect_status.len()
                invariant
                    i <= mine.len(),
                    mine == va.peer_connect_status,
                    self@ == (ProtocolView { peer_connect_status: self@.peer_connect_status, ..va }),
                    self.peer_connect_status@.len() == mine.len(),
                    mine.len() <= body.peer_connect_status@.len(),
                    forall|j: int| 0 <= j < i ==> #[trigger] self.peer_connect_status@[j] == merged(mine, body.peer_connect_status@)[j],
                    forall|j: int| i <= j < mine.len() ==> #[trigger] self.peer_connect_status@[j] == mine[j],
                decreases mine.len() - i,
            {
                let m = self.peer_connect_status[i];
                let t = body.peer_connect_status[i];
                let last_frame = if m.last_frame >= t.last_frame {
                    m.last_frame
                } else {
                    t.last_frame
                };
                let merged_status = ConnectionStatus {
                    disconnected: t.disconnected || m.disconnected,
                    last_frame,
                };
                self.peer_connect_status.set(i, merged_status);
                i = i + 1;
            }
            proof {
                assert(self.peer_connect_status@ =~= merged(mine, body.peer_connect_status@));
                assert(self@ == va.status_taken(body@));
            }
        }
        let ghost v2 = self@;
        proof {
            assert(v2 == v.acked(body.ack_frame).status_taken(body@));
            assert(v2.recv_inputs == v.recv_inputs);
            let k = choose|k: Frame| is_newest(v.recv_inputs, k);
            assert(is_newest(v2.recv_inputs, k));
        }
        match decoded {
            Some(xs) => {
                proof {
                    assert(v2.can_decode(body@));
                    assert(views(xs@) == v2.decoded(body@));
                    assert forall|i: int| 0 <= i < xs@.len() implies (#[trigger] xs@[i])@.len()
                        % v2.handles.len() == 0 by {
                        assert(views(xs@)[i] == xs@[i]@);
                        assert(v2.decoded(body@)[i] == xs@[i]@);
                    }
                }
                self.take_inputs(body.start_frame, xs, now);
            },
            None => {
                proof {
                    assert(!v2.can_decode(body@));
                }
            },
        }
    }

    /// Takes the sync reply `b` that arrived with the magic value `magic` at time `now`;
    /// returns the random value of the next sync request where one is sent.
    fn handle_sync_reply(&mut self, b: SyncReply, magic: u16, now: u128) -> (nonce: u32)
        requires
            old(self)@.wf(),
        ensures
            final(self)@.wf(),
            final(self)@ == old(self)@.sync_reply_handled(b, magic, nonce, now),
            final(self)@.handles == old(self)@.handles,
            final(self)@.num_players == old(self)@.num_players,
            final(self)@.input_size == old(self)@.input_size,
    {
        if self.state != ProtocolState::Synchronizing {
            return 0;
        }
        if !self.sync_random_requests.remove(&b.random_reply) {
            proof {
                assert(self@.sync_random_requests =~= old(self)@.sync_random_requests);
            }
            return 0;
        }
        self.sync_remaining_roundtrips = self.sync_remaining_roundtrips - 1;
        let ghost eq = self.event_queue@;
        let mut nonce: u32 = 0;
        if self.sync_remaining_roundtrips > 0 {
            let evt = Event::Synchronizing {
                total: NUM_SYNC_PACKETS,
                count: NUM_SYNC_PACKETS - self.sync_remaining_roundtrips,
            };
            let ghost ev = evt@;
            self.event_queue.push(evt);
            proof {
                assert(self.event_queue@.map_values(|e: Event| e@) =~= eq.map_values(
                    |e: Event| e@,
                ).push(ev));
            }
            nonce = self.queue_sync_request(now);
        } else {
            self.state = ProtocolState::Running;
            self.event_queue.push(Event::Synchronized);
            self.remote_magic = magic;
            proof {
                assert(self.event_queue@.map_values(|e: Event| e@) =~= eq.map_values(
                    |e: Event| e@,
                ).push(EventView::Synchronized));
            }
        }
        proof {
            let k = choose|k: Frame| is_newest(old(self)@.recv_inputs, k);
            assert(is_newest(self@.recv_inputs, k));
        }
        nonce
    }

    /// Stores the checksum report `b`, forgetting the reports that are too old when the history
    /// is full.
    fn handle_checksum_report(&mut self, b: ChecksumReport)
        ensures
            final(self)@ == old(self)@.checksum_handled(b),
            final(self)@.handles == old(self)@.handles,
            final(self)@.num_players == old(self)@.num_players,
            final(self)@.input_size == old(self)@.input_size,
    {
        let interval: i128 = match self.desync_detection {
            DesyncDetection::On { interval } => interval as i128,
            DesyncDetection::Off => 1,
        };
        if self.pending_checksums.len() >= MAX_CHECKSUM_HISTORY_SIZE {
            let oldest: i128 = b.frame as i128 - (MAX_CHECKSUM_HISTORY_SIZE as i128 - 1) * interval;
            retain_from(&mut self.pending_checksums, oldest);
        }
        self.pending_checksums.insert(b.frame, b.checksum);
    }

    /// Takes the message `msg` that arrived from the remote at time `now`. Returns the random
    /// value of the sync request that it caused, if any (see `sync_reply_handled`).
    pub fn handle_message(&mut self, msg: &Message, now: u128) -> (nonce: u32)
        requires
            old(self)@.wf(),
        ensures
            final(self)@.wf(),
            final(self)@.handles == old(self)@.handles,
            final(self)@.num_players == old(self)@.num_players,
            final(self)@.input_size == old(self)@.input_size,
            final(self)@ == old(self)@.message_handled(msg@, nonce, now),
    {
        if self.state == ProtocolState::Shutdown {
            return 0;
        }
        if !(self.remote_magic == UNINITIALIZED_MAGIC || self.remote_magic == msg.header.magic
            || msg.header.magic == BROADCAST_MAGIC) {
            return 0;
        }
        self.last_recv_time = now;
        if self.disconnect_notify_sent && self.state == ProtocolState::Running {
            self.disconnect_notify_sent = false;
            let ghost eq = self.event_queue@;
            self.event_queue.push(Event::NetworkResumed);
            proof {
                assert(self.event_queue@.map_values(|e: Event| e@) =~= eq.map_values(
                    |e: Event| e@,
                ).push(EventView::NetworkResumed));
            }
        }
        proof {
            let k = choose|k: Frame| is_newest(old(self)@.recv_inputs, k);
            assert(is_newest(self@.recv_inputs, k));
        }
        let mut nonce: u32 = 0;
        let ghost v2 = self@;
        match &msg.body {
            MessageBody::SyncRequest(b) => {
                self.queue_message(
                    MessageBody::SyncReply(SyncReply { random_reply: b.random_request }),
                    now,
                );
            },
            MessageBody::SyncReply(b) => {
                nonce = self.handle_sync_reply(*b, msg.header.magic, now);
            },
            MessageBody::Input(b) => {
                self.handle_input(b, now);
            },
            MessageBody::InputAck(b) => {
                self.pop_pending_output(b.ack_frame);
                proof {
                    lemma_acked_frame(v2, b.ack_frame);
                }
            },
            MessageBody::QualityReport(b) => {
                self.remote_frame_advantage = b.frame_advantage as i32;
                self.queue_message(MessageBody::QualityReply(QualityReply { pong: b.ping }), now);
            },
            MessageBody::QualityReply(b) => {
                if now >= b.pong {
                    self.round_trip_time = now - b.pong;
                }
            },
            MessageBody::ChecksumReport(b) => {
                self.handle_checksum_report(*b);
            },
            MessageBody::KeepAlive => {},
        }
        proof {
            let k = choose|k: Frame| is_newest(old(self)@.recv_inputs, k);
            if !(msg.body is Input || msg.body is SyncReply) {
                assert(is_newest(self@.recv_inputs, k));
            }
        }
        nonce
    }

    /// Checks the timers at time `now` (see `polled`), with the connection status
    /// `connect_status` for inputs sent again, and hands out the events that occurred since the
    /// last poll. Returns them with the random value of the sync request it sent, if any.
    pub fn poll(&mut self, connect_status: &[ConnectionStatus], now: u128) -> (r: (
        Vec<Event>,
        u32,
    ))
        requires
            old(self)@.wf(),
        ensures
            final(self)@.wf(),
            final(self)@.handles == old(self)@.handles,
            final(self)@.num_players == old(self)@.num_players,
            final(self)@.input_size == old(self)@.input_size,
            final(self)@ == (ProtocolView {
                event_queue: Seq::empty(),
                ..old(self)@.polled(connect_status@, r.1, now)
            }),
            r.0@.map_values(|e: Event| e@) == old(self)@.polled(connect_status@, r.1, now).event_queue,
    {
        let mut nonce: u32 = 0;
        match self.state {
            ProtocolState::Synchronizing => {
                if has_passed(self.last_send_time, SYNC_RETRY_INTERVAL, now) {
                    nonce = self.queue_sync_request(now);
                }
            },
            ProtocolState::Running => {
                self.poll_running(connect_status, now);
            },
            ProtocolState::Disconnected => {
                if self.shutdown_timeout < now {
                    self.state = ProtocolState::Shutdown;
                }
            },
            _ => {},
        }
        let mut events: Vec<Event> = Vec::new();
        core::mem::swap(&mut events, &mut self.event_queue);
        proof {
            assert(self.event_queue@.map_values(|e: Event| e@) =~= Seq::<EventView>::empty());
            let k = choose|k: Frame| is_newest(old(self)@.recv_inputs, k);
            assert(is_newest(self@.recv_inputs, k));
        }
        (events, nonce)
    }

    /// The timers of a running endpoint (see `running_polled`).
    fn poll_running(&mut self, connect_status: &[ConnectionStatus], now: u128)
        requires
            old(self)@.wf(),
        ensures
            final(self)@.wf(),
            final(self)@ == old(self)@.running_polled(connect_status@, now),
    {
        if has_passed(self.running_last_input_recv, RUNNING_RETRY_INTERVAL, now) {
            self.queue_pending_output(connect_status, now);
            self.running_last_input_recv = now;
        }
        if has_passed(self.running_last_quality_report, QUALITY_REPORT_INTERVAL, now) {
            self.queue_quality_report(now);
        }
        if has_passed(self.last_send_time, KEEP_ALIVE_INTERVAL, now) {
            self.queue_keep_alive(now);
        }
        if !self.disconnect_notify_sent && has_passed(
            self.last_recv_time,
            self.disconnect_notify_start,
            now,
        ) {
            let left: u128 = if self.disconnect_notify_start <= self.disconnect_timeout {
                self.disconnect_timeout - self.disconnect_notify_start
            } else {
                0
            };
            let evt = Event::NetworkInterrupted { disconnect_timeout: left };
            let ghost ev = evt@;
            let ghost eq = self.event_queue@;
            self.event_queue.push(evt);
            self.disconnect_notify_sent = true;
            proof {
                assert(self.event_queue@.map_values(|e: Event| e@) =~= eq.map_values(
                    |e: Event| e@,
                ).push(ev));
            }
        }
        if !self.disconnect_event_sent && has_passed(
            self.last_recv_time,
            self.disconnect_timeout,
            now,
        ) {
            let ghost eq = self.event_queue@;
            self.event_queue.push(Event::Disconnected);
            self.disconnect_event_sent = true;
            proof {
                assert(self.event_queue@.map_values(|e: Event| e@) =~= eq.map_values(
                    |e: Event| e@,
                ).push(EventView::Disconnected));
            }
        }
        proof {
            let k = choose|k: Frame| is_newest(old(self)@.recv_inputs, k);
            assert(is_newest(self@.recv_inputs, k));
        }
    }

    /// Estimates the local frame advantage for the local frame `local_frame` (see
    /// `estimated_advantage`); nothing changes before the first input of either side.
    pub fn update_local_frame_advantage(&mut self, local_frame: Frame)
        requires
            old(self)@.wf(),
        ensures
            final(self)@.wf(),
            final(self)@.handles == old(self)@.handles,
            final(self)@.num_players == old(self)@.num_players,
            final(self)@.input_size == old(self)@.input_size,
            final(self)@ == old(self)@.advantage_at(local_frame),
    {
        let last = self.last_recv_frame();
        if local_frame == NULL_FRAME || last == NULL_FRAME {
            return;
        }
        let half = self.round_trip_time / 2;
        let ping: i128 = if half > i32::MAX as u128 {
            i32::MAX as i128
        } else {
            half as i128
        };
        assert(ping * (self.fps as i128) <= 0x8000_0000 * 0x1_0000_0000_0000_0000) by (nonlinear_arith)
            requires
                0 <= ping <= 0x7fff_ffff,
                0 <= self.fps <= 0xffff_ffff_ffff_ffff,
        ;
        let remote_frame: i128 = last as i128 + (ping * (self.fps as i128)) / 1000;
        let adv: i128 = remote_frame - local_frame as i128;
        let clamped: i32 = if adv < i32::MIN as i128 {
            i32::MIN
        } else if adv > i32::MAX as i128 {
            i32::MAX
        } else {
            adv as i32
        };
        self.local_frame_advantage = clamped;
        proof {
            let k = choose|k: Frame| is_newest(old(self)@.recv_inputs, k);
            assert(is_newest(self@.recv_inputs, k));
        }
    }

    /// The statistics of the connection at time `now`: available while synchronizing or
    /// running, once a whole second passed since the handshake started. `NotSynchronized`
    /// in the other states; `NotEnoughData` before that second is over.
    pub fn network_stats(&self, now: u128) -> (r: Result<NetworkStats, GgrsError>)
        ensures
            r is Ok <==> (self@.state == ProtocolState::Synchronizing || self@.state
                == ProtocolState::Running) && now >= self@.stats_start_time && (now
                - self@.stats_start_time) / 1000 > 0,
            !(self@.state == ProtocolState::Synchronizing || self@.state == ProtocolState::Running)
                ==> r == Err::<NetworkStats, GgrsError>(GgrsError::NotSynchronized),
            (self@.state == ProtocolState::Synchronizing || self@.state == ProtocolState::Running)
                && !(now >= self@.stats_start_time && (now - self@.stats_start_time) / 1000 > 0)
                ==> r == Err::<NetworkStats, GgrsError>(GgrsError::NotEnoughData),
            r matches Ok(st) ==> {
                &&& st.ping == self@.round_trip_time
                &&& st.send_queue_len == self@.pending_output.len()
                &&& st.kbps_sent == (self@.bytes_sent + self@.packets_sent * UDP_HEADER_SIZE) / ((
                now - self@.stats_start_time) / 1000) / 1024
                &&& st.local_frames_behind == self@.local_frame_advantage
                &&& st.remote_frames_behind == self@.remote_frame_advantage
            },
    {
        if self.state != ProtocolState::Synchronizing && self.state != ProtocolState::Running {
            return Err(GgrsError::NotSynchronized);
        }
        if now < self.stats_start_time {
            return Err(GgrsError::NotEnoughData);
        }
        let seconds = (now - self.stats_start_time) / 1000;
        if seconds == 0 {
            return Err(GgrsError::NotEnoughData);
        }
        let total: u128 = self.bytes_sent as u128 + (self.packets_sent as u128) * (
        UDP_HEADER_SIZE as u128);
        let bps: u128 = total / seconds;
        let kbps: u128 = bps / 1024;
        assert(kbps <= usize::MAX) by (nonlinear_arith)
            requires
                total <= 29 * (usize::MAX as int),
                seconds >= 1,
                bps == total / seconds,
                kbps == bps / 1024,
        ;
        Ok(
            NetworkStats {
                ping: self.round_trip_time,
                send_queue_len: self.pending_output.len(),
                kbps_sent: kbps as usize,
                local_frames_behind: self.local_frame_advantage,
                remote_frames_behind: self.remote_frame_advantage,
            },
        )
    }
}

} // verus!

