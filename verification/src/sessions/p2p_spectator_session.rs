//! A session that follows a game without playing: the host sends it the confirmed inputs of
//! all players, and it hands them out frame by frame, catching up when it falls behind.
//!
//! The session decides; the caller does the outside work: times are milliseconds from the
//! caller's clock (`now`), messages that arrived are handed in with their sender's address, and
//! the messages to send are handed out by [`SpectatorSession::take_messages`].
use vstd::prelude::*;

use super::builder::{MAX_EVENT_QUEUE_SIZE, SPECTATOR_BUFFER_SIZE};
use crate::error::GgrsError;
use crate::network::messages::{ConnectionStatus, Message, MessageView};
use crate::network::network_stats::NetworkStats;
use crate::network::protocol::{
    lemma_message_keeps_peer, Event, EventView, InputBytes, InputBytesView, ProtocolState,
    ProtocolView, UdpProtocol,
};
use crate::{Frame, GgrsEvent, InputStatus, PlayerHandle, SessionState, NULL_FRAME};
use vstd::std_specs::cmp::PartialEqSpec;

verus! {

/// The frames a spectator advances per step while it is not too far behind.
pub const NORMAL_SPEED: usize = 1;

/// The slot of the input buffer that holds the inputs of `frame`.
pub open spec fn buffer_slot(frame: Frame) -> int {
    ((frame as usize) as int) % (SPECTATOR_BUFFER_SIZE as int)
}

/// The abstract state of a [`SpectatorSession`].
pub struct SpectatorView<A> {
    pub state: SessionState,
    pub num_players: usize,
    pub inputs: Seq<Seq<InputBytesView>>,
    pub host_connect_status: Seq<ConnectionStatus>,
    pub host: ProtocolView<A>,
    pub event_queue: Seq<GgrsEvent<A>>,
    pub current_frame: Frame,
    pub last_recv_frame: Frame,
    pub max_frames_behind: usize,
    pub catchup_speed: usize,
}

impl<A> SpectatorView<A> {
    /// The session's invariant: a buffer slot per frame of the buffer with an input per player,
    /// a connection status per player, a host endpoint for all players, and a current frame
    /// that never passes the newest received one.
    pub open spec fn wf(self) -> bool {
        &&& self.num_players > 0
        &&& self.inputs.len() == SPECTATOR_BUFFER_SIZE
        &&& forall|s: int| 0 <= s < SPECTATOR_BUFFER_SIZE ==> (#[trigger] self.inputs[s]).len() == self.num_players
        &&& self.host_connect_status.len() == self.num_players
        &&& self.host.wf()
        &&& self.host.num_players == self.num_players
        &&& forall|i: int| 0 <= i < self.host.handles.len() ==> (#[trigger] self.host.handles[i]) < self.num_players
        &&& NULL_FRAME <= self.current_frame <= self.last_recv_frame
        &&& self.event_queue.len() <= MAX_EVENT_QUEUE_SIZE
        &&& forall|s: int, p: int|
            0 <= s < SPECTATOR_BUFFER_SIZE && 0 <= p < self.num_players ==> (#[trigger] self.inputs[s][p]).frame
                <= self.last_recv_frame
    }

    /// How many frames the session is behind the host.
    pub open spec fn frames_behind_host(self) -> int {
        self.last_recv_frame - self.current_frame
    }

    /// The inputs of all players for `frame`, each with its status: `PredictionThreshold` while
    /// the host did not send them yet, `SpectatorTooFarBehind` once newer inputs took their slot.
    /// A player that disconnected before `frame` is reported disconnected.
    pub open spec fn inputs_at(self, frame: int) -> Result<Seq<(Seq<u8>, InputStatus)>, GgrsError> {
        let row = self.inputs[buffer_slot(frame as Frame)];
        if row[0].frame < frame {
            Err(GgrsError::PredictionThreshold)
        } else if row[0].frame > frame {
            Err(GgrsError::SpectatorTooFarBehind)
        } else {
            Ok(
                Seq::new(
                    self.num_players as nat,
                    |h: int|
                        (
                            row[h].bytes,
                            if self.host_connect_status[h].disconnected
                                && self.host_connect_status[h].last_frame < frame {
                                InputStatus::Disconnected
                            } else {
                                InputStatus::Confirmed
                            },
                        ),
                ),
            )
        }
    }

    /// The frames one step advances: the catch-up speed when the session is more than
    /// `max_frames_behind` frames behind, else one.
    pub open spec fn step_size(self) -> int {
        if self.frames_behind_host() > self.max_frames_behind {
            self.catchup_speed as int
        } else {
            NORMAL_SPEED as int
        }
    }

    /// The inputs of the next `n` frames, in order, and the session after advancing over them;
    /// the first frame whose inputs are missing stops the advance with its error.
    pub open spec fn advanced(self, n: nat) -> (Self, Result<Seq<Seq<(Seq<u8>, InputStatus)>>, GgrsError>)
        decreases n,
    {
        if n == 0 {
            (self, Ok(Seq::empty()))
        } else {
            let (v, r) = self.advanced((n - 1) as nat);
            match r {
                Err(e) => (v, Err(e)),
                Ok(frames) => match v.inputs_at(v.current_frame + 1) {
                    Err(e) => (v, Err(e)),
                    Ok(inputs) => (
                        SpectatorView { current_frame: (v.current_frame + 1) as Frame, ..v },
                        Ok(frames.push(inputs)),
                    ),
                },
            }
        }
    }

    /// The event queue after `e` was added, with the oldest events dropped beyond
    /// `MAX_EVENT_QUEUE_SIZE`.
    pub open spec fn with_event(self, e: GgrsEvent<A>) -> Seq<GgrsEvent<A>> {
        let q = self.event_queue.push(e);
        if q.len() > MAX_EVENT_QUEUE_SIZE {
            q.subrange(q.len() - MAX_EVENT_QUEUE_SIZE, q.len() as int)
        } else {
            q
        }
    }

    /// This session after the input `bytes` of `player` for `frame` was stored: it fills the
    /// player's place in the frame's slot, becomes the newest input, updates the host's frame
    /// advantage estimate, and the players' connection status is taken over from the host.
    pub open spec fn input_stored(self, frame: Frame, bytes: Seq<u8>, player: PlayerHandle) -> Self {
        let slot = buffer_slot(frame);
        let host = if frame == NULL_FRAME || self.host.last_recv_frame() == NULL_FRAME {
            self.host
        } else {
            ProtocolView { local_frame_advantage: self.host.estimated_advantage(frame), ..self.host }
        };
        SpectatorView {
            inputs: self.inputs.update(
                slot,
                self.inputs[slot].update(player as int, InputBytesView { frame, bytes }),
            ),
            last_recv_frame: frame,
            host,
            host_connect_status: host.peer_connect_status,
            ..self
        }
    }

    /// This session after the host endpoint reported `event`, with `addr` as the host's
    /// address: the notifications are passed on (the oldest dropped beyond
    /// `MAX_EVENT_QUEUE_SIZE`), the session runs once synchronized, and an input of a player
    /// that is no older than the newest input is stored in its slot, becomes the newest, updates
    /// the host's frame advantage estimate, and the players' connection status is taken over
    /// from the host. An older input is dropped.
    pub open spec fn event_handled(self, event: EventView, addr: A) -> Self {
        match event {
            EventView::Synchronizing { total, count } => SpectatorView {
                event_queue: self.with_event(GgrsEvent::Synchronizing { addr, total, count }),
                ..self
            },
            EventView::NetworkInterrupted { disconnect_timeout } => SpectatorView {
                event_queue: self.with_event(
                    GgrsEvent::NetworkInterrupted { addr, disconnect_timeout },
                ),
                ..self
            },
            EventView::NetworkResumed => SpectatorView {
                event_queue: self.with_event(GgrsEvent::NetworkResumed { addr }),
                ..self
            },
            EventView::Synchronized => SpectatorView {
                state: SessionState::Running,
                event_queue: self.with_event(GgrsEvent::Synchronized { addr }),
                ..self
            },
            EventView::Disconnected => SpectatorView {
                event_queue: self.with_event(GgrsEvent::Disconnected { addr }),
                ..self
            },
            EventView::Input { frame, bytes, player } => if frame >= self.last_recv_frame
                && player < self.num_players {
                self.input_stored(frame, bytes, player)
            } else {
                self
            },
        }
    }
}

impl<A> SpectatorView<A> {
    /// This session after taking the events `events` of the host endpoint in turn, the `j`-th
    /// with the address `addrs[j]`.
    pub open spec fn host_events_handled(self, events: Seq<EventView>, addrs: Seq<A>) -> Self
        decreases events.len(),
    {
        if events.len() == 0 {
            self
        } else {
            self.host_events_handled(events.drop_last(), addrs.drop_last()).event_handled(
                events.last(),
                addrs.last(),
            )
        }
    }

    /// This session after its host endpoint took, in turn, the messages of `received` that
    /// `taken` marks (see `host_delivered`; the endpoint drew the nonces `sent`), was polled at
    /// time `now` (drawing `nonce`), and its events were taken, the `j`-th with the address
    /// `addrs[j]`.
    pub open spec fn host_polled(
        self,
        received: Seq<(A, Message)>,
        taken: Seq<bool>,
        sent: Seq<u32>,
        nonce: u32,
        addrs: Seq<A>,
        now: u128,
    ) -> Self {
        let h = host_delivered(self.host, received, taken, sent, now).polled(
            self.host_connect_status,
            nonce,
            now,
        );
        SpectatorView {
            host: ProtocolView { event_queue: Seq::empty(), ..h },
            ..self
        }.host_events_handled(h.event_queue, addrs)
    }
}

/// Whether `taken` marks exactly the messages of `received` whose sender is the remote of
/// `host`.
pub open spec fn from_host<A: PartialEq>(
    host: ProtocolView<A>,
    received: Seq<(A, Message)>,
    taken: Seq<bool>,
) -> bool {
    &&& taken.len() == received.len()
    &&& forall|k: int| 0 <= k < taken.len() ==> #[trigger] taken[k] == host.peer_addr.eq_spec(
        &received[k].0,
    )
}

impl<A> SpectatorView<A> {
    /// Whether stepping on from this session, as `advance_frame` does after polling, leaves the
    /// session `next` and gives `r`: `NotSynchronized` while the session does not run, else the
    /// inputs of the next frames (see `advanced` and `step_size`).
    pub open spec fn step_gives(
        self,
        next: Self,
        r: Result<Vec<Vec<(Vec<u8>, InputStatus)>>, GgrsError>,
    ) -> bool {
        if self.state != SessionState::Running {
            next == self && r == Err::<Vec<Vec<(Vec<u8>, InputStatus)>>, GgrsError>(
                GgrsError::NotSynchronized,
            )
        } else {
            &&& next == self.advanced(self.step_size() as nat).0
            &&& match self.advanced(self.step_size() as nat).1 {
                Ok(fs) => r matches Ok(v) && frames_view(v@) == fs,
                Err(e) => r matches Err(f) && f == e,
            }
        }
    }
}

/// The host endpoint `host` after it took, in turn, the messages of `received` that `taken`
/// marks; it drew the nonce `sent[k]` for the `k`-th message.
pub open spec fn host_delivered<A>(
    host: ProtocolView<A>,
    received: Seq<(A, Message)>,
    taken: Seq<bool>,
    sent: Seq<u32>,
    now: u128,
) -> ProtocolView<A>
    decreases received.len(),
{
    if received.len() == 0 {
        host
    } else {
        let prev = host_delivered(
            host,
            received.drop_last(),
            taken.drop_last(),
            sent.drop_last(),
            now,
        );
        if taken.last() {
            prev.message_handled(received.last().1@, sent.last(), now)
        } else {
            prev
        }
    }
}

/// The inputs handed out for each frame, with the bytes as sequences.
pub open spec fn frames_view(v: Seq<Vec<(Vec<u8>, InputStatus)>>) -> Seq<Seq<(Seq<u8>, InputStatus)>> {
    v.map_values(
        |f: Vec<(Vec<u8>, InputStatus)>| f@.map_values(|p: (Vec<u8>, InputStatus)| (p.0@, p.1)),
    )
}

/// Advancing over `n` frames moves only the current frame, by the frames whose inputs were
/// there: all `n`, in order, or up to the first frame whose inputs are missing.
pub proof fn lemma_advanced<A>(v: SpectatorView<A>, n: nat)
    ensures
        v.advanced(n).0 == (SpectatorView { current_frame: v.advanced(n).0.current_frame, ..v }),
        v.current_frame <= v.advanced(n).0.current_frame <= v.current_frame + n,
        v.advanced(n).1 matches Ok(fs) ==> fs.len() == n && v.advanced(n).0.current_frame
            == v.current_frame + n && forall|j: int|
            0 <= j < n ==> v.inputs_at(v.current_frame + 1 + j) == Ok::<
                Seq<(Seq<u8>, InputStatus)>,
                GgrsError,
            >(#[trigger] fs[j]),
        v.advanced(n).1 matches Err(e) ==> v.inputs_at(v.advanced(n).0.current_frame + 1) == Err::<
            Seq<(Seq<u8>, InputStatus)>,
            GgrsError,
        >(e) && v.advanced(n).0.current_frame < v.current_frame + n,
    decreases n,
{
    if n > 0 {
        lemma_advanced(v, (n - 1) as nat);
        let (w, r) = v.advanced((n - 1) as nat);
        assert(w.inputs_at(w.current_frame + 1) == v.inputs_at(w.current_frame + 1));
    }
}

/// Each frame a spectator hands out carries, for every player, the input the host sent for
/// that frame and a status that says whether the player still plays: `Disconnected` exactly
/// when the host reports the player disconnected with a last frame before that frame, and
/// `Confirmed` otherwise.
pub proof fn lemma_status_follows_host<A>(v: SpectatorView<A>, frame: int)
    requires
        v.wf(),
    ensures
        v.inputs_at(frame) matches Ok(xs) ==> {
            &&& xs.len() == v.num_players
            &&& forall|h: int|
                0 <= h < xs.len() ==> {
                    &&& (#[trigger] xs[h]).0 == v.inputs[buffer_slot(frame as Frame)][h].bytes
                    &&& (xs[h].1 == InputStatus::Disconnected <==> (
                    v.host_connect_status[h].disconnected && v.host_connect_status[h].last_frame
                        < frame))
                    &&& (xs[h].1 == InputStatus::Confirmed <==> !(
                    v.host_connect_status[h].disconnected && v.host_connect_status[h].last_frame
                        < frame))
                }
        },
{
}

/// The frames an advance hands out follow the host's connection reports: in the `j`-th frame
/// handed out, a player's input is `Disconnected` exactly when the host reports the player
/// disconnected with a last frame before that frame, and `Confirmed` otherwise.
pub proof fn lemma_advanced_status<A>(v: SpectatorView<A>, n: nat)
    requires
        v.wf(),
    ensures
        v.advanced(n).1 matches Ok(fs) ==> forall|j: int, h: int|
            0 <= j < fs.len() && 0 <= h < v.num_players ==> {
                let frame = v.current_frame + 1 + j;
                &&& (#[trigger] fs[j][h]).0 == v.inputs[buffer_slot(frame as Frame)][h].bytes
                &&& (fs[j][h].1 == InputStatus::Disconnected <==> (
                v.host_connect_status[h].disconnected && v.host_connect_status[h].last_frame
                    < frame))
                &&& (fs[j][h].1 == InputStatus::Confirmed <==> !(
                v.host_connect_status[h].disconnected && v.host_connect_status[h].last_frame
                    < frame))
            },
{
    lemma_advanced(v, n);
    if v.advanced(n).1 is Ok {
        let fs = v.advanced(n).1->Ok_0;
        assert forall|j: int, h: int| 0 <= j < fs.len() && 0 <= h < v.num_players implies {
            let frame = v.current_frame + 1 + j;
            &&& (#[trigger] fs[j][h]).0 == v.inputs[buffer_slot(frame as Frame)][h].bytes
            &&& (fs[j][h].1 == InputStatus::Disconnected <==> (
            v.host_connect_status[h].disconnected && v.host_connect_status[h].last_frame
                < frame))
            &&& (fs[j][h].1 == InputStatus::Confirmed <==> !(
            v.host_connect_status[h].disconnected && v.host_connect_status[h].last_frame
                < frame))
        } by {
            lemma_status_follows_host(v, v.current_frame + 1 + j);
            assert(v.inputs_at(v.current_frame + 1 + j) == Ok::<
                Seq<(Seq<u8>, InputStatus)>,
                GgrsError,
            >(fs[j]));
        }
    }
}

/// Once a frame's inputs are missing, advancing further stops at the same place.
pub proof fn lemma_advanced_stops<A>(v: SpectatorView<A>, k: nat, n: nat)
    requires
        0 < k <= n,
        v.advanced(k).1 is Err,
    ensures
        v.advanced(n) == v.advanced(k),
    decreases n - k,
{
    if n > k {
        lemma_advanced_stops(v, k, (n - 1) as nat);
    }
}

/// A session that follows a game from a host without playing.
pub struct SpectatorSession<A> {
    state: SessionState,
    num_players: usize,
    inputs: Vec<Vec<InputBytes>>,
    host_connect_status: Vec<ConnectionStatus>,
    host: UdpProtocol<A>,
    event_queue: Vec<GgrsEvent<A>>,
    current_frame: Frame,
    last_recv_frame: Frame,
    max_frames_behind: usize,
    catchup_speed: usize,
}

impl<A> View for SpectatorSession<A> {
    type V = SpectatorView<A>;

    closed spec fn view(&self) -> SpectatorView<A> {
        SpectatorView {
            state: self.state,
            num_players: self.num_players,
            inputs: self.inputs@.map_values(|row: Vec<InputBytes>| row@.map_values(|x: InputBytes| x@)),
            host_connect_status: self.host_connect_status@,
            host: self.host@,
            event_queue: self.event_queue@,
            current_frame: self.current_frame,
            last_recv_frame: self.last_recv_frame,
            max_frames_behind: self.max_frames_behind,
            catchup_speed: self.catchup_speed,
        }
    }
}

impl<A> SpectatorSession<A> {
    /// A spectator of a game of `num_players` players with inputs of `input_size` bytes, which
    /// follows the host through the endpoint `host` (which stands for all players). It
    /// synchronizes first; it catches up at `catchup_speed` frames per step when it is more than
    /// `max_frames_behind` frames behind. No input arrived yet.
    pub fn new(
        num_players: usize,
        input_size: usize,
        host: UdpProtocol<A>,
        max_frames_behind: usize,
        catchup_speed: usize,
    ) -> (r: Self)
        requires
            num_players > 0,
            host@.wf(),
            host@.num_players == num_players,
            forall|i: int| 0 <= i < host@.handles.len() ==> (#[trigger] host@.handles[i]) < num_players,
        ensures
            r@.wf(),
            r@.state == SessionState::Synchronizing,
            r@.num_players == num_players,
            r@.host == host@,
            r@.event_queue.len() == 0,
            r@.current_frame == NULL_FRAME,
            r@.last_recv_frame == NULL_FRAME,
            r@.max_frames_behind == max_frames_behind,
            r@.catchup_speed == catchup_speed,
            r@.host_connect_status == Seq::new(
                num_players as nat,
                |i: int| ConnectionStatus { disconnected: false, last_frame: NULL_FRAME },
            ),
            forall|s: int, p: int|
                0 <= s < SPECTATOR_BUFFER_SIZE && 0 <= p < num_players ==> (#[trigger] r@.inputs[s][p])
                    == (InputBytesView {
                    frame: NULL_FRAME,
                    bytes: Seq::new(input_size as nat, |i: int| 0u8),
                }),
    {
        let mut host_connect_status: Vec<ConnectionStatus> = Vec::new();
        let mut i: usize = 0;
        while i < num_players
            invariant
                i <= num_players,
                host_connect_status@ == Seq::new(
                    i as nat,
                    |j: int| ConnectionStatus { disconnected: false, last_frame: NULL_FRAME },
                ),
            decreases num_players - i,
        {
            host_connect_status.push(ConnectionStatus::new());
            i = i + 1;
            proof {
                assert(host_connect_status@ =~= Seq::new(
                    i as nat,
                    |j: int| ConnectionStatus { disconnected: false, last_frame: NULL_FRAME },
                ));
            }
        }
        let ghost blank = InputBytesView {
            frame: NULL_FRAME,
            bytes: Seq::new(input_size as nat, |i: int| 0u8),
        };
        let mut inputs: Vec<Vec<InputBytes>> = Vec::new();
        let mut s: usize = 0;
        while s < SPECTATOR_BUFFER_SIZE
            invariant
                blank == (InputBytesView {
                    frame: NULL_FRAME,
                    bytes: Seq::new(input_size as nat, |i: int| 0u8),
                }),
                s <= SPECTATOR_BUFFER_SIZE,
                inputs@.len() == s,
                forall|t: int|
                    0 <= t < s ==> (#[trigger] inputs@[t])@.len() == num_players && forall|p: int|
                        0 <= p < num_players ==> (#[trigger] inputs@[t]@[p])@ == blank,
            decreases SPECTATOR_BUFFER_SIZE - s,
        {
            let mut row: Vec<InputBytes> = Vec::new();
            let mut p: usize = 0;
            while p < num_players
                invariant
                    blank == (InputBytesView {
                        frame: NULL_FRAME,
                        bytes: Seq::new(input_size as nat, |i: int| 0u8),
                    }),
                    p <= num_players,
                    row@.len() == p,
                    forall|q: int| 0 <= q < p ==> (#[trigger] row@[q])@ == blank,
                decreases num_players - p,
            {
                row.push(InputBytes::zeroed(input_size));
                p = p + 1;
            }
            inputs.push(row);
            s = s + 1;
        }
        let r = SpectatorSession {
            state: SessionState::Synchronizing,
            num_players,
            inputs,
            host_connect_status,
            host,
            event_queue: Vec::new(),
            current_frame: NULL_FRAME,
            last_recv_frame: NULL_FRAME,
            max_frames_behind,
            catchup_speed,
        };
        proof {
            assert forall|t: int| 0 <= t < SPECTATOR_BUFFER_SIZE implies (#[trigger] r@.inputs[t]).len()
                == num_players by {
                assert(r@.inputs[t] == r.inputs@[t]@.map_values(|x: InputBytes| x@));
            }
            assert forall|t: int, p: int|
                0 <= t < SPECTATOR_BUFFER_SIZE && 0 <= p < num_players implies (#[trigger] r@.inputs[t][p])
                == blank by {
                assert(r@.inputs[t] == r.inputs@[t]@.map_values(|x: InputBytes| x@));
                assert(r.inputs@[t]@[p]@ == blank);
            }
        }
        r
    }

    /// The state of the session.
    pub fn current_state(&self) -> (r: SessionState)
        ensures
            r == self@.state,
    {
        self.state
    }

    /// The number of players of the game.
    pub fn num_players(&self) -> (r: usize)
        ensures
            r == self@.num_players,
    {
        self.num_players
    }

    /// How many frames the session is behind the host.
    pub fn frames_behind_host(&self) -> (r: usize)
        requires
            self@.wf(),
        ensures
            r == self@.frames_behind_host(),
    {
        (self.last_recv_frame as i64 - self.current_frame as i64) as usize
    }

    /// The statistics of the connection to the host at time `now` (see the endpoint's
    /// `network_stats`).
    pub fn network_stats(&self, now: u128) -> (r: Result<NetworkStats, GgrsError>)
        ensures
            r is Ok <==> (self@.host.state == ProtocolState::Synchronizing || self@.host.state
                == ProtocolState::Running) && now >= self@.host.stats_start_time && (now
                - self@.host.stats_start_time) / 1000 > 0,
            !(self@.host.state == ProtocolState::Synchronizing || self@.host.state
                == ProtocolState::Running) ==> r == Err::<NetworkStats, GgrsError>(
                GgrsError::NotSynchronized,
            ),
            (self@.host.state == ProtocolState::Synchronizing || self@.host.state
                == ProtocolState::Running) && !(now >= self@.host.stats_start_time && (now
                - self@.host.stats_start_time) / 1000 > 0) ==> r == Err::<NetworkStats, GgrsError>(
                GgrsError::NotEnoughData,
            ),
            r matches Ok(st) ==> st.ping == self@.host.round_trip_time
                && st.send_queue_len == self@.host.pending_output.len()
                && st.local_frames_behind == self@.host.local_frame_advantage
                && st.remote_frames_behind == self@.host.remote_frame_advantage,
    {
        self.host.network_stats(now)
    }

    /// Hands out the events since the last call; the queue is emptied.
    pub fn events(&mut self) -> (r: Vec<GgrsEvent<A>>)
        requires
            old(self)@.wf(),
        ensures
            final(self)@.wf(),
            r@ == old(self)@.event_queue,
            final(self)@ == (SpectatorView { event_queue: Seq::empty(), ..old(self)@ }),
    {
        let mut out: Vec<GgrsEvent<A>> = Vec::new();
        core::mem::swap(&mut out, &mut self.event_queue);
        out
    }

    /// The inputs of all players for `frame` (see `inputs_at`).
    fn inputs_at_frame(&self, frame: Frame) -> (r: Result<Vec<(Vec<u8>, InputStatus)>, GgrsError>)
        requires
            self@.wf(),
            frame >= 0,
        ensures
            match self@.inputs_at(frame as int) {
                Ok(xs) => r matches Ok(v) && v@.len() == xs.len() && forall|h: int|
                    0 <= h < xs.len() ==> (#[trigger] v@[h]).0@ == xs[h].0 && v@[h].1 == xs[h].1,
                Err(e) => r matches Err(f) && f == e,
            },
    {
        let slot: usize = (#[verifier::truncate] (frame as usize)) % SPECTATOR_BUFFER_SIZE;
        let ghost row = self@.inputs[slot as int];
        proof {
            assert(row == self.inputs@[slot as int]@.map_values(|x: InputBytes| x@));
            assert(row[0] == self.inputs@[slot as int]@[0]@);
        }
        let first = self.inputs[slot][0].frame;
        if first < frame {
            return Err(GgrsError::PredictionThreshold);
        }
        if first > frame {
            return Err(GgrsError::SpectatorTooFarBehind);
        }
        let mut out: Vec<(Vec<u8>, InputStatus)> = Vec::new();
        let mut h: usize = 0;
        while h < self.num_players
            invariant
                self@.wf(),
                slot < SPECTATOR_BUFFER_SIZE,
                slot as int == buffer_slot(frame),
                row == self@.inputs[slot as int],
                h <= self@.num_players,
                out@.len() == h,
                forall|q: int|
                    0 <= q < h ==> (#[trigger] out@[q]).0@ == row[q].bytes && out@[q].1 == (
                    if self@.host_connect_status[q].disconnected
                        && self@.host_connect_status[q].last_frame < frame {
                        InputStatus::Disconnected
                    } else {
                        InputStatus::Confirmed
                    }),
            decreases self@.num_players - h,
        {
            proof {
                assert(row == self.inputs@[slot as int]@.map_values(|x: InputBytes| x@));
                assert(row[h as int] == self.inputs@[slot as int]@[h as int]@);
            }
            let bytes = self.inputs[slot][h].duplicate().bytes;
            let status = self.host_connect_status[h];
            let st = if status.disconnected && status.last_frame < frame {
                InputStatus::Disconnected
            } else {
                InputStatus::Confirmed
            };
            out.push((bytes, st));
            h = h + 1;
        }
        Ok(out)
    }

    /// Adds the notification `n` to the events, dropping the oldest beyond
    /// `MAX_EVENT_QUEUE_SIZE`.
    fn push_event(&mut self, n: GgrsEvent<A>)
        requires
            old(self)@.wf(),
        ensures
            final(self)@.wf(),
            final(self)@ == (SpectatorView { event_queue: old(self)@.with_event(n), ..old(self)@ }),
    {
        self.event_queue.push(n);
        if self.event_queue.len() > MAX_EVENT_QUEUE_SIZE {
            self.event_queue.remove(0);
            proof {
                let q = old(self)@.event_queue.push(n);
                assert(self.event_queue@ =~= q.subrange(
                    q.len() - MAX_EVENT_QUEUE_SIZE,
                    q.len() as int,
                ));
            }
        }
    }

    /// Stores the input `bytes` of `player` for `frame`, no older than the newest input, and
    /// takes over the host's view of the players' connections.
    fn store_input(&mut self, frame: Frame, bytes: Vec<u8>, player: PlayerHandle)
        requires
            old(self)@.wf(),
            frame >= old(self)@.last_recv_frame,
            player < old(self)@.num_players,
        ensures
            final(self)@.wf(),
            final(self)@ == old(self)@.input_stored(frame, bytes@, player),
    {
        let slot: usize = (#[verifier::truncate] (frame as usize)) % SPECTATOR_BUFFER_SIZE;
        let ghost bv = bytes@;
        let ghost rows = self.inputs@;
        proof {
            assert(old(self)@.inputs[slot as int] == rows[slot as int]@.map_values(|x: InputBytes| x@));
        }
        self.inputs[slot].set(player, InputBytes { frame, bytes });
        let ghost new_inputs = old(self)@.inputs.update(
            slot as int,
            old(self)@.inputs[slot as int].update(player as int, InputBytesView { frame, bytes: bv }),
        );
        proof {
            assert forall|t: int| 0 <= t < rows.len() && t != slot implies #[trigger] self.inputs@[t] == rows[t] by {}
            assert(self.inputs@[slot as int]@.map_values(|x: InputBytes| x@) =~= old(self)@.inputs[slot as int].update(
                player as int,
                InputBytesView { frame, bytes: bv },
            ));
            assert(self@.inputs =~= new_inputs);
        }
        self.last_recv_frame = frame;
        self.host.update_local_frame_advantage(frame);
        let ghost mid = self@;
        let mut i: usize = 0;
        while i < self.num_players
            invariant
                old(self)@.wf(),
                frame >= old(self)@.last_recv_frame,
                player < old(self)@.num_players,
                mid.inputs == new_inputs,
                mid.last_recv_frame == frame,
                self@ == (SpectatorView { host_connect_status: self@.host_connect_status, ..mid }),
                self.host@.wf(),
                self.host@.num_players == self.num_players,
                self.host_connect_status@.len() == self.num_players,
                i <= self.num_players,
                forall|j: int| 0 <= j < i ==> #[trigger] self.host_connect_status@[j] == self.host@.peer_connect_status[j],
            decreases self.num_players - i,
        {
            let status = self.host.peer_connect_status(i);
            self.host_connect_status.set(i, status);
            i = i + 1;
        }
        proof {
            assert(self.host_connect_status@ =~= self.host@.peer_connect_status);
            assert forall|t: int, p: int|
                0 <= t < SPECTATOR_BUFFER_SIZE && 0 <= p < self@.num_players implies (#[trigger] self@.inputs[t][p]).frame
                <= self@.last_recv_frame by {
                assert(old(self)@.inputs[t][p].frame <= old(self)@.last_recv_frame);
            }
            assert forall|t: int| 0 <= t < SPECTATOR_BUFFER_SIZE implies (#[trigger] self@.inputs[t]).len() == self@.num_players by {
                assert(old(self)@.inputs[t].len() == old(self)@.num_players);
            }
        }
    }

    /// Takes the event `event` of the host endpoint, with `addr` as the host's address (see
    /// `event_handled`).
    fn handle_event(&mut self, event: Event, addr: A)
        requires
            old(self)@.wf(),
        ensures
            final(self)@.wf(),
            final(self)@ == old(self)@.event_handled(event@, addr),
    {
        match event {
            Event::Synchronizing { total, count } => {
                self.push_event(GgrsEvent::Synchronizing { addr, total, count });
            },
            Event::NetworkInterrupted { disconnect_timeout } => {
                self.push_event(GgrsEvent::NetworkInterrupted { addr, disconnect_timeout });
            },
            Event::NetworkResumed => {
                self.push_event(GgrsEvent::NetworkResumed { addr });
            },
            Event::Synchronized => {
                self.state = SessionState::Running;
                self.push_event(GgrsEvent::Synchronized { addr });
            },
            Event::Disconnected => {
                self.push_event(GgrsEvent::Disconnected { addr });
            },
            Event::Input { frame, bytes, player } => {
                if frame >= self.last_recv_frame && player < self.num_players {
                    self.store_input(frame, bytes, player);
                }
            },
        }
    }

    /// Hands the messages from the host among `received` to the host endpoint, polls it at time
    /// `now`, and takes its events with the host's address (see `host_polled`; the endpoint draws
    /// its nonces at random, and each event gets a clone of the host's address).
    pub fn poll_remote_clients(&mut self, received: &[(A, Message)], now: u128)
        where
            A: PartialEq + Clone,
        requires
            old(self)@.wf(),
        ensures
            final(self)@.wf(),
            final(self)@.num_players == old(self)@.num_players,
            final(self)@.current_frame == old(self)@.current_frame,
            final(self)@.last_recv_frame >= old(self)@.last_recv_frame,
            final(self)@.max_frames_behind == old(self)@.max_frames_behind,
            final(self)@.catchup_speed == old(self)@.catchup_speed,
            final(self)@.host.handles == old(self)@.host.handles,
            old(self)@.state == SessionState::Running ==> final(self)@.state == SessionState::Running,
            exists|taken: Seq<bool>, sent: Seq<u32>, nonce: u32, addrs: Seq<A>|
                taken.len() == received@.len() && (A::obeys_eq_spec() ==> from_host(
                    old(self)@.host,
                    received@,
                    taken,
                )) && (forall|j: int|
                    0 <= j < addrs.len() ==> vstd::pervasive::cloned(
                        old(self)@.host.peer_addr,
                        #[trigger] addrs[j],
                    )) && #[trigger] old(self)@.host_polled(received@, taken, sent, nonce, addrs, now)
                    == final(self)@,
    {
        let ghost v0 = self@;
        let ghost mut sent: Seq<u32> = Seq::empty();
        let ghost mut taken: Seq<bool> = Seq::empty();
        let mut k: usize = 0;
        while k < received.len()
            invariant
                self@.wf(),
                self@ == (SpectatorView { host: self@.host, ..v0 }),
                v0 == old(self)@,
                self@.host.handles == v0.host.handles,
                self@.host.peer_addr == v0.host.peer_addr,
                k <= received@.len(),
                sent.len() == k,
                taken.len() == k,
                A::obeys_eq_spec() ==> forall|j: int|
                    0 <= j < k ==> #[trigger] taken[j] == v0.host.peer_addr.eq_spec(
                        &received@[j].0,
                    ),
                self@.host == host_delivered(v0.host, received@.take(k as int), taken, sent, now),
            decreases received@.len() - k,
        {
            let mut nonce: u32 = 0;
            let handling = self.host.is_handling_message(&received[k].0);
            if handling {
                let ghost hb = self@.host;
                nonce = self.host.handle_message(&received[k].1, now);
                proof {
                    lemma_message_keeps_peer(hb, received@[k as int].1@, nonce, now);
                }
            }
            proof {
                assert(received@.take(k + 1).drop_last() =~= received@.take(k as int));
                assert(sent.push(nonce).drop_last() =~= sent);
                assert(taken.push(handling).drop_last() =~= taken);
                assert(received@.take(k + 1).last() == received@[k as int]);
                sent = sent.push(nonce);
                taken = taken.push(handling);
            }
            k = k + 1;
        }
        proof {
            assert(received@.take(received@.len() as int) =~= received@);
        }
        let ghost h1 = self@.host;
        let (mut events, nonce) = self.host.poll(self.host_connect_status.as_slice(), now);
        let ghost q = h1.polled(v0.host_connect_status, nonce, now).event_queue;
        let ghost v1 = self@;
        let ghost mut addrs: Seq<A> = Seq::empty();
        proof {
            assert(events@.len() == q.len()) by {
                assert(events@.map_values(|e: Event| e@).len() == q.len());
            }
            assert forall|j: int| 0 <= j < events@.len() implies (#[trigger] events@[j])@ == q[j] by {
                assert(events@.map_values(|e: Event| e@)[j] == q[j]);
            }
            assert(q.take(0) =~= Seq::<EventView>::empty());
        }
        let total = events.len();
        let mut n: usize = 0;
        while events.len() > 0
            invariant
                self@.wf(),
                self@.num_players == old(self)@.num_players,
                self@.current_frame == old(self)@.current_frame,
                self@.last_recv_frame >= old(self)@.last_recv_frame,
                self@.max_frames_behind == old(self)@.max_frames_behind,
                self@.catchup_speed == old(self)@.catchup_speed,
                self@.host.handles == old(self)@.host.handles,
                self@.host.peer_addr == old(self)@.host.peer_addr,
                old(self)@.state == SessionState::Running ==> self@.state == SessionState::Running,
                n <= total,
                total == q.len(),
                events@.len() == total - n,
                forall|j: int| 0 <= j < events@.len() ==> (#[trigger] events@[j])@ == q[n + j],
                addrs.len() == n,
                forall|j: int|
                    0 <= j < addrs.len() ==> vstd::pervasive::cloned(
                        old(self)@.host.peer_addr,
                        #[trigger] addrs[j],
                    ),
                self@ == v1.host_events_handled(q.take(n as int), addrs),
            decreases total - n,
        {
            let ghost old_events = events@;
            let e = events.remove(0);
            proof {
                assert(old_events[0] == e);
                assert forall|j: int| 0 <= j < events@.len() implies (#[trigger] events@[j])@ == q[n
                    + 1 + j] by {
                    assert(events@[j] == old_events[j + 1]);
                }
            }
            let addr = self.host.peer_addr();
            self.handle_event(e, addr);
            proof {
                assert(q.take(n + 1).drop_last() =~= q.take(n as int));
                assert(q.take(n + 1).last() == q[n as int]);
                assert(addrs.push(addr).drop_last() =~= addrs);
                addrs = addrs.push(addr);
            }
            n = n + 1;
        }
        proof {
            assert(q.take(q.len() as int) =~= q);
            assert(old(self)@.host_polled(received@, taken, sent, nonce, addrs, now) == self@);
            if A::obeys_eq_spec() {
                assert(from_host(old(self)@.host, received@, taken));
            }
        }
    }

    /// Hands out the inputs of the next frames, advancing over them (see `advanced`): the
    /// catch-up speed many while too far behind, else one.
    fn advance(&mut self) -> (r: Result<Vec<Vec<(Vec<u8>, InputStatus)>>, GgrsError>)
        requires
            old(self)@.wf(),
        ensures
            final(self)@.wf(),
            final(self)@ == old(self)@.advanced(old(self)@.step_size() as nat).0,
            match old(self)@.advanced(old(self)@.step_size() as nat).1 {
                Ok(fs) => r matches Ok(v) && frames_view(v@) == fs,
                Err(e) => r matches Err(f) && f == e,
            },
    {
        let behind = self.frames_behind_host();
        let n: usize = if behind > self.max_frames_behind {
            self.catchup_speed
        } else {
            NORMAL_SPEED
        };
        let ghost v0 = self@;
        let mut out: Vec<Vec<(Vec<u8>, InputStatus)>> = Vec::new();
        proof {
            assert(frames_view(out@) =~= Seq::<Seq<(Seq<u8>, InputStatus)>>::empty());
        }
        let mut i: usize = 0;
        while i < n
            invariant
                v0 == old(self)@,
                v0.wf(),
                n == v0.step_size(),
                i <= n,
                v0.advanced(i as nat).1 is Ok,
                self@ == v0.advanced(i as nat).0,
                self@.wf(),
                v0.advanced(i as nat).1 == Ok::<Seq<Seq<(Seq<u8>, InputStatus)>>, GgrsError>(frames_view(out@)),
            decreases n - i,
        {
            proof {
                lemma_advanced(v0, i as nat);
            }
            let ghost v = self@;
            if self.current_frame == i32::MAX {
                proof {
                    assert(v.inputs_at(v.current_frame + 1) is Err);
                    assert(v0.advanced((i + 1) as nat).0 == v);
                }
                proof {
                    lemma_advanced_stops(v0, (i + 1) as nat, n as nat);
                }
                return Err(GgrsError::PredictionThreshold);
            }
            let frame_inputs = match self.inputs_at_frame(self.current_frame + 1) {
                Ok(x) => x,
                Err(e) => {
                    proof {
                        lemma_advanced_stops(v0, (i + 1) as nat, n as nat);
                    }
                    return Err(e);
                },
            };
            let ghost fv = frame_inputs@.map_values(|p: (Vec<u8>, InputStatus)| (p.0@, p.1));
            proof {
                let xs = v.inputs_at(v.current_frame + 1)->Ok_0;
                assert(fv =~= xs);
            }
            let ghost before = out@;
            out.push(frame_inputs);
            proof {
                let row = v.inputs[buffer_slot((v.current_frame + 1) as Frame)];
                assert(row[0].frame == v.current_frame + 1);
                assert(row[0].frame <= v.last_recv_frame);
            }
            self.current_frame = self.current_frame + 1;
            proof {
                assert(frames_view(out@) =~= frames_view(before).push(fv));
            }
            i = i + 1;
        }
        Ok(out)
    }

    /// Polls the host with the messages `received` at time `now` (see `host_polled`), then,
    /// while the session runs, hands out the inputs of the next frames (the catch-up speed many
    /// while more than `max_frames_behind` frames behind, else one) and advances over them (see
    /// `step_gives`). `NotSynchronized` while the session does not run; `PredictionThreshold`
    /// for a frame whose inputs did not arrive yet, `SpectatorTooFarBehind` for one whose inputs
    /// were overwritten.
    pub fn advance_frame(&mut self, received: &[(A, Message)], now: u128) -> (r: Result<
        Vec<Vec<(Vec<u8>, InputStatus)>>,
        GgrsError,
    >)
        where
            A: PartialEq + Clone,
        requires
            old(self)@.wf(),
        ensures
            final(self)@.wf(),
            final(self)@.num_players == old(self)@.num_players,
            final(self)@.state != SessionState::Running <==> r == Err::<
                Vec<Vec<(Vec<u8>, InputStatus)>>,
                GgrsError,
            >(GgrsError::NotSynchronized),
            final(self)@.state != SessionState::Running ==> final(self)@.current_frame == old(
                self,
            )@.current_frame,
            r matches Ok(v) ==> {
                &&& v@.len() == (if final(self)@.last_recv_frame - old(self)@.current_frame
                    > old(self)@.max_frames_behind {
                    old(self)@.catchup_speed as int
                } else {
                    NORMAL_SPEED as int
                })
                &&& final(self)@.current_frame == old(self)@.current_frame + v@.len()
                &&& forall|j: int|
                    0 <= j < v@.len() ==> final(self)@.inputs_at(old(self)@.current_frame + 1 + j)
                        == Ok::<Seq<(Seq<u8>, InputStatus)>, GgrsError>(
                        #[trigger] frames_view(v@)[j],
                    )
            },
            r matches Err(e) ==> (e != GgrsError::NotSynchronized ==> final(self)@.inputs_at(
                final(self)@.current_frame + 1,
            ) == Err::<Seq<(Seq<u8>, InputStatus)>, GgrsError>(e) && old(self)@.current_frame
                <= final(self)@.current_frame),
            exists|taken: Seq<bool>, sent: Seq<u32>, nonce: u32, addrs: Seq<A>|
                taken.len() == received@.len() && (A::obeys_eq_spec() ==> from_host(
                    old(self)@.host,
                    received@,
                    taken,
                )) && (forall|j: int|
                    0 <= j < addrs.len() ==> vstd::pervasive::cloned(
                        old(self)@.host.peer_addr,
                        #[trigger] addrs[j],
                    )) && (#[trigger] old(self)@.host_polled(
                    received@,
                    taken,
                    sent,
                    nonce,
                    addrs,
                    now,
                )).step_gives(final(self)@, r),
    {
        self.poll_remote_clients(received, now);
        if self.state != SessionState::Running {
            return Err(GgrsError::NotSynchronized);
        }
        let ghost mid = self@;
        let r = self.advance();
        proof {
            lemma_advanced(mid, mid.step_size() as nat);
            let w = mid.advanced(mid.step_size() as nat).0;
            assert forall|j: int| 0 <= j < mid.step_size() implies #[trigger] w.inputs_at(mid.current_frame + 1 + j)
                == mid.inputs_at(mid.current_frame + 1 + j) by {}
            assert(w.inputs_at(w.current_frame + 1) == mid.inputs_at(w.current_frame + 1));
        }
        r
    }

    /// Hands out the messages the host endpoint queued, each with the host's address.
    pub fn take_messages(&mut self) -> (r: Vec<(A, Message)>)
        where
            A: Clone,
        requires
            old(self)@.wf(),
        ensures
            final(self)@.wf(),
            final(self)@ == (SpectatorView {
                host: ProtocolView { send_queue: Seq::empty(), ..old(self)@.host },
                ..old(self)@
            }),
            r@.len() == (if old(self)@.host.state == ProtocolState::Shutdown {
                0
            } else {
                old(self)@.host.send_queue.len()
            }),
            forall|k: int|
                0 <= k < r@.len() ==> vstd::pervasive::cloned(old(self)@.host.peer_addr, (#[trigger] r@[k]).0)
                    && r@[k].1@ == old(self)@.host.send_queue[k],
    {
        let mut msgs = self.host.take_messages();
        proof {
            let k = choose|k: Frame| crate::network::protocol::is_newest(old(self)@.host.recv_inputs, k);
            assert(crate::network::protocol::is_newest(self@.host.recv_inputs, k));
        }
        let ghost msgs0 = msgs@;
        let total = msgs.len();
        let mut out: Vec<(A, Message)> = Vec::new();
        let mut k: usize = 0;
        while msgs.len() > 0
            invariant
                total == msgs0.len(),
                msgs@ == msgs0.subrange(k as int, msgs0.len() as int),
                k <= msgs0.len(),
                out@.len() == k,
                self.host@.peer_addr == old(self)@.host.peer_addr,
                forall|q: int|
                    0 <= q < k ==> vstd::pervasive::cloned(old(self)@.host.peer_addr, (#[trigger] out@[q]).0)
                        && out@[q].1 == msgs0[q],
            decreases total - k,
        {
            let m = msgs.remove(0);
            out.push((self.host.peer_addr(), m));
            k = k + 1;
            proof {
                assert(msgs@ =~= msgs0.subrange(k as int, msgs0.len() as int));
            }
        }
        proof {
            if old(self)@.host.state != ProtocolState::Shutdown {
                assert forall|q: int| 0 <= q < out@.len() implies out@[q].1@ == old(self)@.host.send_queue[q] by {
                    assert(msgs0.map_values(|m: Message| m@)[q] == msgs0[q]@);
                }
            } else {
                assert(msgs0.map_values(|m: Message| m@).len() == 0);
            }
        }
        out
    }
}

} // verus!
