//! A session that plays with remote clients: it keeps one protocol endpoint per remote player,
//! exchanges inputs with them, and rolls the game back and forth through [`GGRSInterface`] when
//! a remote input differs from its prediction.
//!
//! The session decides; the caller does the outside work. Times are milliseconds that the caller
//! reads from its clock (`now`); messages that arrived are handed in with the address they came
//! from, and the messages to send are handed out by [`P2PSession::take_messages`].
use vstd::prelude::*;

use std::collections::HashMap;

use super::error::GGRSError;
use super::frame_info::{GameInput, GameState};
use super::network_stats::{Network, NetworkStats, TimeSync};
use super::sync_layer::{
    first_incorrect, lemma_first_incorrect_min, lemma_replayed_keeps_incorrect, prediction_reset,
    replay_inputs, replayed, ring_slot_after,
    SyncLayer, SyncLayerView,
};
use super::{
    FrameNumber, GameCall, GGRSInterface, SessionState, MAX_INPUT_DELAY, MAX_PLAYERS, MAX_PREDICTION_FRAMES,
};
use crate::input_queue::InputQueueView;
use crate::network::messages::{ConnectionStatus, Message, MessageView};
use crate::network::protocol::{
    frames_agree, gathered, Event, EventView, InputBytes, InputBytesView, ProtocolState,
    ProtocolView, UdpProtocol, UDP_SHUTDOWN_TIMER,
};
use crate::{DesyncDetection, PlayerHandle, PlayerType, MAX_INPUT_BYTES, NULL_FRAME};
use vstd::std_specs::cmp::PartialEqSpec;

verus! {

broadcast use vstd::array::axiom_array_ext_equal;

/// Milliseconds without packets after which a remote player counts as disconnected.
pub const DEFAULT_DISCONNECT_TIMEOUT: u128 = 5000;

/// Milliseconds without packets after which the session hears that a remote is interrupted.
pub const DEFAULT_DISCONNECT_NOTIFY_START: u128 = 750;

/// The minimum number of frames between two sleeps that compensate for being ahead.
pub const RECOMMENDATION_INTERVAL: u64 = 240;

/// The frame rate the endpoints assume when they estimate the remote's frame.
pub const ENDPOINT_FPS: usize = 60;

/// The latest time, in milliseconds, the session can be called with.
pub const MAX_TIME: u128 = u128::MAX - UDP_SHUTDOWN_TIMER;

/// What a player handle stands for.
#[derive(Debug, Copy, Clone, PartialEq, Eq, Structural)]
pub enum PlayerKind {
    /// No player was added for the handle yet.
    Vacant,
    /// A player on this device.
    Local,
    /// A player on a remote device, served by an endpoint.
    Remote,
}

/// The player an endpoint stands for.
pub open spec fn handle_of<A>(e: ProtocolView<A>) -> PlayerHandle {
    e.handles[0]
}

/// The abstract state of a [`P2PSession`].
pub struct P2PView<A> {
    pub num_players: u32,
    pub input_size: usize,
    pub layer: SyncLayerView,
    pub disconnect_timeout: u128,
    pub disconnect_notify_start: u128,
    pub next_recommended_sleep: u64,
    pub state: SessionState,
    pub kinds: Seq<PlayerKind>,
    pub endpoints: Seq<ProtocolView<A>>,
    pub local_connect_status: Seq<ConnectionStatus>,
}

impl<A> P2PView<A> {
    /// The session's invariant: its parts agree on the players and the input size, and every
    /// endpoint stands for one remote player and every remote player has exactly one endpoint.
    pub open spec fn wf(self) -> bool {
        &&& self.layer.wf()
        &&& self.layer.num_players == self.num_players
        &&& self.layer.input_size == self.input_size
        &&& self.input_size <= MAX_INPUT_BYTES
        &&& self.kinds.len() == self.num_players
        &&& self.local_connect_status.len() == self.num_players
        &&& self.disconnect_notify_start <= self.disconnect_timeout
        &&& forall|i: int|
            0 <= i < self.endpoints.len() ==> {
                let e = #[trigger] self.endpoints[i];
                &&& e.wf()
                &&& e.num_players == self.num_players
                &&& e.input_size == self.input_size
                &&& e.handles.len() == 1
                &&& handle_of(e) < self.num_players
                &&& self.kinds[handle_of(e) as int] == PlayerKind::Remote
            }
        &&& forall|i: int, j: int|
            0 <= i < j < self.endpoints.len() ==> handle_of(#[trigger] self.endpoints[i])
                != handle_of(#[trigger] self.endpoints[j])
        &&& forall|h: int|
            0 <= h < self.num_players && #[trigger] self.kinds[h] == PlayerKind::Remote ==> exists|
                i: int,
            | 0 <= i < self.endpoints.len() && handle_of(#[trigger] self.endpoints[i]) == h
    }

    /// The endpoint of the remote player `h`.
    pub open spec fn endpoint_of(self, h: PlayerHandle) -> int {
        choose|i: int| 0 <= i < self.endpoints.len() && handle_of(self.endpoints[i]) == h
    }

    /// This session with every endpoint of player `h` changed by `f`.
    pub open spec fn map_endpoints_of(
        self,
        h: PlayerHandle,
        f: spec_fn(ProtocolView<A>) -> ProtocolView<A>,
    ) -> Seq<ProtocolView<A>> {
        Seq::new(
            self.endpoints.len(),
            |i: int|
                if handle_of(self.endpoints[i]) == h {
                    f(self.endpoints[i])
                } else {
                    self.endpoints[i]
                },
        )
    }

    /// The input an event brings for `frame`: the bytes, padded with zeros to the buffer.
    pub open spec fn input_for(frame: FrameNumber, bytes: Seq<u8>, size: usize) -> GameInput {
        choose|g: GameInput| is_input_for(g, frame, bytes, size)
    }

    /// Whether the input `bytes` of player `h` for `frame` is taken: the player is connected,
    /// the frame follows its last one, the bytes have the input size, and the player's queue can
    /// store the input.
    pub open spec fn input_takes(self, h: PlayerHandle, frame: FrameNumber, bytes: Seq<u8>) -> bool {
        &&& !self.local_connect_status[h as int].disconnected
        &&& self.local_connect_status[h as int].last_frame + 1 == frame
        &&& bytes.len() == self.input_size
        &&& self.layer.queues[h as int].add_input_ok(Self::input_for(frame, bytes, self.input_size))
    }

    /// This session after the endpoint of player `h` reported `event` at time `now`: the
    /// handshake is checked when it synchronized, the player is disconnected when it
    /// disconnected, and an input it took (see `input_takes`) moves the player's last frame on and
    /// enters its queue. Other events only concern the user.
    pub open spec fn event_handled(self, event: EventView, h: PlayerHandle, now: u128) -> Self {
        match event {
            EventView::Synchronized => self.sync_checked(),
            EventView::Disconnected => self.player_disconnected(h, now),
            EventView::Input { frame, bytes, player } => if self.input_takes(h, frame, bytes) {
                P2PView {
                    local_connect_status: self.local_connect_status.update(
                        h as int,
                        ConnectionStatus { last_frame: frame, ..self.local_connect_status[h as int] },
                    ),
                    layer: self.layer.with_queues(
                        self.layer.queues.update(
                            h as int,
                            self.layer.queues[h as int].after_add(
                                Self::input_for(frame, bytes, self.input_size),
                            ),
                        ),
                    ),
                    ..self
                }
            } else {
                self
            },
            _ => self,
        }
    }

    /// This session and the confirmed frame `total` after looking at player `h`: the frames of
    /// a player every running endpoint reports connected count towards the confirmed frame
    /// (with the local last frame while the player is locally connected); a player some remote
    /// reports disconnected is disconnected here too, unless it already is at an earlier frame.
    pub open spec fn confirm_handle(self, h: PlayerHandle, total: int, now: u128) -> (Self, int) {
        let eps = self.endpoints;
        let local = self.local_connect_status[h as int];
        let qm0 = reports_min(eps, h, eps.len());
        let qm = if !local.disconnected && (local.last_frame as int) < qm0 {
            local.last_frame as int
        } else {
            qm0
        };
        if reports_connected(eps, h, eps.len() as int) {
            (self, if qm < total {
                qm
            } else {
                total
            })
        } else if !local.disconnected || local.last_frame > qm {
            (self.player_disconnected(h, now), total)
        } else {
            (self, total)
        }
    }

    /// This session and the confirmed frame after looking at the players `0..k` in turn.
    pub open spec fn confirm_upto(self, k: nat, now: u128) -> (Self, int)
        decreases k,
    {
        if k == 0 {
            (self, i32::MAX as int)
        } else {
            let (v, t) = self.confirm_upto((k - 1) as nat, now);
            v.confirm_handle((k - 1) as PlayerHandle, t, now)
        }
    }

    /// The local inputs `add_local_input(h, bytes)` can take: for a local player of a running
    /// session, bytes of the input size that the player's queue can store (unless the
    /// prediction threshold refuses the input first).
    pub open spec fn local_input_ok(self, h: PlayerHandle, bytes: Seq<u8>) -> bool {
        h < self.num_players && self.kinds[h as int] == PlayerKind::Local && self.state
            == SessionState::Running ==> {
            &&& bytes.len() == self.input_size
            &&& !self.layer.prediction_threshold_reached() ==> self.layer.queues[h as int].add_input_ok(
                Self::input_for(self.layer.current_frame, bytes, self.input_size),
            )
        }
    }

    /// This session after the local player `h` gave the input `bytes` at time `now`: the input
    /// enters the player's queue; where it was not dropped, the player's last frame becomes the
    /// frame it was stored at and every endpoint sends it to its remote.
    pub open spec fn local_input_added(self, h: PlayerHandle, bytes: Seq<u8>, now: u128) -> Self {
        let g = Self::input_for(self.layer.current_frame, bytes, self.input_size);
        let q = self.layer.queues[h as int];
        let f = q.add_result(g);
        let v1 = P2PView {
            layer: self.layer.with_queues(self.layer.queues.update(h as int, q.after_add(g))),
            ..self
        };
        if f == NULL_FRAME {
            v1
        } else {
            let lcs = v1.local_connect_status.update(
                h as int,
                ConnectionStatus { last_frame: f as FrameNumber, ..v1.local_connect_status[h as int] },
            );
            P2PView {
                local_connect_status: lcs,
                endpoints: Seq::new(
                    v1.endpoints.len(),
                    |i: int|
                        v1.endpoints[i].input_queued(
                            InputBytesView { frame: f as FrameNumber, bytes },
                            lcs,
                            now,
                        ),
                ),
                ..v1
            }
        }
    }

    /// This session after checking whether the handshake is over: a synchronizing session runs
    /// once every endpoint is synchronized.
    pub open spec fn sync_checked(self) -> Self {
        if self.state == SessionState::Synchronizing && forall|i: int|
            0 <= i < self.endpoints.len() ==> (#[trigger] self.endpoints[i]).is_synchronized() {
            P2PView { state: SessionState::Running, ..self }
        } else {
            self
        }
    }

    /// This session after player `h` was disconnected at time `now`: its endpoint disconnects,
    /// the player counts as disconnected, and the handshake is checked again.
    pub open spec fn player_disconnected(self, h: PlayerHandle, now: u128) -> Self {
        (P2PView {
            endpoints: self.map_endpoints_of(h, |e: ProtocolView<A>| e.disconnected(now)),
            local_connect_status: self.local_connect_status.update(
                h as int,
                ConnectionStatus { disconnected: true, ..self.local_connect_status[h as int] },
            ),
            ..self
        }).sync_checked()
    }
}

/// Whether `g` is the input for `frame` with the bytes `bytes` of an input of `size` bytes.
pub open spec fn is_input_for(g: GameInput, frame: FrameNumber, bytes: Seq<u8>, size: usize) -> bool {
    &&& g.frame == frame
    &&& g.size == size
    &&& g.buffer@ == bytes + Seq::new((8 - size) as nat, |i: int| 0u8)
}

/// The classic statistics for the endpoint statistics `st`: the ping is capped at `usize::MAX`,
/// and no receive queue is counted.
pub open spec fn classic_stats(st: crate::network::network_stats::NetworkStats) -> NetworkStats {
    NetworkStats {
        network: Network {
            send_queue_len: st.send_queue_len,
            recv_queue_len: 0,
            ping: if st.ping > usize::MAX {
                usize::MAX
            } else {
                st.ping as usize
            },
            kbps_sent: st.kbps_sent,
        },
        timesync: TimeSync {
            local_frames_behind: st.local_frames_behind,
            remote_frames_behind: st.remote_frames_behind,
        },
    }
}

/// Whether every running endpoint among the first `k` of `eps` reports player `h` connected.
pub open spec fn reports_connected<A>(eps: Seq<ProtocolView<A>>, h: PlayerHandle, k: int) -> bool {
    forall|i: int|
        0 <= i < k && (#[trigger] eps[i]).state == ProtocolState::Running
            ==> !eps[i].peer_connect_status[h as int].disconnected
}

/// The earliest last frame of player `h` that a running endpoint among the first `k` of `eps`
/// reports (`i32::MAX` when none does).
pub open spec fn reports_min<A>(eps: Seq<ProtocolView<A>>, h: PlayerHandle, k: nat) -> int
    decreases k,
{
    if k == 0 {
        i32::MAX as int
    } else {
        let m = reports_min(eps, h, (k - 1) as nat);
        let e = eps[k - 1];
        if e.state == ProtocolState::Running && (e.peer_connect_status[h as int].last_frame as int)
            < m {
            e.peer_connect_status[h as int].last_frame as int
        } else {
            m
        }
    }
}

/// Gathering the inputs of a single player gives that player's input.
pub proof fn lemma_gathered_single(h: PlayerHandle, x: InputBytesView, n: nat)
    requires
        h < n,
        n <= usize::MAX,
        x.frame != NULL_FRAME,
    ensures
        gathered(map![h => x], n) == x,
    decreases n,
{
    let m = map![h => x];
    if n == h + 1 {
        lemma_gathered_before(h, x, h as nat);
        assert(m.dom().contains(h));
        assert(Seq::<u8>::empty() + x.bytes =~= x.bytes);
    } else {
        lemma_gathered_single(h, x, (n - 1) as nat);
        assert(!m.dom().contains((n - 1) as PlayerHandle));
    }
}

/// Gathering before a single player's handle gives nothing.
pub proof fn lemma_gathered_before(h: PlayerHandle, x: InputBytesView, n: nat)
    requires
        n <= h,
    ensures
        gathered(map![h => x], n) == (InputBytesView { frame: NULL_FRAME, bytes: Seq::empty() }),
    decreases n,
{
    if n > 0 {
        lemma_gathered_before(h, x, (n - 1) as nat);
        assert(!map![h => x].dom().contains((n - 1) as PlayerHandle));
    }
}

/// Whether `e` is the endpoint that adding the remote player `h` at `addr` at time `now`
/// creates in session `v`: a new endpoint for that player and address, with the session's
/// sizes and timeouts, waiting for the handshake.
pub open spec fn fresh_endpoint<A>(
    e: ProtocolView<A>,
    h: PlayerHandle,
    addr: A,
    v: P2PView<A>,
    now: u128,
) -> bool {
    &&& e.wf()
    &&& e.handles == seq![h]
    &&& e.peer_addr == addr
    &&& e.num_players == v.num_players
    &&& e.input_size == v.input_size
    &&& e.max_prediction == MAX_PREDICTION_FRAMES
    &&& e.fps == ENDPOINT_FPS
    &&& e.disconnect_timeout == v.disconnect_timeout
    &&& e.disconnect_notify_start == v.disconnect_notify_start
    &&& e.desync_detection == DesyncDetection::Off
    &&& e.state == ProtocolState::Initializing
    &&& e.send_queue.len() == 0
    &&& e.event_queue.len() == 0
    &&& e.pending_output.len() == 0
    &&& e.last_send_time == now
    &&& e.last_recv_time == now
}

/// The messages the endpoints `eps` hand out, in endpoint order, each with the address of its
/// endpoint's remote.
pub open spec fn outbox<A>(eps: Seq<ProtocolView<A>>) -> Seq<(A, MessageView)>
    decreases eps.len(),
{
    if eps.len() == 0 {
        Seq::empty()
    } else {
        let e = eps.last();
        let sent = if e.state == ProtocolState::Shutdown {
            Seq::<MessageView>::empty()
        } else {
            e.send_queue
        };
        outbox(eps.drop_last()) + sent.map_values(|m: MessageView| (e.peer_addr, m))
    }
}

/// Endpoints `b` keep the shape of endpoints `a`: as many, each well formed, standing for the
/// same players with the same sizes.
pub open spec fn same_shape<A>(a: Seq<ProtocolView<A>>, b: Seq<ProtocolView<A>>) -> bool {
    &&& a.len() == b.len()
    &&& forall|j: int|
        0 <= j < b.len() ==> (#[trigger] b[j]).wf() && b[j].num_players == a[j].num_players
            && b[j].input_size == a[j].input_size && b[j].handles == a[j].handles
}

/// The first endpoint of `eps`, from the `i`-th on, whose remote has the address `from`
/// (`-1` when there is none).
pub open spec fn first_from<A: PartialEq>(eps: Seq<ProtocolView<A>>, from: A, i: int) -> int
    decreases eps.len() - i,
{
    if i < 0 || i >= eps.len() {
        -1
    } else if eps[i].peer_addr.eq_spec(&from) {
        i
    } else {
        first_from(eps, from, i + 1)
    }
}

/// The endpoints `eps` after each message of `received`, in turn, went to the endpoint
/// `route[k]` (to none when that is not an endpoint's index, and the message is dropped); the
/// endpoint that took the `k`-th message drew the nonce `nonces[k]`.
pub open spec fn routed<A>(
    eps: Seq<ProtocolView<A>>,
    received: Seq<(A, Message)>,
    route: Seq<int>,
    nonces: Seq<u32>,
    now: u128,
) -> Seq<ProtocolView<A>>
    decreases received.len(),
{
    if received.len() == 0 {
        eps
    } else {
        let prev = routed(eps, received.drop_last(), route.drop_last(), nonces.drop_last(), now);
        let i = route.last();
        if i < 0 || i >= prev.len() {
            prev
        } else {
            prev.update(i, prev[i].message_handled(received.last().1@, nonces.last(), now))
        }
    }
}

/// Whether `route` sends each message of `received` to the first endpoint whose remote sent
/// it, and to none when no endpoint's remote did (see `first_from`).
pub open spec fn first_routing<A: PartialEq>(
    eps: Seq<ProtocolView<A>>,
    received: Seq<(A, Message)>,
    route: Seq<int>,
    nonces: Seq<u32>,
    now: u128,
) -> bool
    decreases received.len(),
{
    received.len() == 0 || (first_routing(
        eps,
        received.drop_last(),
        route.drop_last(),
        nonces.drop_last(),
        now,
    ) && route.last() == first_from(
        routed(eps, received.drop_last(), route.drop_last(), nonces.drop_last(), now),
        received.last().0,
        0,
    ))
}

/// Whether `route` names, for each of `k` messages, one of `n` endpoints or none (`-1`).
pub open spec fn valid_route(route: Seq<int>, k: nat, n: nat) -> bool {
    &&& route.len() == k
    &&& forall|j: int| 0 <= j < route.len() ==> -1 <= #[trigger] route[j] < n
}

/// The endpoint `e` after it was polled with the local connection status `status` at time
/// `now`, drawing the nonce `nonce`, and its events were taken.
pub open spec fn polled_endpoint<A>(
    e: ProtocolView<A>,
    status: Seq<ConnectionStatus>,
    nonce: u32,
    now: u128,
) -> ProtocolView<A> {
    ProtocolView { event_queue: Seq::empty(), ..e.polled(status, nonce, now) }
}

/// The events that polling the first `nonces.len()` endpoints of `eps` in turn gives, each with
/// the player of its endpoint; the `k`-th endpoint drew the nonce `nonces[k]`.
pub open spec fn polled_events<A>(
    eps: Seq<ProtocolView<A>>,
    status: Seq<ConnectionStatus>,
    nonces: Seq<u32>,
    now: u128,
) -> Seq<(EventView, PlayerHandle)>
    decreases nonces.len(),
{
    if nonces.len() == 0 {
        Seq::empty()
    } else {
        let k = nonces.len() - 1;
        let h = handle_of(eps[k]);
        polled_events(eps, status, nonces.drop_last(), now) + eps[k].polled(
            status,
            nonces.last(),
            now,
        ).event_queue.map_values(|e: EventView| (e, h))
    }
}

impl<A> P2PView<A> {
    /// This session after taking the events `events` in turn at time `now`.
    pub open spec fn events_handled(self, events: Seq<(EventView, PlayerHandle)>, now: u128) -> Self
        decreases events.len(),
    {
        if events.len() == 0 {
            self
        } else {
            self.events_handled(events.drop_last(), now).event_handled(
                events.last().0,
                events.last().1,
                now,
            )
        }
    }

    /// This session after polling its endpoints at time `now` with the messages `received`:
    /// each message goes to the endpoint `route` names for it (see `routed`; the endpoints drew
    /// the nonces `sent`), then the session goes on as `polled_and_confirmed` says.
    pub open spec fn endpoints_polled(
        self,
        received: Seq<(A, Message)>,
        route: Seq<int>,
        sent: Seq<u32>,
        polled: Seq<u32>,
        now: u128,
    ) -> Self {
        P2PView {
            endpoints: routed(self.endpoints, received, route, sent, now),
            ..self
        }.polled_and_confirmed(polled, now)
    }

    /// Whether stepping a frame from the polled session `p`, as `advance_frame` does after
    /// polling, may leave the session `next` with the result `r`: only the sync layer changes;
    /// a session that does not run stays as it is with `NotSynchronized`; queues that cannot
    /// serve the current frame give `GeneralFailure`; and on success the queues are those of
    /// the advanced frame after any rollback (see `resolved_queues`).
    pub open spec fn frame_outcome(p: Self, next: Self, r: Result<(), GGRSError>) -> bool {
        &&& next == (P2PView { layer: next.layer, ..p })
        &&& p.state != SessionState::Running ==> next == p && r == Err::<(), GGRSError>(
            GGRSError::NotSynchronized,
        )
        &&& p.state == SessionState::Running && !p.layer.serves_all(p.layer.current_frame) ==> r
            == Err::<(), GGRSError>(GGRSError::GeneralFailure)
        &&& r is Ok ==> next.layer.queues == p.layer.resolved_queues()
    }

    /// This session after every endpoint estimated its frame advantage at the current frame,
    /// the endpoints were polled in turn at time `now` (drawing the nonces `polled`) and their
    /// events were taken in that order; then the confirmed frame is found (see `confirm_upto`)
    /// and, where a player counts and every queue can discard up to it, becomes the last
    /// confirmed frame.
    pub open spec fn polled_and_confirmed(self, polled: Seq<u32>, now: u128) -> Self {
        let e2 = Seq::new(
            self.endpoints.len(),
            |i: int| self.endpoints[i].advantage_at(self.layer.current_frame),
        );
        let status = self.local_connect_status;
        let v = P2PView {
            endpoints: Seq::new(e2.len(), |i: int| polled_endpoint(e2[i], status, polled[i], now)),
            ..self
        };
        let w = v.events_handled(polled_events(e2, status, polled, now), now);
        let (x, t) = w.confirm_upto(w.num_players as nat, now);
        if t != i32::MAX && x.layer.can_confirm(t as FrameNumber) {
            P2PView { layer: x.layer.confirmed(t as FrameNumber), ..x }
        } else {
            x
        }
    }
}

/// Whether the events `events` are, one for one, the event views `views` with their players.
spec fn events_match(events: Seq<(Event, PlayerHandle)>, views: Seq<(EventView, PlayerHandle)>) -> bool {
    &&& events.len() == views.len()
    &&& forall|j: int|
        0 <= j < events.len() ==> (#[trigger] events[j]).0@ == views[j].0 && events[j].1
            == views[j].1
}

/// A session whose endpoints keep their shape and whose connection status keeps its length
/// stays well formed.
pub proof fn lemma_reshaped_wf<A>(v: P2PView<A>, w: P2PView<A>)
    requires
        v.wf(),
        same_shape(v.endpoints, w.endpoints),
        w == (P2PView {
            endpoints: w.endpoints,
            state: w.state,
            local_connect_status: w.local_connect_status,
            ..v
        }),
        w.local_connect_status.len() == v.local_connect_status.len(),
    ensures
        w.wf(),
{
    assert forall|i: int| 0 <= i < w.endpoints.len() implies {
        let e = #[trigger] w.endpoints[i];
        &&& e.wf()
        &&& e.num_players == w.num_players
        &&& e.input_size == w.input_size
        &&& e.handles.len() == 1
        &&& handle_of(e) < w.num_players
        &&& w.kinds[handle_of(e) as int] == PlayerKind::Remote
    } by {
        assert(v.endpoints[i].wf());
    }
    assert forall|i: int, j: int|
        0 <= i < j < w.endpoints.len() implies handle_of(#[trigger] w.endpoints[i]) != handle_of(
        #[trigger] w.endpoints[j],
    ) by {
        assert(handle_of(w.endpoints[i]) == handle_of(v.endpoints[i]));
        assert(handle_of(w.endpoints[j]) == handle_of(v.endpoints[j]));
    }
    assert forall|g: int|
        0 <= g < w.num_players && #[trigger] w.kinds[g] == PlayerKind::Remote implies exists|k: int|
        0 <= k < w.endpoints.len() && handle_of(#[trigger] w.endpoints[k]) == g by {
        let k = choose|k: int|
            0 <= k < v.endpoints.len() && handle_of(#[trigger] v.endpoints[k]) == g;
        assert(handle_of(w.endpoints[k]) == handle_of(v.endpoints[k]));
    }
}

/// Disconnecting a player keeps the session's players, sizes and frame, keeps the shape of its
/// endpoints, and moves its state only from synchronizing to running.
pub proof fn lemma_disconnect_shape<A>(v: P2PView<A>, h: PlayerHandle, now: u128)
    requires
        v.wf(),
    ensures
        v.player_disconnected(h, now).num_players == v.num_players,
        v.player_disconnected(h, now).input_size == v.input_size,
        v.player_disconnected(h, now).kinds == v.kinds,
        v.player_disconnected(h, now).layer == v.layer,
        same_shape(v.endpoints, v.player_disconnected(h, now).endpoints),
        v.state == SessionState::Running ==> v.player_disconnected(h, now).state
            == SessionState::Running,
        v.state == SessionState::Initializing ==> v.player_disconnected(h, now).state
            == SessionState::Initializing,
{
    let w = v.player_disconnected(h, now);
    assert forall|j: int| 0 <= j < w.endpoints.len() implies (#[trigger] w.endpoints[j]).wf()
        && w.endpoints[j].num_players == v.endpoints[j].num_players
        && w.endpoints[j].input_size == v.endpoints[j].input_size
        && w.endpoints[j].handles == v.endpoints[j].handles by {
        let e = v.endpoints[j];
        assert(e.wf());
        if handle_of(e) == h && e.state != ProtocolState::Shutdown {
            let k = choose|k: crate::Frame| crate::network::protocol::is_newest(e.recv_inputs, k);
            assert(crate::network::protocol::is_newest(e.disconnected(now).recv_inputs, k));
        }
    }
}

/// Taking an event keeps the session's players, sizes and frame, keeps the shape of its
/// endpoints, and moves its state only from synchronizing to running.
pub proof fn lemma_event_shape<A>(v: P2PView<A>, event: EventView, h: PlayerHandle, now: u128)
    requires
        v.wf(),
    ensures
        v.event_handled(event, h, now).num_players == v.num_players,
        v.event_handled(event, h, now).input_size == v.input_size,
        v.event_handled(event, h, now).kinds == v.kinds,
        v.event_handled(event, h, now).layer.current_frame == v.layer.current_frame,
        same_shape(v.endpoints, v.event_handled(event, h, now).endpoints),
        v.state == SessionState::Running ==> v.event_handled(event, h, now).state
            == SessionState::Running,
        v.state == SessionState::Initializing ==> v.event_handled(event, h, now).state
            == SessionState::Initializing,
{
    assert(same_shape(v.endpoints, v.endpoints)) by {
        assert forall|j: int| 0 <= j < v.endpoints.len() implies (#[trigger] v.endpoints[j]).wf() by {}
    }
    match event {
        EventView::Disconnected => {
            lemma_disconnect_shape(v, h, now);
        },
        _ => {},
    }
}

/// Confirming keeps the session's players, sizes and frame, keeps the shape of its endpoints,
/// and moves its state only from synchronizing to running.
pub proof fn lemma_confirm_shape<A>(v: P2PView<A>, k: nat, now: u128)
    requires
        v.wf(),
        k <= v.num_players,
    ensures
        v.confirm_upto(k, now).0.wf(),
        v.confirm_upto(k, now).0.num_players == v.num_players,
        v.confirm_upto(k, now).0.input_size == v.input_size,
        v.confirm_upto(k, now).0.kinds == v.kinds,
        v.confirm_upto(k, now).0.layer == v.layer,
        same_shape(v.endpoints, v.confirm_upto(k, now).0.endpoints),
        v.state == SessionState::Running ==> v.confirm_upto(k, now).0.state
            == SessionState::Running,
        v.state == SessionState::Initializing ==> v.confirm_upto(k, now).0.state
            == SessionState::Initializing,
    decreases k,
{
    if k == 0 {
        assert(same_shape(v.endpoints, v.endpoints)) by {
            assert forall|j: int| 0 <= j < v.endpoints.len() implies (#[trigger] v.endpoints[j]).wf() by {}
        }
    } else {
        lemma_confirm_shape(v, (k - 1) as nat, now);
        let (w, t) = v.confirm_upto((k - 1) as nat, now);
        let h = (k - 1) as PlayerHandle;
        lemma_disconnect_shape(w, h, now);
        let u = w.player_disconnected(h, now);
        assert(same_shape(v.endpoints, u.endpoints)) by {
            assert forall|j: int| 0 <= j < u.endpoints.len() implies (#[trigger] u.endpoints[j]).wf()
                && u.endpoints[j].num_players == v.endpoints[j].num_players
                && u.endpoints[j].input_size == v.endpoints[j].input_size
                && u.endpoints[j].handles == v.endpoints[j].handles by {
                assert(w.endpoints[j].handles == v.endpoints[j].handles);
            }
        }
        lemma_reshaped_wf(w, u);
    }
}

/// Creates a peer-to-peer session for `num_players` players with inputs of `input_size`
/// bytes; add the players, then start it. `InvalidRequest` when the number of players or the
/// input size exceeds its maximum (`MAX_PLAYERS`, `MAX_INPUT_BYTES`). The socket is the
/// caller's.
pub fn start_p2p_session<A>(num_players: u32, input_size: usize) -> (r: Result<
    P2PSession<A>,
    GGRSError,
>)
    ensures
        (num_players > MAX_PLAYERS || input_size > MAX_INPUT_BYTES) <==> r == Err::<
            P2PSession<A>,
            GGRSError,
        >(GGRSError::InvalidRequest),
        r matches Ok(s) ==> s@.wf() && s@.num_players == num_players && s@.input_size
            == input_size && s@.state == SessionState::Initializing && s@.endpoints.len() == 0
            && s@.kinds == Seq::new(num_players as nat, |i: int| PlayerKind::Vacant),
{
    if num_players > MAX_PLAYERS {
        return Err(GGRSError::InvalidRequest);
    }
    if input_size > MAX_INPUT_BYTES {
        return Err(GGRSError::InvalidRequest);
    }
    Ok(P2PSession::new(num_players, input_size))
}

/// A disconnected player stays disconnected: neither the events of the endpoints nor the
/// disconnects and confirmations of the session ever connect it again.
pub proof fn lemma_disconnected_stays<A>(
    v: P2PView<A>,
    event: EventView,
    h: PlayerHandle,
    g: PlayerHandle,
    k: nat,
    now: u128,
)
    requires
        v.wf(),
        g < v.num_players,
        h < v.num_players,
        k <= v.num_players,
        v.local_connect_status[g as int].disconnected,
    ensures
        v.player_disconnected(h, now).local_connect_status[g as int].disconnected,
        v.event_handled(event, h, now).local_connect_status[g as int].disconnected,
        v.confirm_upto(k, now).0.local_connect_status[g as int].disconnected,
    decreases k,
{
    if k > 0 {
        lemma_disconnected_stays(v, event, h, g, (k - 1) as nat, now);
        lemma_confirm_shape(v, (k - 1) as nat, now);
        let (w, t) = v.confirm_upto((k - 1) as nat, now);
        lemma_disconnected_stays(w, event, (k - 1) as PlayerHandle, g, 0, now);
    }
}

/// A session that plays with remote clients over the peer-to-peer protocol.
pub struct P2PSession<A> {
    num_players: u32,
    input_size: usize,
    sync_layer: SyncLayer,
    disconnect_timeout: u128,
    disconnect_notify_start: u128,
    next_recommended_sleep: u64,
    state: SessionState,
    kinds: Vec<PlayerKind>,
    endpoints: Vec<UdpProtocol<A>>,
    local_connect_status: Vec<ConnectionStatus>,
}

impl<A> View for P2PSession<A> {
    type V = P2PView<A>;

    closed spec fn view(&self) -> P2PView<A> {
        P2PView {
            num_players: self.num_players,
            input_size: self.input_size,
            layer: self.sync_layer@,
            disconnect_timeout: self.disconnect_timeout,
            disconnect_notify_start: self.disconnect_notify_start,
            next_recommended_sleep: self.next_recommended_sleep,
            state: self.state,
            kinds: self.kinds@,
            endpoints: self.endpoints@.map_values(|e: UdpProtocol<A>| e@),
            local_connect_status: self.local_connect_status@,
        }
    }
}

impl<A> P2PSession<A> {
    /// A session for `num_players` players with inputs of `input_size` bytes: no players added
    /// yet, a fresh sync layer, and every player connected without input.
    pub fn new(num_players: u32, input_size: usize) -> (r: Self)
        requires
            input_size <= MAX_INPUT_BYTES,
        ensures
            r@.wf(),
            r@.num_players == num_players,
            r@.input_size == input_size,
            r@.state == SessionState::Initializing,
            r@.disconnect_timeout == DEFAULT_DISCONNECT_TIMEOUT,
            r@.disconnect_notify_start == DEFAULT_DISCONNECT_NOTIFY_START,
            r@.next_recommended_sleep == 0,
            r@.endpoints.len() == 0,
            r@.kinds == Seq::new(num_players as nat, |i: int| PlayerKind::Vacant),
            r@.local_connect_status == Seq::new(
                num_players as nat,
                |i: int| ConnectionStatus { disconnected: false, last_frame: NULL_FRAME },
            ),
            r@.layer.current_frame == 0,
            r@.layer.last_confirmed_frame == NULL_FRAME,
            forall|i: int|
                0 <= i < num_players ==> (#[trigger] r@.layer.queues[i]).is_new(
                    i as PlayerHandle,
                    input_size,
                ),
    {
        let mut kinds: Vec<PlayerKind> = Vec::new();
        let mut local_connect_status: Vec<ConnectionStatus> = Vec::new();
        let mut i: u32 = 0;
        while i < num_players
            invariant
                i <= num_players,
                kinds@ == Seq::new(i as nat, |j: int| PlayerKind::Vacant),
                local_connect_status@ == Seq::new(
                    i as nat,
                    |j: int| ConnectionStatus { disconnected: false, last_frame: NULL_FRAME },
                ),
            decreases num_players - i,
        {
            kinds.push(PlayerKind::Vacant);
            local_connect_status.push(ConnectionStatus::new());
            i = i + 1;
            proof {
                assert(kinds@ =~= Seq::new(i as nat, |j: int| PlayerKind::Vacant));
                assert(local_connect_status@ =~= Seq::new(
                    i as nat,
                    |j: int| ConnectionStatus { disconnected: false, last_frame: NULL_FRAME },
                ));
            }
        }
        let r = P2PSession {
            num_players,
            input_size,
            sync_layer: SyncLayer::new(num_players, input_size),
            disconnect_timeout: DEFAULT_DISCONNECT_TIMEOUT,
            disconnect_notify_start: DEFAULT_DISCONNECT_NOTIFY_START,
            next_recommended_sleep: 0,
            state: SessionState::Initializing,
            kinds,
            endpoints: Vec::new(),
            local_connect_status,
        };
        proof {
            assert(r@.endpoints =~= Seq::<ProtocolView<A>>::empty());
        }
        r
    }

    /// The state of the session.
    pub fn current_state(&self) -> (r: SessionState)
        ensures
            r == self@.state,
    {
        self.state
    }

    /// The current frame.
    pub fn current_frame(&self) -> (r: FrameNumber)
        ensures
            r == self@.layer.current_frame,
    {
        self.sync_layer.current_frame()
    }

    /// What the session knows of the connection of every player.
    pub fn local_connect_status(&self) -> (r: &Vec<ConnectionStatus>)
        ensures
            r@ == self@.local_connect_status,
    {
        &self.local_connect_status
    }

    /// Adds a player: `InvalidRequest` once the session started, `InvalidHandle` for a handle
    /// of no player, `InvalidRequest` for a handle already taken. A remote player gets an
    /// endpoint for its address and no input delay (remote players delay their inputs at their
    /// end). Spectators are not supported yet.
    pub fn add_player(&mut self, player_type: PlayerType<A>, player_handle: PlayerHandle, now: u128) -> (r:
        Result<(), GGRSError>)
        requires
            old(self)@.wf(),
            !(old(self)@.state == SessionState::Initializing && player_handle < old(self)@.num_players
                && old(self)@.kinds[player_handle as int] == PlayerKind::Vacant
                && player_type is Spectator),
        ensures
            final(self)@.wf(),
            old(self)@.state != SessionState::Initializing ==> r == Err::<(), GGRSError>(
                GGRSError::InvalidRequest,
            ) && final(self)@ == old(self)@,
            old(self)@.state == SessionState::Initializing && player_handle >= old(self)@.num_players
                ==> r == Err::<(), GGRSError>(GGRSError::InvalidHandle) && final(self)@ == old(
                self,
            )@,
            old(self)@.state == SessionState::Initializing && player_handle < old(self)@.num_players
                && old(self)@.kinds[player_handle as int] != PlayerKind::Vacant ==> r == Err::<
                (),
                GGRSError,
            >(GGRSError::InvalidRequest) && final(self)@ == old(self)@,
            old(self)@.state == SessionState::Initializing && player_handle < old(self)@.num_players
                && old(self)@.kinds[player_handle as int] == PlayerKind::Vacant
                && player_type is Local ==> r is Ok && final(self)@ == (P2PView {
                kinds: old(self)@.kinds.update(player_handle as int, PlayerKind::Local),
                ..old(self)@
            }),
            old(self)@.state == SessionState::Initializing && player_handle < old(self)@.num_players
                && old(self)@.kinds[player_handle as int] == PlayerKind::Vacant
                && player_type is Remote ==> r is Ok && final(self)@ == (P2PView {
                kinds: old(self)@.kinds.update(player_handle as int, PlayerKind::Remote),
                endpoints: old(self)@.endpoints.push(final(self)@.endpoints.last()),
                layer: old(self)@.layer.with_queues(
                    old(self)@.layer.queues.update(
                        player_handle as int,
                        InputQueueView {
                            frame_delay: 0,
                            ..old(self)@.layer.queues[player_handle as int]
                        },
                    ),
                ),
                ..old(self)@
            }) && fresh_endpoint(
                final(self)@.endpoints.last(),
                player_handle,
                player_type->Remote_0,
                old(self)@,
                now,
            ),
    {
        if self.state != SessionState::Initializing {
            return Err(GGRSError::InvalidRequest);
        }
        if player_handle >= self.num_players as PlayerHandle {
            return Err(GGRSError::InvalidHandle);
        }
        if self.kinds[player_handle] != PlayerKind::Vacant {
            return Err(GGRSError::InvalidRequest);
        }
        match player_type {
            PlayerType::Local => {
                self.kinds.set(player_handle, PlayerKind::Local);
                proof {
                    assert forall|i: int, j: int|
                        0 <= i < j < self@.endpoints.len() implies handle_of(
                        #[trigger] self@.endpoints[i],
                    ) != handle_of(#[trigger] self@.endpoints[j]) by {
                        assert(self@.endpoints[i] == old(self)@.endpoints[i]);
                        assert(self@.endpoints[j] == old(self)@.endpoints[j]);
                    }
                    assert forall|h: int|
                        0 <= h < self@.num_players && #[trigger] self@.kinds[h]
                            == PlayerKind::Remote implies exists|i: int|
                        0 <= i < self@.endpoints.len() && handle_of(#[trigger] self@.endpoints[i])
                            == h by {
                        assert(old(self)@.kinds[h] == PlayerKind::Remote);
                        let i = choose|i: int|
                            0 <= i < old(self)@.endpoints.len() && handle_of(
                                #[trigger] old(self)@.endpoints[i],
                            ) == h;
                        assert(self@.endpoints[i] == old(self)@.endpoints[i]);
                    }
                }
                Ok(())
            },
            PlayerType::Remote(addr) => {
                let mut handles: Vec<PlayerHandle> = Vec::new();
                handles.push(player_handle);
                let endpoint = UdpProtocol::new(
                    handles,
                    addr,
                    self.num_players as usize,
                    1,
                    self.input_size,
                    MAX_PREDICTION_FRAMES as usize,
                    self.disconnect_timeout,
                    self.disconnect_notify_start,
                    ENDPOINT_FPS,
                    DesyncDetection::Off,
                    now,
                );
                let ghost ev = endpoint@;
                self.endpoints.push(endpoint);
                self.kinds.set(player_handle, PlayerKind::Remote);
                self.sync_layer.set_frame_delay(player_handle, 0);
                proof {
                    assert(self@.endpoints =~= old(self)@.endpoints.push(ev));
                    assert(handle_of(ev) == player_handle);
                    assert forall|i: int| 0 <= i < self@.endpoints.len() implies {
                        let e = #[trigger] self@.endpoints[i];
                        &&& e.wf()
                        &&& e.num_players == self@.num_players
                        &&& e.input_size == self@.input_size
                        &&& e.handles.len() == 1
                        &&& handle_of(e) < self@.num_players
                        &&& self@.kinds[handle_of(e) as int] == PlayerKind::Remote
                    } by {
                        if i < old(self)@.endpoints.len() {
                            assert(self@.endpoints[i] == old(self)@.endpoints[i]);
                        }
                    }
                    assert forall|i: int, j: int|
                        0 <= i < j < self@.endpoints.len() implies handle_of(
                        #[trigger] self@.endpoints[i],
                    ) != handle_of(#[trigger] self@.endpoints[j]) by {
                        assert(self@.endpoints[i] == old(self)@.endpoints[i]);
                        if j < old(self)@.endpoints.len() {
                            assert(self@.endpoints[j] == old(self)@.endpoints[j]);
                        } else {
                            assert(old(self)@.kinds[handle_of(old(self)@.endpoints[i]) as int]
                                == PlayerKind::Remote);
                        }
                    }
                    assert forall|h: int|
                        0 <= h < self@.num_players && #[trigger] self@.kinds[h]
                            == PlayerKind::Remote implies exists|i: int|
                        0 <= i < self@.endpoints.len() && handle_of(#[trigger] self@.endpoints[i])
                            == h by {
                        if h == player_handle {
                            assert(handle_of(self@.endpoints[old(self)@.endpoints.len() as int]) == h);
                        } else {
                            assert(old(self)@.kinds[h] == PlayerKind::Remote);
                            let i = choose|i: int|
                                0 <= i < old(self)@.endpoints.len() && handle_of(
                                    #[trigger] old(self)@.endpoints[i],
                                ) == h;
                            assert(self@.endpoints[i] == old(self)@.endpoints[i]);
                        }
                    }
                }
                Ok(())
            },
            PlayerType::Spectator(_) => Err(GGRSError::InvalidRequest),
        }
    }

    /// Starts the session: its endpoints begin their handshakes at time `now`.
    /// `InvalidRequest` when the session already started or a player is missing. A remote player
    /// must not have been disconnected before the start.
    pub fn start_session(&mut self, now: u128) -> (r: Result<(), GGRSError>)
        requires
            old(self)@.wf(),
            old(self)@.state == SessionState::Initializing ==> forall|i: int|
                0 <= i < old(self)@.endpoints.len() ==> (#[trigger] old(self)@.endpoints[i]).state
                    == ProtocolState::Initializing,
        ensures
            final(self)@.wf(),
            r is Err ==> r == Err::<(), GGRSError>(GGRSError::InvalidRequest) && final(self)@
                == old(self)@,
            r is Ok <==> old(self)@.state == SessionState::Initializing && forall|h: int|
                0 <= h < old(self)@.num_players ==> #[trigger] old(self)@.kinds[h]
                    != PlayerKind::Vacant,
            r is Ok ==> final(self)@ == (P2PView {
                state: SessionState::Synchronizing,
                endpoints: final(self)@.endpoints,
                ..old(self)@
            }) && final(self)@.endpoints.len() == old(self)@.endpoints.len() && forall|i: int|
                0 <= i < old(self)@.endpoints.len() ==> exists|nonce: u32|
                    #[trigger] final(self)@.endpoints[i] == old(self)@.endpoints[i].started(
                        now,
                    ).sync_requested(nonce, now),
    {
        if self.state != SessionState::Initializing {
            return Err(GGRSError::InvalidRequest);
        }
        let mut h: usize = 0;
        while h < self.num_players as usize
            invariant
                self@ == old(self)@,
                self@.wf(),
                h <= self@.num_players,
                forall|j: int| 0 <= j < h ==> #[trigger] self@.kinds[j] != PlayerKind::Vacant,
            decreases self@.num_players - h,
        {
            if self.kinds[h] == PlayerKind::Vacant {
                return Err(GGRSError::InvalidRequest);
            }
            h = h + 1;
        }
        self.state = SessionState::Synchronizing;
        let ghost eps0 = self.endpoints@;
        let ghost mut nonces: Seq<u32> = Seq::empty();
        proof {
            assert forall|j: int| 0 <= j < eps0.len() implies (#[trigger] eps0[j])@.wf() by {
                assert(old(self)@.endpoints[j] == eps0[j]@);
            }
        }
        let mut i: usize = 0;
        while i < self.endpoints.len()
            invariant
                old(self)@.wf(),
                old(self)@.state == SessionState::Initializing,
                forall|j: int|
                    0 <= j < old(self)@.endpoints.len() ==> (#[trigger] old(self)@.endpoints[j]).state
                        == ProtocolState::Initializing,
                eps0 == old(self).endpoints@,
                i <= self.endpoints@.len(),
                self.endpoints@.len() == eps0.len(),
                nonces.len() == i,
                self.state == SessionState::Synchronizing,
                self.num_players == old(self).num_players,
                self.input_size == old(self).input_size,
                self.sync_layer@ == old(self).sync_layer@,
                self.disconnect_timeout == old(self).disconnect_timeout,
                self.disconnect_notify_start == old(self).disconnect_notify_start,
                self.next_recommended_sleep == old(self).next_recommended_sleep,
                self.kinds@ == old(self).kinds@,
                self.local_connect_status@ == old(self).local_connect_status@,
                forall|j: int|
                    0 <= j < i ==> (#[trigger] self.endpoints@[j])@ == eps0[j]@.started(
                        now,
                    ).sync_requested(nonces[j], now),
                forall|j: int| i <= j < eps0.len() ==> #[trigger] self.endpoints@[j] == eps0[j],
                forall|j: int|
                    0 <= j < eps0.len() ==> (#[trigger] self.endpoints@[j])@.wf()
                        && self.endpoints@[j]@.num_players == eps0[j]@.num_players
                        && self.endpoints@[j]@.input_size == eps0[j]@.input_size
                        && self.endpoints@[j]@.handles == eps0[j]@.handles,
            decreases eps0.len() - i,
        {
            proof {
                assert(old(self)@.endpoints[i as int] == eps0[i as int]@);
                assert(old(self)@.endpoints[i as int].wf());
            }
            let ghost ep = self.endpoints@;
            self.endpoints[i].synchronize(now);
            proof {
                assert forall|j: int| 0 <= j < self.endpoints@.len() && j != i implies #[trigger] self.endpoints@[j] == ep[j] by {}
                let n = choose|nonce: u32| self.endpoints@[i as int]@ == #[trigger] eps0[i as int]@.started(now).sync_requested(nonce, now);
                nonces = nonces.push(n);
            }
            i = i + 1;
        }
        proof {
            assert forall|j: int| 0 <= j < eps0.len() implies (#[trigger] eps0[j])@.wf() by {
                assert(old(self)@.endpoints[j] == eps0[j]@);
            }
            assert forall|j: int| 0 <= j < self@.endpoints.len() implies exists|nonce: u32|
                #[trigger] self@.endpoints[j] == old(self)@.endpoints[j].started(now).sync_requested(nonce, now) by {
                assert(self@.endpoints[j] == self.endpoints@[j]@);
                assert(old(self)@.endpoints[j] == eps0[j]@);
                assert(self@.endpoints[j] == old(self)@.endpoints[j].started(now).sync_requested(nonces[j], now));
            }
            assert(same_shape(old(self)@.endpoints, self@.endpoints)) by {
                assert forall|j: int| 0 <= j < self@.endpoints.len() implies (#[trigger] self@.endpoints[j]).wf()
                    && self@.endpoints[j].num_players == old(self)@.endpoints[j].num_players
                    && self@.endpoints[j].input_size == old(self)@.endpoints[j].input_size
                    && self@.endpoints[j].handles == old(self)@.endpoints[j].handles by {
                    assert(self@.endpoints[j] == self.endpoints@[j]@);
                    assert(old(self)@.endpoints[j] == eps0[j]@);
                    assert(eps0[j]@.wf());
                }
            }
            lemma_reshaped_wf(old(self)@, self@);
        }
        Ok(())
    }

    /// Whether all endpoints are synchronized: then a synchronizing session runs.
    fn check_initial_sync(&mut self)
        requires
            old(self)@.wf(),
        ensures
            final(self)@.wf(),
            final(self)@ == old(self)@.sync_checked(),
    {
        if self.state != SessionState::Synchronizing {
            return;
        }
        let mut i: usize = 0;
        while i < self.endpoints.len()
            invariant
                old(self)@.wf(),
                self@ == old(self)@,
                i <= self.endpoints@.len(),
                forall|j: int| 0 <= j < i ==> (#[trigger] self.endpoints@[j])@.is_synchronized(),
            decreases self.endpoints@.len() - i,
        {
            if !self.endpoints[i].is_synchronized() {
                proof {
                    assert(!self@.endpoints[i as int].is_synchronized());
                }
                return;
            }
            i = i + 1;
        }
        proof {
            assert forall|j: int| 0 <= j < self@.endpoints.len() implies (#[trigger] self@.endpoints[j]).is_synchronized() by {
                assert(self@.endpoints[j] == self.endpoints@[j]@);
            }
        }
        self.state = SessionState::Running;
        proof {
            assert(self@.endpoints == old(self)@.endpoints);
        }
    }

    /// Disconnects player `h` at time `now` (see `player_disconnected`).
    #[verifier::rlimit(30)]
    fn disconnect_player_by_handle(&mut self, h: PlayerHandle, now: u128)
        requires
            old(self)@.wf(),
            h < old(self)@.num_players,
            now <= MAX_TIME,
        ensures
            final(self)@.wf(),
            final(self)@ == old(self)@.player_disconnected(h, now),
    {
        let ghost target = old(self)@.map_endpoints_of(h, |e: ProtocolView<A>| e.disconnected(now));
        let ghost eps0 = self.endpoints@;
        proof {
            assert forall|j: int| 0 <= j < eps0.len() implies (#[trigger] eps0[j])@.wf() by {
                assert(old(self)@.endpoints[j] == eps0[j]@);
            }
        }
        let mut i: usize = 0;
        while i < self.endpoints.len()
            invariant
                old(self)@.wf(),
                h < old(self)@.num_players,
                now <= MAX_TIME,
                eps0 == old(self).endpoints@,
                target == old(self)@.map_endpoints_of(h, |e: ProtocolView<A>| e.disconnected(now)),
                i <= self.endpoints@.len(),
                self.endpoints@.len() == eps0.len(),
                self.state == old(self).state,
                self.num_players == old(self).num_players,
                self.input_size == old(self).input_size,
                self.sync_layer@ == old(self).sync_layer@,
                self.disconnect_timeout == old(self).disconnect_timeout,
                self.disconnect_notify_start == old(self).disconnect_notify_start,
                self.next_recommended_sleep == old(self).next_recommended_sleep,
                self.kinds@ == old(self).kinds@,
                self.local_connect_status@ == old(self).local_connect_status@,
                forall|j: int| 0 <= j < i ==> (#[trigger] self.endpoints@[j])@ == target[j],
                forall|j: int| i <= j < eps0.len() ==> #[trigger] self.endpoints@[j] == eps0[j],
                forall|j: int|
                    0 <= j < eps0.len() ==> (#[trigger] self.endpoints@[j])@.wf()
                        && self.endpoints@[j]@.num_players == eps0[j]@.num_players
                        && self.endpoints@[j]@.input_size == eps0[j]@.input_size
                        && self.endpoints@[j]@.handles == eps0[j]@.handles,
            decreases eps0.len() - i,
        {
            proof {
                assert(eps0[i as int]@ == old(self)@.endpoints[i as int]);
                assert(old(self)@.endpoints[i as int].wf());
            }
            let ghost ep = self.endpoints@;
            if self.endpoints[i].handles()[0] == h {
                self.endpoints[i].disconnect(now);
            }
            proof {
                assert forall|j: int| 0 <= j < self.endpoints@.len() && j != i implies #[trigger] self.endpoints@[j] == ep[j] by {}
            }
            i = i + 1;
        }
        let old_status = self.local_connect_status[h];
        self.local_connect_status.set(h, ConnectionStatus { disconnected: true, ..old_status });
        proof {
            assert(self@.endpoints =~= target);
            assert(same_shape(old(self)@.endpoints, self@.endpoints)) by {
                assert forall|j: int| 0 <= j < self@.endpoints.len() implies (#[trigger] self@.endpoints[j]).wf()
                    && self@.endpoints[j].num_players == old(self)@.endpoints[j].num_players
                    && self@.endpoints[j].input_size == old(self)@.endpoints[j].input_size
                    && self@.endpoints[j].handles == old(self)@.endpoints[j].handles by {
                    assert(self@.endpoints[j] == self.endpoints@[j]@);
                    assert(old(self)@.endpoints[j] == eps0[j]@);
                }
            }
            lemma_reshaped_wf(old(self)@, self@);
        }
        self.check_initial_sync();
    }

    /// Disconnects the remote player `player_handle` at time `now`. `InvalidRequest` when it is
    /// already disconnected, or is no remote player.
    pub fn disconnect_player(&mut self, player_handle: PlayerHandle, now: u128) -> (r: Result<
        (),
        GGRSError,
    >)
        requires
            old(self)@.wf(),
            player_handle < old(self)@.num_players,
            now <= MAX_TIME,
        ensures
            final(self)@.wf(),
            (old(self)@.local_connect_status[player_handle as int].disconnected
                || old(self)@.kinds[player_handle as int] != PlayerKind::Remote) ==> r == Err::<
                (),
                GGRSError,
            >(GGRSError::InvalidRequest) && final(self)@ == old(self)@,
            !old(self)@.local_connect_status[player_handle as int].disconnected
                && old(self)@.kinds[player_handle as int] == PlayerKind::Remote ==> r is Ok
                && final(self)@ == old(self)@.player_disconnected(player_handle, now),
    {
        if self.local_connect_status[player_handle].disconnected {
            return Err(GGRSError::InvalidRequest);
        }
        if self.kinds[player_handle] != PlayerKind::Remote {
            return Err(GGRSError::InvalidRequest);
        }
        self.disconnect_player_by_handle(player_handle, now);
        Ok(())
    }

    /// Changes the input delay of a local player. `InvalidHandle` for a handle past the
    /// players, `InvalidRequest` for a handle of no local player.
    pub fn set_frame_delay(&mut self, frame_delay: u32, player_handle: PlayerHandle) -> (r: Result<
        (),
        GGRSError,
    >)
        requires
            old(self)@.wf(),
            player_handle < old(self)@.num_players && old(self)@.kinds[player_handle as int]
                == PlayerKind::Local ==> frame_delay <= MAX_INPUT_DELAY,
        ensures
            final(self)@.wf(),
            player_handle > old(self)@.num_players ==> r == Err::<(), GGRSError>(
                GGRSError::InvalidHandle,
            ) && final(self)@ == old(self)@,
            player_handle == old(self)@.num_players || (player_handle < old(self)@.num_players
                && old(self)@.kinds[player_handle as int] != PlayerKind::Local) ==> r == Err::<
                (),
                GGRSError,
            >(GGRSError::InvalidRequest) && final(self)@ == old(self)@,
            player_handle < old(self)@.num_players && old(self)@.kinds[player_handle as int]
                == PlayerKind::Local ==> r is Ok && final(self)@ == (P2PView {
                layer: old(self)@.layer.with_queues(
                    old(self)@.layer.queues.update(
                        player_handle as int,
                        InputQueueView {
                            frame_delay,
                            ..old(self)@.layer.queues[player_handle as int]
                        },
                    ),
                ),
                ..old(self)@
            }),
    {
        if player_handle > self.num_players as PlayerHandle {
            return Err(GGRSError::InvalidHandle);
        }
        if player_handle == self.num_players as PlayerHandle || self.kinds[player_handle]
            != PlayerKind::Local {
            return Err(GGRSError::InvalidRequest);
        }
        self.sync_layer.set_frame_delay(player_handle, frame_delay);
        Ok(())
    }

    /// Sets the disconnect timeout of every endpoint.
    pub fn set_disconnect_timeout(&mut self, timeout: u128)
        requires
            old(self)@.wf(),
            forall|i: int|
                0 <= i < old(self)@.endpoints.len() ==> (#[trigger] old(self)@.endpoints[i]).disconnect_notify_start
                    <= timeout,
        ensures
            final(self)@.wf(),
            final(self)@ == (P2PView { endpoints: final(self)@.endpoints, ..old(self)@ }),
            final(self)@.endpoints == Seq::new(
                old(self)@.endpoints.len(),
                |i: int| ProtocolView { disconnect_timeout: timeout, ..old(self)@.endpoints[i] },
            ),
    {
        let ghost eps0 = self.endpoints@;
        let mut i: usize = 0;
        while i < self.endpoints.len()
            invariant
                old(self)@.wf(),
                eps0 == old(self).endpoints@,
                forall|j: int|
                    0 <= j < old(self)@.endpoints.len() ==> (#[trigger] old(self)@.endpoints[j]).disconnect_notify_start
                        <= timeout,
                i <= self.endpoints@.len(),
                self.endpoints@.len() == eps0.len(),
                self@ == (P2PView { endpoints: self@.endpoints, ..old(self)@ }),
                forall|j: int|
                    0 <= j < i ==> (#[trigger] self.endpoints@[j])@ == (ProtocolView {
                        disconnect_timeout: timeout,
                        ..eps0[j]@
                    }) && self.endpoints@[j]@.wf(),
                forall|j: int| i <= j < eps0.len() ==> #[trigger] self.endpoints@[j] == eps0[j],
            decreases eps0.len() - i,
        {
            proof {
                assert(old(self)@.endpoints[i as int] == eps0[i as int]@);
                assert(old(self)@.endpoints[i as int].wf());
            }
            let ghost ep = self.endpoints@;
            self.endpoints[i].set_disconnect_timeout(timeout);
            proof {
                assert forall|j: int| 0 <= j < self.endpoints@.len() && j != i implies #[trigger] self.endpoints@[j] == ep[j] by {}
                assert(self@ == (P2PView { endpoints: self@.endpoints, ..old(self)@ }));
            }
            i = i + 1;
        }
        proof {
            assert(self@.endpoints =~= Seq::new(
                old(self)@.endpoints.len(),
                |i: int| ProtocolView { disconnect_timeout: timeout, ..old(self)@.endpoints[i] },
            ));
            assert(same_shape(old(self)@.endpoints, self@.endpoints));
            lemma_reshaped_wf(old(self)@, self@);
        }
    }

    /// Sets the time without packets after which every endpoint reports its remote
    /// interrupted.
    pub fn set_disconnect_notify_delay(&mut self, notify_delay: u128)
        requires
            old(self)@.wf(),
            forall|i: int|
                0 <= i < old(self)@.endpoints.len() ==> notify_delay <= (#[trigger] old(
                    self,
                )@.endpoints[i]).disconnect_timeout,
        ensures
            final(self)@.wf(),
            final(self)@ == (P2PView { endpoints: final(self)@.endpoints, ..old(self)@ }),
            final(self)@.endpoints == Seq::new(
                old(self)@.endpoints.len(),
                |i: int|
                    ProtocolView { disconnect_notify_start: notify_delay, ..old(self)@.endpoints[i] },
            ),
    {
        let ghost eps0 = self.endpoints@;
        let mut i: usize = 0;
        while i < self.endpoints.len()
            invariant
                old(self)@.wf(),
                eps0 == old(self).endpoints@,
                forall|j: int|
                    0 <= j < old(self)@.endpoints.len() ==> notify_delay <= (#[trigger] old(
                        self,
                    )@.endpoints[j]).disconnect_timeout,
                i <= self.endpoints@.len(),
                self.endpoints@.len() == eps0.len(),
                self@ == (P2PView { endpoints: self@.endpoints, ..old(self)@ }),
                forall|j: int|
                    0 <= j < i ==> (#[trigger] self.endpoints@[j])@ == (ProtocolView {
                        disconnect_notify_start: notify_delay,
                        ..eps0[j]@
                    }) && self.endpoints@[j]@.wf(),
                forall|j: int| i <= j < eps0.len() ==> #[trigger] self.endpoints@[j] == eps0[j],
            decreases eps0.len() - i,
        {
            proof {
                assert(old(self)@.endpoints[i as int] == eps0[i as int]@);
                assert(old(self)@.endpoints[i as int].wf());
            }
            let ghost ep = self.endpoints@;
            self.endpoints[i].set_disconnect_notify_start(notify_delay);
            proof {
                assert forall|j: int| 0 <= j < self.endpoints@.len() && j != i implies #[trigger] self.endpoints@[j] == ep[j] by {}
                assert(self@ == (P2PView { endpoints: self@.endpoints, ..old(self)@ }));
            }
            i = i + 1;
        }
        proof {
            assert(self@.endpoints =~= Seq::new(
                old(self)@.endpoints.len(),
                |i: int|
                    ProtocolView { disconnect_notify_start: notify_delay, ..old(self)@.endpoints[i] },
            ));
            assert(same_shape(old(self)@.endpoints, self@.endpoints));
            lemma_reshaped_wf(old(self)@, self@);
        }
    }

    /// The index of the endpoint of the remote player `h`.
    fn find_endpoint(&self, h: PlayerHandle) -> (r: usize)
        requires
            self@.wf(),
            h < self@.num_players,
            self@.kinds[h as int] == PlayerKind::Remote,
        ensures
            r == self@.endpoint_of(h),
            r < self@.endpoints.len(),
            handle_of(self@.endpoints[r as int]) == h,
    {
        let ghost k = choose|i: int| 0 <= i < self@.endpoints.len() && handle_of(#[trigger] self@.endpoints[i]) == h;
        let mut i: usize = 0;
        while i < self.endpoints.len()
            invariant
                self@.wf(),
                0 <= k < self@.endpoints.len(),
                handle_of(self@.endpoints[k]) == h,
                i <= k,
                forall|j: int| 0 <= j < i ==> handle_of(#[trigger] self@.endpoints[j]) != h,
            decreases self@.endpoints.len() - i,
        {
            proof {
                assert(self.endpoints@[i as int]@ == self@.endpoints[i as int]);
            }
            if self.endpoints[i].handles()[0] == h {
                proof {
                    let c = self@.endpoint_of(h);
                    if c != i {
                        if c < i {
                            assert(handle_of(self@.endpoints[c]) != h);
                        } else {
                            assert(handle_of(self@.endpoints[i as int]) != handle_of(self@.endpoints[c]));
                        }
                    }
                }
                return i;
            }
            i = i + 1;
        }
        proof {
            assert(handle_of(self@.endpoints[k]) != h);
        }
        0
    }

    /// The statistics of the connection to the remote player `player_handle` at time `now`.
    /// `InvalidHandle` for a handle past the players; `InvalidRequest` for a handle of no
    /// remote player, or while the endpoint has no statistics (see `network_stats` of the
    /// endpoint).
    pub fn network_stats(&self, player_handle: PlayerHandle, now: u128) -> (r: Result<
        NetworkStats,
        GGRSError,
    >)
        requires
            self@.wf(),
        ensures
            player_handle > self@.num_players ==> r == Err::<NetworkStats, GGRSError>(
                GGRSError::InvalidHandle,
            ),
            player_handle == self@.num_players || (player_handle < self@.num_players
                && self@.kinds[player_handle as int] != PlayerKind::Remote) ==> r == Err::<
                NetworkStats,
                GGRSError,
            >(GGRSError::InvalidRequest),
            player_handle < self@.num_players && self@.kinds[player_handle as int]
                == PlayerKind::Remote ==> {
                let e = self@.endpoints[self@.endpoint_of(player_handle)];
                let available = (e.state == ProtocolState::Synchronizing || e.state
                    == ProtocolState::Running) && now >= e.stats_start_time && (now
                    - e.stats_start_time) / 1000 > 0;
                &&& !available ==> r == Err::<NetworkStats, GGRSError>(GGRSError::InvalidRequest)
                &&& available ==> (r matches Ok(st) && {
                    let kbps = (e.bytes_sent + e.packets_sent * crate::network::protocol::UDP_HEADER_SIZE) / ((now
                        - e.stats_start_time) / 1000) / 1024;
                    st == classic_stats(
                        crate::network::network_stats::NetworkStats {
                            send_queue_len: e.pending_output.len() as usize,
                            ping: e.round_trip_time,
                            kbps_sent: kbps as usize,
                            local_frames_behind: e.local_frame_advantage,
                            remote_frames_behind: e.remote_frame_advantage,
                        },
                    )
                })
            },
    {
        if player_handle > self.num_players as PlayerHandle {
            return Err(GGRSError::InvalidHandle);
        }
        if player_handle == self.num_players as PlayerHandle || self.kinds[player_handle]
            != PlayerKind::Remote {
            return Err(GGRSError::InvalidRequest);
        }
        let i = self.find_endpoint(player_handle);
        proof {
            assert(self.endpoints@[i as int]@ == self@.endpoints[i as int]);
        }
        match self.endpoints[i].network_stats(now) {
            Ok(st) => {
                let ping: usize = if st.ping > usize::MAX as u128 {
                    usize::MAX
                } else {
                    st.ping as usize
                };
                Ok(
                    NetworkStats {
                        network: Network {
                            send_queue_len: st.send_queue_len,
                            recv_queue_len: 0,
                            ping,
                            kbps_sent: st.kbps_sent,
                        },
                        timesync: TimeSync {
                            local_frames_behind: st.local_frames_behind,
                            remote_frames_behind: st.remote_frames_behind,
                        },
                    },
                )
            },
            Err(_) => Err(GGRSError::InvalidRequest),
        }
    }

    /// Takes the event `event` that the endpoint of player `h` reported at time `now` (see
    /// `event_handled`).
    fn handle_event(&mut self, event: Event, h: PlayerHandle, now: u128)
        requires
            old(self)@.wf(),
            h < old(self)@.num_players,
            now <= MAX_TIME,
        ensures
            final(self)@.wf(),
            final(self)@ == old(self)@.event_handled(event@, h, now),
    {
        match event {
            Event::Synchronized => {
                self.check_initial_sync();
            },
            Event::Disconnected => {
                self.disconnect_player_by_handle(h, now);
            },
            Event::Input { frame, bytes, player } => {
                let status = self.local_connect_status[h];
                if status.disconnected || status.last_frame as i64 + 1 != frame as i64
                    || bytes.len() != self.input_size {
                    return;
                }
                let mut input = GameInput::new(frame, None, self.input_size);
                input.copy_input(bytes.as_slice());
                proof {
                    let zeros = Seq::new((8 - self.input_size) as nat, |i: int| 0u8);
                    assert(input.buffer@ =~= bytes@ + zeros);
                    assert(is_input_for(input, frame, bytes@, self.input_size));
                    let c = P2PView::<A>::input_for(frame, bytes@, self.input_size);
                    assert(is_input_for(c, frame, bytes@, self.input_size));
                    assert(c.buffer@ == input.buffer@);
                    assert(c.buffer == input.buffer);
                    assert(c == input);
                }
                if !self.sync_layer.accepts_input(h, &input) {
                    return;
                }
                self.sync_layer.add_remote_input(h, input);
                self.local_connect_status.set(h, ConnectionStatus { last_frame: frame, ..status });
            },
            _ => {},
        }
    }

    /// What the running endpoints report of player `h`: whether all say it is connected, and
    /// the earliest last frame any of them reports.
    fn peer_reports(&self, h: PlayerHandle) -> (r: (bool, FrameNumber))
        requires
            self@.wf(),
            h < self@.num_players,
        ensures
            r.0 == reports_connected(self@.endpoints, h, self@.endpoints.len() as int),
            r.1 as int == reports_min(self@.endpoints, h, self@.endpoints.len()),
    {
        let mut connected = true;
        let mut qm: i32 = i32::MAX;
        let mut i: usize = 0;
        while i < self.endpoints.len()
            invariant
                self@.wf(),
                h < self@.num_players,
                i <= self@.endpoints.len(),
                connected == reports_connected(self@.endpoints, h, i as int),
                qm as int == reports_min(self@.endpoints, h, i as nat),
            decreases self@.endpoints.len() - i,
        {
            proof {
                assert(self.endpoints@[i as int]@ == self@.endpoints[i as int]);
                assert(self@.endpoints[i as int].wf());
            }
            if self.endpoints[i].is_running() {
                let status = self.endpoints[i].peer_connect_status(h);
                connected = connected && !status.disconnected;
                if status.last_frame < qm {
                    qm = status.last_frame;
                }
            }
            proof {
                assert(reports_connected(self@.endpoints, h, i + 1) == (reports_connected(
                    self@.endpoints,
                    h,
                    i as int,
                ) && (self@.endpoints[i as int].state == ProtocolState::Running
                    ==> !self@.endpoints[i as int].peer_connect_status[h as int].disconnected)));
            }
            i = i + 1;
        }
        (connected, qm)
    }

    /// Finds the confirmed frame: the earliest frame for which the inputs of every connected
    /// player arrived, while disconnecting the players that remotes report disconnected (see
    /// `confirm_upto`). `i32::MAX` when no player counts.
    fn min_confirmed_frame(&mut self, now: u128) -> (r: FrameNumber)
        requires
            old(self)@.wf(),
            now <= MAX_TIME,
        ensures
            final(self)@.wf(),
            final(self)@ == old(self)@.confirm_upto(old(self)@.num_players as nat, now).0,
            r == old(self)@.confirm_upto(old(self)@.num_players as nat, now).1,
    {
        let mut total: i32 = i32::MAX;
        let mut h: usize = 0;
        while h < self.num_players as usize
            invariant
                old(self)@.wf(),
                now <= MAX_TIME,
                self@.wf(),
                self@.num_players == old(self)@.num_players,
                h <= self@.num_players,
                (self@, total as int) == old(self)@.confirm_upto(h as nat, now),
            decreases self@.num_players - h,
        {
            let (connected, mut qm) = self.peer_reports(h);
            let local = self.local_connect_status[h];
            if !local.disconnected && local.last_frame < qm {
                qm = local.last_frame;
            }
            if connected {
                if qm < total {
                    total = qm;
                }
            } else if !local.disconnected || local.last_frame > qm {
                self.disconnect_player_by_handle(h, now);
            }
            h = h + 1;
        }
        total
    }

    /// Hands out the messages the endpoints queued, each with the address of its endpoint's
    /// remote (see `outbox`); the endpoints' queues are emptied.
    pub fn take_messages(&mut self) -> (r: Vec<(A, Message)>)
        where
            A: Clone,
        requires
            old(self)@.wf(),
        ensures
            final(self)@.wf(),
            final(self)@ == (P2PView { endpoints: final(self)@.endpoints, ..old(self)@ }),
            final(self)@.endpoints == Seq::new(
                old(self)@.endpoints.len(),
                |i: int| ProtocolView { send_queue: Seq::empty(), ..old(self)@.endpoints[i] },
            ),
            r@.len() == outbox(old(self)@.endpoints).len(),
            forall|k: int|
                0 <= k < r@.len() ==> vstd::pervasive::cloned(
                    outbox(old(self)@.endpoints)[k].0,
                    (#[trigger] r@[k]).0,
                ) && r@[k].1@ == outbox(old(self)@.endpoints)[k].1,
    {
        let ghost eps0 = old(self)@.endpoints;
        let mut out: Vec<(A, Message)> = Vec::new();
        let mut i: usize = 0;
        while i < self.endpoints.len()
            invariant
                old(self)@.wf(),
                eps0 == old(self)@.endpoints,
                i <= self.endpoints@.len(),
                self.endpoints@.len() == eps0.len(),
                self@ == (P2PView { endpoints: self@.endpoints, ..old(self)@ }),
                forall|j: int|
                    0 <= j < i ==> (#[trigger] self.endpoints@[j])@ == (ProtocolView {
                        send_queue: Seq::empty(),
                        ..eps0[j]
                    }),
                forall|j: int| i <= j < eps0.len() ==> (#[trigger] self.endpoints@[j])@ == eps0[j],
                out@.len() == outbox(eps0.subrange(0, i as int)).len(),
                forall|k: int|
                    0 <= k < out@.len() ==> vstd::pervasive::cloned(
                        outbox(eps0.subrange(0, i as int))[k].0,
                        (#[trigger] out@[k]).0,
                    ) && out@[k].1@ == outbox(eps0.subrange(0, i as int))[k].1,
            decreases eps0.len() - i,
        {
            let ghost e = eps0[i as int];
            proof {
                assert(eps0.subrange(0, i + 1).drop_last() =~= eps0.subrange(0, i as int));
                assert(eps0.subrange(0, i + 1).last() == e);
            }
            let ghost ep = self.endpoints@;
            let mut msgs = self.endpoints[i].take_messages();
            proof {
                assert forall|j: int| 0 <= j < self.endpoints@.len() && j != i implies #[trigger] self.endpoints@[j] == ep[j] by {}
            }
            let ghost sent = if e.state == ProtocolState::Shutdown {
                Seq::<MessageView>::empty()
            } else {
                e.send_queue
            };
            let ghost base = out@.len();
            let ghost msgs0 = msgs@;
            let total_len = msgs.len();
            let mut k: usize = 0;
            while msgs.len() > 0
                invariant
                    total_len == msgs0.len(),
                    msgs0.map_values(|m: Message| m@) == sent,
                    msgs@ == msgs0.subrange(k as int, msgs0.len() as int),
                    k <= msgs0.len(),
                    out@.len() == base + k,
                    base == outbox(eps0.subrange(0, i as int)).len(),
                    i < self.endpoints@.len(),
                    self.endpoints@[i as int]@.peer_addr == e.peer_addr,
                    forall|q: int|
                        0 <= q < base ==> vstd::pervasive::cloned(
                            outbox(eps0.subrange(0, i as int))[q].0,
                            (#[trigger] out@[q]).0,
                        ) && out@[q].1@ == outbox(eps0.subrange(0, i as int))[q].1,
                    forall|q: int|
                        0 <= q < k ==> vstd::pervasive::cloned(e.peer_addr, (#[trigger] out@[base + q]).0)
                            && out@[base + q].1@ == sent[q],
                decreases msgs0.len() - k,
            {
                let m = msgs.remove(0);
                let addr = self.endpoints[i].peer_addr();
                proof {
                    assert(m == msgs0[k as int]);
                    assert(sent[k as int] == msgs0[k as int]@);
                }
                out.push((addr, m));
                k = k + 1;
                proof {
                    assert(msgs@ =~= msgs0.subrange(k as int, msgs0.len() as int));
                }
            }
            proof {
                let ob = outbox(eps0.subrange(0, i + 1));
                assert(ob == outbox(eps0.subrange(0, i as int)) + sent.map_values(
                    |m: MessageView| (e.peer_addr, m),
                ));
                assert(k == sent.len());
                assert forall|q: int| 0 <= q < out@.len() implies vstd::pervasive::cloned(
                    ob[q].0,
                    (#[trigger] out@[q]).0,
                ) && out@[q].1@ == ob[q].1 by {
                    if q >= base {
                        assert(out@[base + (q - base)] == out@[q]);
                    }
                }
            }
            i = i + 1;
        }
        proof {
            assert(eps0.subrange(0, eps0.len() as int) =~= eps0);
            assert(self@.endpoints =~= Seq::new(
                old(self)@.endpoints.len(),
                |i: int| ProtocolView { send_queue: Seq::empty(), ..old(self)@.endpoints[i] },
            ));
            assert forall|j: int| 0 <= j < self@.endpoints.len() implies (#[trigger] self@.endpoints[j]).wf() by {
                let k = choose|k: crate::Frame| crate::network::protocol::is_newest(old(self)@.endpoints[j].recv_inputs, k);
                assert(crate::network::protocol::is_newest(self@.endpoints[j].recv_inputs, k));
            }
            assert(same_shape(old(self)@.endpoints, self@.endpoints));
            lemma_reshaped_wf(old(self)@, self@);
        }
        out
    }

    /// Whether `add_local_input(player_handle, input)` meets its `requires`.
    pub fn accepts_local_input(&self, player_handle: PlayerHandle, input: &[u8]) -> (r: bool)
        requires
            self@.wf(),
        ensures
            r == self@.local_input_ok(player_handle, input@),
    {
        if player_handle >= self.num_players as PlayerHandle || self.kinds[player_handle]
            != PlayerKind::Local || self.state != SessionState::Running {
            return true;
        }
        if input.len() != self.input_size {
            return false;
        }
        let frames_behind: i64 = self.sync_layer.current_frame() as i64
            - self.sync_layer.last_confirmed_frame() as i64;
        if frames_behind > MAX_PREDICTION_FRAMES as i64 {
            return true;
        }
        let g = self.input_for_frame(self.sync_layer.current_frame(), input);
        self.sync_layer.accepts_input(player_handle, &g)
    }

    /// The input for `frame` with the bytes `bytes` (see `input_for`).
    fn input_for_frame(&self, frame: FrameNumber, bytes: &[u8]) -> (r: GameInput)
        requires
            self@.wf(),
            bytes@.len() == self@.input_size,
        ensures
            r == P2PView::<A>::input_for(frame, bytes@, self@.input_size),
            is_input_for(r, frame, bytes@, self@.input_size),
    {
        let mut input = GameInput::new(frame, None, self.input_size);
        input.copy_input(bytes);
        proof {
            let zeros = Seq::new((8 - self.input_size) as nat, |i: int| 0u8);
            assert(input.buffer@ =~= bytes@ + zeros);
            assert(is_input_for(input, frame, bytes@, self.input_size));
            let c = P2PView::<A>::input_for(frame, bytes@, self.input_size);
            assert(is_input_for(c, frame, bytes@, self.input_size));
            assert(c.buffer@ == input.buffer@);
            assert(c.buffer == input.buffer);
        }
        input
    }

    /// Hands over the input bytes of a local player for the current frame at time `now`, and
    /// sends them to every remote (see `local_input_added`). `InvalidHandle` for a handle past
    /// the players, `InvalidRequest` for a handle of no local player, `NotSynchronized` while
    /// the session does not run, `PredictionThreshold` when the sync layer refuses more local
    /// inputs.
    pub fn add_local_input(&mut self, player_handle: PlayerHandle, input: &[u8], now: u128) -> (r:
        Result<(), GGRSError>)
        requires
            old(self)@.wf(),
            old(self)@.local_input_ok(player_handle, input@),
        ensures
            final(self)@.wf(),
            player_handle > old(self)@.num_players ==> r == Err::<(), GGRSError>(
                GGRSError::InvalidHandle,
            ) && final(self)@ == old(self)@,
            player_handle == old(self)@.num_players || (player_handle < old(self)@.num_players
                && old(self)@.kinds[player_handle as int] != PlayerKind::Local) ==> r == Err::<
                (),
                GGRSError,
            >(GGRSError::InvalidRequest) && final(self)@ == old(self)@,
            player_handle < old(self)@.num_players && old(self)@.kinds[player_handle as int]
                == PlayerKind::Local && old(self)@.state != SessionState::Running ==> r == Err::<
                (),
                GGRSError,
            >(GGRSError::NotSynchronized) && final(self)@ == old(self)@,
            player_handle < old(self)@.num_players && old(self)@.kinds[player_handle as int]
                == PlayerKind::Local && old(self)@.state == SessionState::Running
                && old(self)@.layer.prediction_threshold_reached() ==> r == Err::<(), GGRSError>(
                GGRSError::PredictionThreshold,
            ) && final(self)@ == old(self)@,
            player_handle < old(self)@.num_players && old(self)@.kinds[player_handle as int]
                == PlayerKind::Local && old(self)@.state == SessionState::Running
                && !old(self)@.layer.prediction_threshold_reached() ==> r is Ok && final(self)@
                == old(self)@.local_input_added(player_handle, input@, now),
    {
        if player_handle > self.num_players as PlayerHandle {
            return Err(GGRSError::InvalidHandle);
        }
        if player_handle == self.num_players as PlayerHandle || self.kinds[player_handle]
            != PlayerKind::Local {
            return Err(GGRSError::InvalidRequest);
        }
        if self.state != SessionState::Running {
            return Err(GGRSError::NotSynchronized);
        }
        let game_input = self.input_for_frame(self.sync_layer.current_frame(), input);
        let actual_frame = match self.sync_layer.add_local_input(player_handle, game_input) {
            Ok(f) => f,
            Err(e) => {
                return Err(e);
            },
        };
        let ghost v1 = self@;
        if actual_frame != NULL_FRAME {
            let old_status = self.local_connect_status[player_handle];
            self.local_connect_status.set(
                player_handle,
                ConnectionStatus { last_frame: actual_frame, ..old_status },
            );
            let mut data: HashMap<PlayerHandle, InputBytes> = HashMap::new();
            data.insert(
                player_handle,
                InputBytes { frame: actual_frame, bytes: vstd::slice::slice_to_vec(input) },
            );
            let ghost x = InputBytesView { frame: actual_frame, bytes: input@ };
            proof {
                assert(data@.map_values(|b: InputBytes| b@) =~= map![player_handle => x]);
                lemma_gathered_single(player_handle, x, self@.num_players as nat);
                assert(frames_agree(data@.map_values(|b: InputBytes| b@), self@.num_players as nat));
            }
            let ghost lcs = self.local_connect_status@;
            let ghost eps0 = self.endpoints@;
            let mut i: usize = 0;
            while i < self.endpoints.len()
                invariant
                    v1.wf(),
                    eps0.len() == v1.endpoints.len(),
                    forall|j: int| 0 <= j < eps0.len() ==> #[trigger] eps0[j]@ == v1.endpoints[j],
                    i <= self.endpoints@.len(),
                    self.endpoints@.len() == eps0.len(),
                    self.local_connect_status@ == lcs,
                    self@ == (P2PView { endpoints: self@.endpoints, local_connect_status: lcs, ..v1 }),
                    lcs.len() == v1.local_connect_status.len(),
                    data@.map_values(|b: InputBytes| b@) == map![player_handle => x],
                    gathered(map![player_handle => x], v1.num_players as nat) == x,
                    frames_agree(data@.map_values(|b: InputBytes| b@), v1.num_players as nat),
                    forall|j: int|
                        0 <= j < i ==> (#[trigger] self.endpoints@[j])@ == v1.endpoints[j].input_queued(
                            x,
                            lcs,
                            now,
                        ) && self.endpoints@[j]@.wf(),
                    forall|j: int| i <= j < eps0.len() ==> #[trigger] self.endpoints@[j] == eps0[j],
                decreases eps0.len() - i,
            {
                proof {
                    assert(v1.endpoints[i as int].wf());
                    assert(v1.endpoints[i as int].num_players == v1.num_players);
                }
                let ghost ep = self.endpoints@;
                self.endpoints[i].queue_input(&data, self.local_connect_status.as_slice(), now);
                proof {
                    assert forall|j: int| 0 <= j < self.endpoints@.len() && j != i implies #[trigger] self.endpoints@[j] == ep[j] by {}
                }
                i = i + 1;
            }
            proof {
                assert(self@.endpoints =~= Seq::new(
                    v1.endpoints.len(),
                    |j: int| v1.endpoints[j].input_queued(x, lcs, now),
                ));
                assert(same_shape(v1.endpoints, self@.endpoints)) by {
                    assert forall|j: int| 0 <= j < self@.endpoints.len() implies (#[trigger] self@.endpoints[j]).wf()
                        && self@.endpoints[j].num_players == v1.endpoints[j].num_players
                        && self@.endpoints[j].input_size == v1.endpoints[j].input_size
                        && self@.endpoints[j].handles == v1.endpoints[j].handles by {
                        assert(self@.endpoints[j] == self.endpoints@[j]@);
                    }
                }
                lemma_reshaped_wf(v1, self@);
            }
        }
        Ok(())
    }

    /// Polls the endpoints at time `now` with the messages `received`, each with the address
    /// it came from: see `endpoints_polled`, whose nonces the endpoints draw at random.
    #[verifier::rlimit(60)]
    fn poll_endpoints(&mut self, received: &[(A, Message)], now: u128)
        where
            A: PartialEq,
        requires
            old(self)@.wf(),
            now <= MAX_TIME,
        ensures
            final(self)@.wf(),
            final(self)@.num_players == old(self)@.num_players,
            final(self)@.input_size == old(self)@.input_size,
            final(self)@.kinds == old(self)@.kinds,
            same_shape(old(self)@.endpoints, final(self)@.endpoints),
            final(self)@.layer.current_frame == old(self)@.layer.current_frame,
            old(self)@.state == SessionState::Running ==> final(self)@.state == SessionState::Running,
            old(self)@.state == SessionState::Initializing ==> final(self)@.state
                == SessionState::Initializing,
            forall|g: int|
                0 <= g < old(self)@.num_players && (#[trigger] old(self)@.local_connect_status[g]).disconnected
                    ==> final(self)@.local_connect_status[g].disconnected,
            exists|route: Seq<int>, sent: Seq<u32>, polled: Seq<u32>|
                valid_route(route, received@.len(), old(self)@.endpoints.len()) && (A::obeys_eq_spec()
                    ==> first_routing(old(self)@.endpoints, received@, route, sent, now))
                    && #[trigger] old(self)@.endpoints_polled(received@, route, sent, polled, now)
                    == final(self)@,
    {
        let ghost v0 = self@;
        let ghost mut sent: Seq<u32> = Seq::empty();
        let ghost mut route: Seq<int> = Seq::empty();
        // hand each message to the endpoint of its sender
        let mut k: usize = 0;
        while k < received.len()
            invariant
                v0 == old(self)@,
                v0.wf(),
                self@.wf(),
                now <= MAX_TIME,
                k <= received@.len(),
                self@ == (P2PView { endpoints: self@.endpoints, ..v0 }),
                same_shape(v0.endpoints, self@.endpoints),
                sent.len() == k,
                valid_route(route, k as nat, v0.endpoints.len()),
                self@.endpoints == routed(v0.endpoints, received@.take(k as int), route, sent, now),
                A::obeys_eq_spec() ==> first_routing(
                    v0.endpoints,
                    received@.take(k as int),
                    route,
                    sent,
                    now,
                ),
            decreases received@.len() - k,
        {
            let from = &received[k].0;
            let msg = &received[k].1;
            let ghost cur = self@.endpoints;
            let mut i: usize = 0;
            while i < self.endpoints.len() && !self.endpoints[i].is_handling_message(from)
                invariant
                    self@.wf(),
                    self@.endpoints == cur,
                    i <= cur.len(),
                    k < received@.len(),
                    *from == received@[k as int].0,
                    A::obeys_eq_spec() ==> first_from(cur, *from, 0) == first_from(
                        cur,
                        *from,
                        i as int,
                    ),
                decreases cur.len() - i,
            {
                proof {
                    assert(self.endpoints@[i as int]@ == self@.endpoints[i as int]);
                }
                i = i + 1;
            }
            let mut nonce: u32 = 0;
            let ghost before = self@;
            if i < self.endpoints.len() {
                proof {
                    assert(self.endpoints@[i as int]@ == self@.endpoints[i as int]);
                }
                let ghost ep = self.endpoints@;
                nonce = self.endpoints[i].handle_message(msg, now);
                proof {
                    assert forall|j: int| 0 <= j < self.endpoints@.len() && j != i implies #[trigger] self.endpoints@[j] == ep[j] by {}
                    assert(same_shape(before.endpoints, self@.endpoints)) by {
                        assert forall|j: int| 0 <= j < self@.endpoints.len() implies (#[trigger] self@.endpoints[j]).wf()
                            && self@.endpoints[j].num_players == before.endpoints[j].num_players
                            && self@.endpoints[j].input_size == before.endpoints[j].input_size
                            && self@.endpoints[j].handles == before.endpoints[j].handles by {
                            assert(self@.endpoints[j] == self.endpoints@[j]@);
                            assert(before.endpoints[j] == ep[j]@);
                        }
                    }
                    lemma_reshaped_wf(before, self@);
                    assert(self@.endpoints =~= cur.update(
                        i as int,
                        cur[i as int].message_handled(msg@, nonce, now),
                    )) by {
                        assert forall|j: int| 0 <= j < cur.len() implies #[trigger] self@.endpoints[j]
                            == cur.update(i as int, cur[i as int].message_handled(msg@, nonce, now))[j] by {
                            assert(self@.endpoints[j] == self.endpoints@[j]@);
                            assert(cur[j] == ep[j]@);
                        }
                    }
                }
            }
            proof {
                let taken = received@.take(k + 1);
                let r: int = if i < cur.len() {
                    i as int
                } else {
                    -1
                };
                assert(taken.drop_last() =~= received@.take(k as int));
                assert(sent.push(nonce).drop_last() =~= sent);
                assert(route.push(r).drop_last() =~= route);
                assert(taken.last() == received@[k as int]);
                if i >= cur.len() {
                    assert(self@.endpoints == cur);
                }
                if A::obeys_eq_spec() {
                    if i < cur.len() {
                        assert(first_from(cur, *from, 0) == i);
                    } else {
                        assert(first_from(cur, *from, 0) == -1);
                    }
                }
                sent = sent.push(nonce);
                route = route.push(r);
            }
            k = k + 1;
        }
        proof {
            assert(received@.take(received@.len() as int) =~= received@);
        }
        let ghost u = self@;
        // estimate the frame advantage of every remote
        let frame = self.sync_layer.current_frame();
        let mut i: usize = 0;
        while i < self.endpoints.len()
            invariant
                v0 == old(self)@,
                v0.wf(),
                self@.wf(),
                u.wf(),
                frame == v0.layer.current_frame,
                i <= self@.endpoints.len(),
                u == (P2PView { endpoints: u.endpoints, ..v0 }),
                self@ == (P2PView { endpoints: self@.endpoints, ..v0 }),
                same_shape(v0.endpoints, self@.endpoints),
                same_shape(v0.endpoints, u.endpoints),
                forall|j: int|
                    0 <= j < u.endpoints.len() ==> #[trigger] self@.endpoints[j] == if j < i {
                        u.endpoints[j].advantage_at(frame)
                    } else {
                        u.endpoints[j]
                    },
            decreases self@.endpoints.len() - i,
        {
            proof {
                assert(self.endpoints@[i as int]@ == self@.endpoints[i as int]);
            }
            let ghost ep = self.endpoints@;
            let ghost before = self@;
            self.endpoints[i].update_local_frame_advantage(frame);
            proof {
                assert forall|j: int| 0 <= j < self.endpoints@.len() && j != i implies #[trigger] self.endpoints@[j] == ep[j] by {}
                assert(same_shape(before.endpoints, self@.endpoints)) by {
                    assert forall|j: int| 0 <= j < self@.endpoints.len() implies (#[trigger] self@.endpoints[j]).wf()
                        && self@.endpoints[j].num_players == before.endpoints[j].num_players
                        && self@.endpoints[j].input_size == before.endpoints[j].input_size
                        && self@.endpoints[j].handles == before.endpoints[j].handles by {
                        assert(self@.endpoints[j] == self.endpoints@[j]@);
                        assert(before.endpoints[j] == ep[j]@);
                    }
                }
                lemma_reshaped_wf(before, self@);
                assert forall|j: int| 0 <= j < u.endpoints.len() implies #[trigger] self@.endpoints[j]
                    == if j < i + 1 {
                    u.endpoints[j].advantage_at(frame)
                } else {
                    u.endpoints[j]
                } by {
                    assert(self@.endpoints[j] == self.endpoints@[j]@);
                    assert(before.endpoints[j] == ep[j]@);
                }
            }
            i = i + 1;
        }
        let ghost e2 = self@.endpoints;
        let ghost status = self@.local_connect_status;
        proof {
            assert(e2 =~= Seq::new(
                u.endpoints.len(),
                |j: int| u.endpoints[j].advantage_at(u.layer.current_frame),
            ));
        }
        // poll the endpoints and collect their events
        let ghost mut polled: Seq<u32> = Seq::empty();
        let mut events: Vec<(Event, PlayerHandle)> = Vec::new();
        let mut i: usize = 0;
        while i < self.endpoints.len()
            invariant
                v0 == old(self)@,
                v0.wf(),
                self@.wf(),
                now <= MAX_TIME,
                i <= self@.endpoints.len(),
                self@ == (P2PView { endpoints: self@.endpoints, ..v0 }),
                same_shape(v0.endpoints, self@.endpoints),
                same_shape(v0.endpoints, e2),
                status == v0.local_connect_status,
                polled.len() == i,
                forall|j: int|
                    0 <= j < e2.len() ==> #[trigger] self@.endpoints[j] == if j < i {
                        polled_endpoint(e2[j], status, polled[j], now)
                    } else {
                        e2[j]
                    },
                events_match(events@, polled_events(e2, status, polled, now)),
                forall|q: int| 0 <= q < events@.len() ==> (#[trigger] events@[q]).1 < v0.num_players,
            decreases self@.endpoints.len() - i,
        {
            proof {
                assert(self.endpoints@[i as int]@ == self@.endpoints[i as int]);
            }
            let h = self.endpoints[i].handles()[0];
            let ghost ep = self.endpoints@;
            let ghost before = self@;
            let (mut evs, nonce) = self.endpoints[i].poll(self.local_connect_status.as_slice(), now);
            let ghost q = e2[i as int].polled(status, nonce, now).event_queue;
            let ghost base = polled_events(e2, status, polled, now);
            proof {
                assert forall|j: int| 0 <= j < self.endpoints@.len() && j != i implies #[trigger] self.endpoints@[j] == ep[j] by {}
                assert(same_shape(before.endpoints, self@.endpoints)) by {
                    assert forall|j: int| 0 <= j < self@.endpoints.len() implies (#[trigger] self@.endpoints[j]).wf()
                        && self@.endpoints[j].num_players == before.endpoints[j].num_players
                        && self@.endpoints[j].input_size == before.endpoints[j].input_size
                        && self@.endpoints[j].handles == before.endpoints[j].handles by {
                        assert(self@.endpoints[j] == self.endpoints@[j]@);
                        assert(before.endpoints[j] == ep[j]@);
                    }
                }
                lemma_reshaped_wf(before, self@);
                assert forall|j: int| 0 <= j < e2.len() implies #[trigger] self@.endpoints[j] == if j
                    < i + 1 {
                    polled_endpoint(e2[j], status, polled.push(nonce)[j], now)
                } else {
                    e2[j]
                } by {
                    assert(self@.endpoints[j] == self.endpoints@[j]@);
                    assert(before.endpoints[j] == ep[j]@);
                }
                assert(evs@.len() == q.len()) by {
                    assert(evs@.map_values(|e: Event| e@).len() == q.len());
                }
                assert forall|j: int| 0 <= j < evs@.len() implies (#[trigger] evs@[j])@ == q[j] by {
                    assert(evs@.map_values(|e: Event| e@)[j] == q[j]);
                }
                assert(h == handle_of(e2[i as int]));
            }
            let total_len = evs.len();
            let mut n: usize = 0;
            while evs.len() > 0
                invariant
                    h < v0.num_players,
                    n <= total_len,
                    total_len == q.len(),
                    evs@.len() == total_len - n,
                    forall|j: int| 0 <= j < evs@.len() ==> (#[trigger] evs@[j])@ == q[n + j],
                    events@.len() == base.len() + n,
                    forall|j: int|
                        0 <= j < base.len() ==> (#[trigger] events@[j]).0@ == base[j].0
                            && events@[j].1 == base[j].1,
                    forall|j: int|
                        base.len() <= j < events@.len() ==> (#[trigger] events@[j]).0@ == q[j
                            - base.len()] && events@[j].1 == h,
                    forall|q: int| 0 <= q < events@.len() ==> (#[trigger] events@[q]).1 < v0.num_players,
                decreases total_len - n,
            {
                let ghost old_evs = evs@;
                let e = evs.remove(0);
                proof {
                    assert(old_evs[0] == e);
                    assert forall|j: int| 0 <= j < evs@.len() implies (#[trigger] evs@[j])@ == q[n
                        + 1 + j] by {
                        assert(evs@[j] == old_evs[j + 1]);
                    }
                }
                events.push((e, h));
                n = n + 1;
            }
            proof {
                let all = polled_events(e2, status, polled.push(nonce), now);
                assert(polled.push(nonce).drop_last() =~= polled);
                let tail = q.map_values(|e: EventView| (e, h));
                assert(all == base + tail);
                assert forall|j: int| 0 <= j < events@.len() implies (#[trigger] events@[j]).0@
                    == all[j].0 && events@[j].1 == all[j].1 by {
                    if j >= base.len() {
                        assert(all[j] == tail[j - base.len()]);
                    }
                }
                polled = polled.push(nonce);
            }
            i = i + 1;
        }
        let ghost v1 = self@;
        let ghost all = polled_events(e2, status, polled, now);
        proof {
            assert(v1 == (P2PView {
                endpoints: Seq::new(e2.len(), |j: int| polled_endpoint(e2[j], status, polled[j], now)),
                ..u
            })) by {
                assert(v1.endpoints =~= Seq::new(
                    e2.len(),
                    |j: int| polled_endpoint(e2[j], status, polled[j], now),
                ));
            }
            assert(all.take(0) =~= Seq::<(EventView, PlayerHandle)>::empty());
        }
        // take the events
        let total_events = events.len();
        let mut q: usize = 0;
        while events.len() > 0
            invariant
                v0 == old(self)@,
                v0.wf(),
                self@.wf(),
                now <= MAX_TIME,
                q <= total_events,
                total_events == all.len(),
                events@.len() == total_events - q,
                forall|j: int|
                    0 <= j < events@.len() ==> (#[trigger] events@[j]).0@ == all[q + j].0
                        && events@[j].1 == all[q + j].1,
                forall|q: int| 0 <= q < events@.len() ==> (#[trigger] events@[q]).1 < v0.num_players,
                self@ == v1.events_handled(all.take(q as int), now),
                forall|g: int|
                    0 <= g < v0.num_players && (#[trigger] v0.local_connect_status[g]).disconnected
                        ==> self@.local_connect_status[g].disconnected,
                self@.num_players == v0.num_players,
                self@.input_size == v0.input_size,
                self@.kinds == v0.kinds,
                same_shape(v0.endpoints, self@.endpoints),
                self@.layer.current_frame == v0.layer.current_frame,
                v0.state == SessionState::Running ==> self@.state == SessionState::Running,
                v0.state == SessionState::Initializing ==> self@.state == SessionState::Initializing,
            decreases total_events - q,
        {
            let ghost old_events = events@;
            let (e, h) = events.remove(0);
            proof {
                assert(old_events[0] == (e, h));
                assert forall|j: int| 0 <= j < events@.len() implies (#[trigger] events@[j]).0@
                    == all[q + 1 + j].0 && events@[j].1 == all[q + 1 + j].1 by {
                    assert(events@[j] == old_events[j + 1]);
                }
            }
            let ghost before = self@;
            self.handle_event(e, h, now);
            proof {
                lemma_event_shape(before, e@, h, now);
                assert forall|g: int|
                    0 <= g < v0.num_players && (#[trigger] v0.local_connect_status[g]).disconnected
                        implies self@.local_connect_status[g].disconnected by {
                    lemma_disconnected_stays(before, e@, h, g as PlayerHandle, 0, now);
                }
                assert(all.take(q + 1).drop_last() =~= all.take(q as int));
                assert(all.take(q + 1).last() == all[q as int]);
            }
            q = q + 1;
        }
        proof {
            assert(all.take(all.len() as int) =~= all);
        }
        // confirm the frames every connected player's input arrived for
        let ghost before = self@;
        let confirmed = self.min_confirmed_frame(now);
        proof {
            lemma_confirm_shape(before, before.num_players as nat, now);
            assert forall|g: int|
                0 <= g < v0.num_players && (#[trigger] v0.local_connect_status[g]).disconnected
                    implies self@.local_connect_status[g].disconnected by {
                lemma_disconnected_stays(
                    before,
                    EventView::Synchronized,
                    g as PlayerHandle,
                    g as PlayerHandle,
                    before.num_players as nat,
                    now,
                );
            }
        }
        if confirmed != i32::MAX && self.sync_layer.can_confirm(confirmed) {
            let ghost x = self@;
            self.sync_layer.set_last_confirmed_frame(confirmed);
            proof {
                assert(self@.layer.queues =~= x.layer.confirmed(confirmed).queues);
                assert(self@ == (P2PView { layer: x.layer.confirmed(confirmed), ..x }));
            }
        }
        proof {
            assert(self@ == u.polled_and_confirmed(polled, now));
            assert(v0.endpoints_polled(received@, route, sent, polled, now) == self@);
        }
    }

    /// Rolls the game back to `first_wrong`, the earliest frame with a wrong prediction,
    /// and resimulates it up to the current frame with the inputs known now, saving every
    /// resimulated state. `GeneralFailure` where the game's states break the bookkeeping: a
    /// frame that cannot be loaded (nothing changes then), inputs the queues cannot serve, or a
    /// state for no frame. On success the state saved for `first_wrong` was loaded, every
    /// queue's prediction was reset and the inputs of the frames from `first_wrong` up to the
    /// current one were requested again (see `replayed`), and the resimulated states, each of
    /// a frame, fill the ring slots after the loaded one (see `ring_slot_after`). A game that
    /// keeps a record of its calls is handed that state first, then advanced once per frame
    /// with the inputs requested again for it (see `replay_inputs`).
    fn adjust_gamestate<I: GGRSInterface>(&mut self, first_wrong: FrameNumber, interface: &mut I) -> (r:
        Result<(), GGRSError>)
        requires
            old(self)@.wf(),
            first_incorrect(old(self)@.layer.queues, old(self)@.layer.queues.len()) == Some(
                first_wrong,
            ),
            old(self)@.layer.current_frame < i32::MAX,
        ensures
            final(self)@.wf(),
            final(self)@ == (P2PView { layer: final(self)@.layer, ..old(self)@ }),
            final(self)@.layer.queues.len() == old(self)@.layer.queues.len(),
            r is Ok ==> final(self)@.layer.current_frame == old(self)@.layer.current_frame,
            r is Err ==> r == Err::<(), GGRSError>(GGRSError::GeneralFailure),
            final(self)@.layer.current_frame <= old(self)@.layer.current_frame,
            !old(self)@.layer.loadable(first_wrong) ==> r == Err::<(), GGRSError>(
                GGRSError::GeneralFailure,
            ) && final(self)@ == old(self)@,
            final(self)@.layer == (SyncLayerView {
                head: final(self)@.layer.head,
                states: final(self)@.layer.states,
                queues: final(self)@.layer.queues,
                current_frame: final(self)@.layer.current_frame,
                ..old(self)@.layer
            }),
            r is Ok ==> {
                let index = old(self)@.layer.saved_index(first_wrong);
                let count = (old(self)@.layer.current_frame - first_wrong) as nat;
                &&& final(self)@.layer.head == ring_slot_after(index, count as int)
                &&& forall|i: int|
                    0 <= i < old(self)@.layer.queues.len() ==> #[trigger] final(self)@.layer.queues[i]
                        == replayed(prediction_reset(old(self)@.layer.queues[i]), first_wrong as int, count)
                &&& forall|s: int|
                    0 <= s < MAX_PREDICTION_FRAMES ==> #[trigger] final(self)@.layer.states[s]
                        == old(self)@.layer.states[s] || ((exists|j: int|
                        1 <= j <= count && s == #[trigger] ring_slot_after(index, j))
                        && final(self)@.layer.states[s].frame != NULL_FRAME)
            },
            r is Ok && I::keeps_calls() ==> final(interface).calls() == old(interface).calls().push(
                GameCall::Load(old(self)@.layer.states[old(self)@.layer.saved_index(first_wrong)]),
            ) + Seq::new(
                (old(self)@.layer.current_frame - first_wrong) as nat,
                |j: int|
                    GameCall::Advance(
                        replay_inputs(old(self)@.layer.queues, first_wrong as int, j as nat),
                    ),
            ),
    {
        let current_frame = self.sync_layer.current_frame();
        if first_wrong == NULL_FRAME || first_wrong >= current_frame || (first_wrong
            as i64) < current_frame as i64 - MAX_PREDICTION_FRAMES as i64 {
            return Err(GGRSError::GeneralFailure);
        }
        if self.sync_layer.find_saved_frame_index(first_wrong).is_none() {
            return Err(GGRSError::GeneralFailure);
        }
        let ghost index = old(self)@.layer.saved_index(first_wrong);
        let state = self.sync_layer.load_frame(first_wrong);
        interface.load_game_state(state);
        let ghost loaded_calls = interface.calls();
        proof {
            lemma_first_incorrect_min(self@.layer.queues, self@.layer.queues.len());
        }
        self.sync_layer.reset_prediction(first_wrong);
        let count: i32 = current_frame - first_wrong;
        let mut i: i32 = 0;
        proof {
            assert forall|s: int| 0 <= s < MAX_PREDICTION_FRAMES implies #[trigger] self@.layer.states[s]
                == old(self)@.layer.states[s] by {}
        }
        while i < count
            invariant
                old(self)@.wf(),
                self@.wf(),
                self@ == (P2PView { layer: self@.layer, ..old(self)@ }),
                self@.layer == (SyncLayerView {
                    head: self@.layer.head,
                    states: self@.layer.states,
                    queues: self@.layer.queues,
                    current_frame: self@.layer.current_frame,
                    ..old(self)@.layer
                }),
                self@.layer.queues.len() == old(self)@.layer.queues.len(),
                current_frame == old(self)@.layer.current_frame,
                current_frame < i32::MAX,
                0 <= i <= count,
                count == current_frame - first_wrong,
                old(self)@.layer.loadable(first_wrong),
                self@.layer.current_frame == first_wrong + i,
                index == old(self)@.layer.saved_index(first_wrong),
                0 <= index < MAX_PREDICTION_FRAMES,
                self@.layer.head == ring_slot_after(index, i as int),
                forall|q: int|
                    0 <= q < old(self)@.layer.queues.len() ==> #[trigger] self@.layer.queues[q]
                        == replayed(
                        prediction_reset(old(self)@.layer.queues[q]),
                        first_wrong as int,
                        i as nat,
                    ),
                forall|s: int|
                    0 <= s < MAX_PREDICTION_FRAMES ==> #[trigger] self@.layer.states[s]
                        == old(self)@.layer.states[s] || ((exists|j: int|
                        1 <= j <= i && s == #[trigger] ring_slot_after(index, j))
                        && self@.layer.states[s].frame != NULL_FRAME),
                I::keeps_calls() ==> loaded_calls == old(interface).calls().push(
                    GameCall::Load(old(self)@.layer.states[index]),
                ),
                I::keeps_calls() ==> interface.calls() == loaded_calls + Seq::new(
                    i as nat,
                    |j: int|
                        GameCall::Advance(
                            replay_inputs(old(self)@.layer.queues, first_wrong as int, j as nat),
                        ),
                ),
            decreases count - i,
        {
            let frame = self.sync_layer.current_frame();
            if !self.sync_layer.serves_all(frame) {
                return Err(GGRSError::GeneralFailure);
            }
            let ghost before = self@.layer;
            let inputs = self.sync_layer.synchronized_inputs();
            let ghost requested = inputs@;
            let ghost replayed_queues = self@.layer.queues;
            proof {
                assert forall|q: int| 0 <= q < requested.len() implies #[trigger] requested[q]
                    == replay_inputs(old(self)@.layer.queues, first_wrong as int, i as nat)[q] by {
                    assert(requested[q] == before.queues[q].input_value(frame as int));
                }
                assert(requested =~= replay_inputs(old(self)@.layer.queues, first_wrong as int, i as nat));
            }
            let ghost calls_before = interface.calls();
            self.sync_layer.advance_frame();
            interface.advance_frame(inputs);
            proof {
                if I::keeps_calls() {
                    assert(interface.calls() =~= loaded_calls + Seq::new(
                        (i + 1) as nat,
                        |j: int|
                            GameCall::Advance(
                                replay_inputs(old(self)@.layer.queues, first_wrong as int, j as nat),
                            ),
                    ));
                }
            }
            let saved = interface.save_game_state();
            if saved.frame == NULL_FRAME {
                return Err(GGRSError::GeneralFailure);
            }
            self.sync_layer.save_current_state(saved);
            proof {
                assert forall|q: int| 0 <= q < old(self)@.layer.queues.len() implies #[trigger] self@.layer.queues[q]
                    == replayed(
                    prediction_reset(old(self)@.layer.queues[q]),
                    first_wrong as int,
                    (i + 1) as nat,
                ) by {
                    assert(requested[q] == before.queues[q].input_value(frame as int));
                    assert(replayed_queues[q] == before.queues[q].after_input(frame as int));
                }
                let h = ring_slot_after(index, i + 1);
                assert(self@.layer.head == h);
                assert forall|s: int| 0 <= s < MAX_PREDICTION_FRAMES implies #[trigger] self@.layer.states[s]
                    == old(self)@.layer.states[s] || ((exists|j: int|
                    1 <= j <= i + 1 && s == #[trigger] ring_slot_after(index, j))
                    && self@.layer.states[s].frame != NULL_FRAME) by {
                    if s == h {
                        assert(s == ring_slot_after(index, i + 1));
                    } else {
                        assert(self@.layer.states[s] == before.states[s]);
                    }
                }
            }
            i = i + 1;
        }
        Ok(())
    }

    /// Advances the game by one frame at time `now`: first polls the endpoints with the
    /// messages `received` (see `endpoints_polled`); then, while the session runs, saves the
    /// current state, advances the game with the inputs of all players for the current frame
    /// (see `advance_with`), and rolls back when an input turned out to differ from its
    /// prediction (see `adjust_gamestate` and `resolved_queues`). `NotSynchronized` while the session does not run after polling;
    /// `GeneralFailure` where the game's states or the queues break the bookkeeping.
    /// A game that keeps a record of its calls sees one advance, then, on a rollback, the load
    /// of a state saved for an earlier frame and one advance per frame from it on.
    pub fn advance_frame<I: GGRSInterface>(
        &mut self,
        interface: &mut I,
        received: &[(A, Message)],
        now: u128,
    ) -> (r: Result<(), GGRSError>)
        where
            A: PartialEq,
        requires
            old(self)@.wf(),
            now <= MAX_TIME,
            old(self)@.layer.current_frame < i32::MAX - 1,
        ensures
            final(self)@.wf(),
            final(self)@.num_players == old(self)@.num_players,
            final(self)@.input_size == old(self)@.input_size,
            final(self)@.kinds == old(self)@.kinds,
            same_shape(old(self)@.endpoints, final(self)@.endpoints),
            final(self)@.state != SessionState::Running <==> r == Err::<(), GGRSError>(
                GGRSError::NotSynchronized,
            ),
            final(self)@.state != SessionState::Running ==> final(self)@.layer.current_frame == old(
                self,
            )@.layer.current_frame,
            r is Ok ==> final(self)@.layer.current_frame == old(self)@.layer.current_frame + 1,
            r is Err ==> r == Err::<(), GGRSError>(GGRSError::NotSynchronized) || r == Err::<
                (),
                GGRSError,
            >(GGRSError::GeneralFailure),
            final(self)@.layer.current_frame <= old(self)@.layer.current_frame + 1,
            forall|g: int|
                0 <= g < old(self)@.num_players && (#[trigger] old(self)@.local_connect_status[g]).disconnected
                    ==> final(self)@.local_connect_status[g].disconnected,
            r is Ok ==> forall|i: int|
                0 <= i < final(self)@.layer.queues.len()
                    ==> #[trigger] final(self)@.layer.queues[i].first_incorrect_frame == NULL_FRAME,
            I::keeps_calls() && r is Ok ==> ({
                let c0 = old(interface).calls();
                let c = final(interface).calls();
                &&& c.len() > c0.len()
                &&& c.subrange(0, c0.len() as int) == c0
                &&& c[c0.len() as int] is Advance
                &&& c.len() > c0.len() + 1 ==> (c[c0.len() as int + 1] matches GameCall::Load(s)
                    && s.frame < final(self)@.layer.current_frame && c.len() == c0.len() + 2 + (
                    final(self)@.layer.current_frame - s.frame))
                &&& forall|j: int| c0.len() + 1 < j < c.len() ==> #[trigger] c[j] is Advance
            }),
            exists|route: Seq<int>, sent: Seq<u32>, polled: Seq<u32>|
                valid_route(route, received@.len(), old(self)@.endpoints.len()) && (A::obeys_eq_spec()
                    ==> first_routing(old(self)@.endpoints, received@, route, sent, now))
                    && P2PView::frame_outcome(
                    #[trigger] old(self)@.endpoints_polled(received@, route, sent, polled, now),
                    final(self)@,
                    r,
                ) && (I::keeps_calls() && r is Ok ==> final(interface).calls()[old(
                    interface,
                ).calls().len() as int] == GameCall::Advance(
                    old(self)@.endpoints_polled(
                        received@,
                        route,
                        sent,
                        polled,
                        now,
                    ).layer.current_inputs(),
                )),
    {
        self.poll_endpoints(received, now);
        if self.state != SessionState::Running {
            return Err(GGRSError::NotSynchronized);
        }
        let ghost v1 = self@;
        let saved = interface.save_game_state();
        let inputs = match self.advance_with(saved) {
            Ok(inputs) => inputs,
            Err(e) => {
                return Err(e);
            },
        };
        interface.advance_frame(inputs);
        let ghost advanced_calls = interface.calls();
        proof {
            if I::keeps_calls() {
                assert(advanced_calls.subrange(0, old(interface).calls().len() as int)
                    =~= old(interface).calls());
            }
        }
        match self.sync_layer.check_simulation_consistency() {
            Some(first_incorrect) => {
                let ghost before = self@;
                let res = self.adjust_gamestate(first_incorrect, interface);
                proof {
                    if I::keeps_calls() && res is Ok {
                        let c0 = old(interface).calls();
                        let c = interface.calls();
                        assert(c.subrange(0, c0.len() as int) =~= c0) by {
                            assert forall|k: int| 0 <= k < c0.len() implies c[k] == c0[k] by {
                                assert(c[k] == advanced_calls[k]);
                                assert(advanced_calls[k] == advanced_calls.subrange(0, c0.len() as int)[k]);
                            }
                        }
                        assert(c[c0.len() as int] == advanced_calls[c0.len() as int]);
                        assert(c[c0.len() as int + 1] == GameCall::Load(
                            before.layer.states[before.layer.saved_index(first_incorrect)],
                        ));
                    }
                }
                proof {
                    if res is Ok {
                        assert(self@.layer.queues =~= v1.layer.resolved_queues());
                        assert forall|i: int| 0 <= i < self@.layer.queues.len()
                            implies #[trigger] self@.layer.queues[i].first_incorrect_frame
                            == NULL_FRAME by {
                            lemma_replayed_keeps_incorrect(
                                prediction_reset(before.layer.queues[i]),
                                first_incorrect as int,
                                (before.layer.current_frame - first_incorrect) as nat,
                            );
                        }
                    }
                }
                res
            },
            None => {
                proof {
                    lemma_first_incorrect_min(self@.layer.queues, self@.layer.queues.len());
                    assert(self@.layer.queues =~= v1.layer.resolved_queues());
                }
                Ok(())
            },
        }
    }

    /// The part of a frame after the game saved its state `saved`: the state is kept as the
    /// newest of the ring, and, where the queues serve the current frame, the inputs of all
    /// players for it are returned (stored ones, or predictions) and the layer moves to the
    /// next frame. `GeneralFailure` for a state of no frame (nothing changes) and where the
    /// queues cannot serve the frame (the state is kept).
    pub fn advance_with(&mut self, saved: GameState) -> (r: Result<Vec<GameInput>, GGRSError>)
        requires
            old(self)@.wf(),
            old(self)@.layer.current_frame < i32::MAX,
        ensures
            final(self)@.wf(),
            saved.frame == NULL_FRAME ==> r == Err::<Vec<GameInput>, GGRSError>(
                GGRSError::GeneralFailure,
            ) && final(self)@ == old(self)@,
            saved.frame != NULL_FRAME && !old(self)@.layer.serves_all(old(self)@.layer.current_frame)
                ==> r == Err::<Vec<GameInput>, GGRSError>(GGRSError::GeneralFailure)
                && final(self)@ == (P2PView { layer: old(self)@.layer.state_saved(saved), ..old(self)@ }),
            saved.frame != NULL_FRAME && old(self)@.layer.serves_all(old(self)@.layer.current_frame)
                ==> (r matches Ok(inputs) && inputs@ == old(self)@.layer.current_inputs())
                && final(self)@ == (P2PView {
                layer: old(self)@.layer.state_saved(saved).frame_advanced(),
                ..old(self)@
            }),
    {
        if saved.frame == NULL_FRAME {
            return Err(GGRSError::GeneralFailure);
        }
        let ghost l0 = self@.layer;
        self.sync_layer.save_current_state(saved);
        let frame = self.sync_layer.current_frame();
        if !self.sync_layer.serves_all(frame) {
            return Err(GGRSError::GeneralFailure);
        }
        let ghost l1 = self@.layer;
        let inputs = self.sync_layer.synchronized_inputs();
        proof {
            assert forall|i: int| 0 <= i < l1.queues.len() implies #[trigger] self@.layer.queues[i]
                == l1.frame_advanced().queues[i] && inputs@[i] == l0.current_inputs()[i] by {
                assert(inputs@[i] == l1.queues[i].input_value(l1.current_frame as int));
            }
            assert(inputs@ =~= l0.current_inputs());
            assert(self@.layer.queues =~= l1.frame_advanced().queues);
        }
        self.sync_layer.advance_frame();
        proof {
            assert(self@.layer == l1.frame_advanced());
        }
        Ok(inputs)
    }

    /// Polls the endpoints with the messages `received` at time `now` while the game does not
    /// advance (see `endpoints_polled`).
    pub fn idle(&mut self, received: &[(A, Message)], now: u128)
        where
            A: PartialEq,
        requires
            old(self)@.wf(),
            now <= MAX_TIME,
        ensures
            final(self)@.wf(),
            final(self)@.num_players == old(self)@.num_players,
            final(self)@.input_size == old(self)@.input_size,
            final(self)@.kinds == old(self)@.kinds,
            same_shape(old(self)@.endpoints, final(self)@.endpoints),
            final(self)@.layer.current_frame == old(self)@.layer.current_frame,
            old(self)@.state == SessionState::Running ==> final(self)@.state == SessionState::Running,
            old(self)@.state == SessionState::Initializing ==> final(self)@.state
                == SessionState::Initializing,
            forall|g: int|
                0 <= g < old(self)@.num_players && (#[trigger] old(self)@.local_connect_status[g]).disconnected
                    ==> final(self)@.local_connect_status[g].disconnected,
            exists|route: Seq<int>, sent: Seq<u32>, polled: Seq<u32>|
                valid_route(route, received@.len(), old(self)@.endpoints.len()) && (A::obeys_eq_spec()
                    ==> first_routing(old(self)@.endpoints, received@, route, sent, now))
                    && #[trigger] old(self)@.endpoints_polled(received@, route, sent, polled, now)
                    == final(self)@,
    {
        self.poll_endpoints(received, now);
    }
}

} // verus!
