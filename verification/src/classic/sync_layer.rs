//! The synchronization layer of the byte-buffer API: one input queue per player, the ring of
//! the last saved game states, and the current and last confirmed frame.
use vstd::prelude::*;

use super::error::GGRSError;
use super::frame_info::{GameInput, GameState};
use super::{FrameNumber, MAX_INPUT_DELAY, MAX_PREDICTION_FRAMES};
use crate::input_queue::{InputQueue, InputQueueView, INPUT_QUEUE_LENGTH};
use crate::{PlayerHandle, MAX_INPUT_BYTES, NULL_FRAME};

verus! {

/// The ring position `frames_in_past` steps before `head` in a ring of
/// `MAX_PREDICTION_FRAMES` slots.
pub open spec fn ring_back(head: int, frames_in_past: int) -> int {
    (head - frames_in_past) % (MAX_PREDICTION_FRAMES as int)
}

/// A ring of the last `MAX_PREDICTION_FRAMES` saved values; `head` is the newest one.
pub struct SavedStates<T> {
    pub states: Vec<T>,
    pub head: usize,
}

impl<T> SavedStates<T> {
    /// The ring has its fixed size and `head` lies in it.
    pub open spec fn wf(&self) -> bool {
        &&& self.states@.len() == MAX_PREDICTION_FRAMES
        &&& self.head < MAX_PREDICTION_FRAMES
    }

    /// Saves `state_to_save` in the slot after `head`, which becomes the new head.
    pub fn save_state(&mut self, state_to_save: T)
        requires
            old(self).wf(),
        ensures
            final(self).wf(),
            final(self).head == (old(self).head + 1) % (MAX_PREDICTION_FRAMES as int),
            final(self).states@ == old(self).states@.update(final(self).head as int, state_to_save),
    {
        self.head = (self.head + 1) % self.states.len();
        let h = self.head;
        self.states.set(h, state_to_save);
    }

    /// The newest saved value.
    pub fn state_at_head(&self) -> (r: &T)
        requires
            self.wf(),
        ensures
            *r == self.states@[self.head as int],
    {
        &self.states[self.head]
    }

    /// The value saved `frames_in_past` saves before the newest one (counted around the ring).
    pub fn state_in_past(&self, frames_in_past: usize) -> (r: &T)
        requires
            self.wf(),
        ensures
            *r == self.states@[ring_back(self.head as int, frames_in_past as int)],
    {
        let len: usize = MAX_PREDICTION_FRAMES as usize;
        let back: usize = frames_in_past % len;
        let pos: usize = (self.head + len - back) % len;
        assert(pos as int == ring_back(self.head as int, frames_in_past as int)) by {
            assert((self.head + 8 - back) % 8 == (self.head - frames_in_past) % 8) by (
            nonlinear_arith)
                requires
                    back == frames_in_past % 8,
                    frames_in_past >= 0,
                    self.head >= 0,
            ;
        }
        &self.states[pos]
    }
}

/// After a value is saved into the ring, it is the newest one, and the value saved `k` saves
/// before it (for `k` up to the ring size minus one) is found `k` steps further back than
/// before: the ring gives back the last `MAX_PREDICTION_FRAMES` saved values in order.
pub proof fn lemma_saved_ring_order<T>(states: Seq<T>, head: int, x: T, k: int)
    requires
        states.len() == MAX_PREDICTION_FRAMES,
        0 <= head < MAX_PREDICTION_FRAMES,
        1 <= k < MAX_PREDICTION_FRAMES,
    ensures
        ({
            let h = (head + 1) % (MAX_PREDICTION_FRAMES as int);
            &&& states.update(h, x)[ring_back(h, 0)] == x
            &&& states.update(h, x)[ring_back(h, k)] == states[ring_back(head, k - 1)]
        }),
{
    let h = (head + 1) % 8;
    assert(ring_back(h, 0) == h);
    assert(ring_back(h, k) == ring_back(head, k - 1));
    assert(ring_back(h, k) != h);
}

/// The abstract state of a [`SyncLayer`].
pub struct SyncLayerView {
    pub num_players: u32,
    pub input_size: usize,
    pub states: Seq<GameState>,
    pub head: int,
    pub rolling_back: bool,
    pub last_confirmed_frame: FrameNumber,
    pub current_frame: FrameNumber,
    pub queues: Seq<InputQueueView>,
}

impl SyncLayerView {
    /// The state ring has its fixed size, there is one well-formed queue per player, and every
    /// queue holds inputs of the layer's input size.
    pub open spec fn wf(self) -> bool {
        &&& self.states.len() == MAX_PREDICTION_FRAMES
        &&& 0 <= self.head < MAX_PREDICTION_FRAMES
        &&& self.input_size <= MAX_INPUT_BYTES
        &&& self.queues.len() == self.num_players
        &&& forall|i: int|
            0 <= i < self.queues.len() ==> (#[trigger] self.queues[i]).wf()
                && self.queues[i].prediction.size == self.input_size && self.queues[i].id == i
    }

    /// The layer with `queues` in place of its queues.
    pub open spec fn with_queues(self, queues: Seq<InputQueueView>) -> SyncLayerView {
        SyncLayerView { queues, ..self }
    }

    /// Whether `frame` is among the saved states.
    pub open spec fn has_saved(self, frame: FrameNumber) -> bool {
        exists|i: int| 0 <= i < MAX_PREDICTION_FRAMES && (#[trigger] self.states[i]).frame == frame
    }

    /// The first ring slot that holds a state saved for `frame`.
    pub open spec fn saved_index(self, frame: FrameNumber) -> int {
        choose|i: int|
            0 <= i < MAX_PREDICTION_FRAMES && (#[trigger] self.states[i]).frame == frame && forall|
                j: int,
            |
                0 <= j < i ==> (#[trigger] self.states[j]).frame != frame
    }

    /// The frames a `load_frame` may ask for: a saved frame before the current one, at most
    /// `MAX_PREDICTION_FRAMES` frames back.
    pub open spec fn loadable(self, frame: FrameNumber) -> bool {
        &&& frame != NULL_FRAME
        &&& frame < self.current_frame
        &&& frame >= self.current_frame - MAX_PREDICTION_FRAMES
        &&& self.has_saved(frame)
    }

    /// Whether every queue can serve a request for `frame`.
    pub open spec fn serves_all(self, frame: FrameNumber) -> bool {
        forall|i: int| 0 <= i < self.queues.len() ==> #[trigger] self.queues[i].input_ok(frame as int)
    }

    /// Whether every queue can discard its confirmed frames up to `frame - 1`.
    pub open spec fn can_confirm(self, frame: FrameNumber) -> bool {
        frame > 0 ==> forall|i: int|
            0 <= i < self.queues.len() ==> {
                let v = #[trigger] self.queues[i];
                let fr = v.discard_bound(frame - 1);
                fr < v.last_added_frame && fr > v.tail_frame() ==> fr - v.tail_frame() <= v.length
            }
    }

    /// The layer once `frame` is the last confirmed frame: every queue has discarded its
    /// inputs before `frame`.
    pub open spec fn confirmed(self, frame: FrameNumber) -> SyncLayerView {
        SyncLayerView {
            last_confirmed_frame: frame,
            queues: if frame > 0 {
                Seq::new(self.queues.len(), |i: int| self.queues[i].after_discard(frame - 1))
            } else {
                self.queues
            },
            ..self
        }
    }

    /// The layer after `state` was saved as the newest state of the ring.
    pub open spec fn state_saved(self, state: GameState) -> SyncLayerView {
        let h = (self.head + 1) % (MAX_PREDICTION_FRAMES as int);
        SyncLayerView { head: h, states: self.states.update(h, state), ..self }
    }

    /// The inputs of all players for the current frame: the stored ones, or predictions.
    pub open spec fn current_inputs(self) -> Seq<GameInput> {
        Seq::new(self.queues.len(), |i: int| self.queues[i].input_value(self.current_frame as int))
    }

    /// The layer after the inputs of the current frame were requested and it moved to the next
    /// frame.
    pub open spec fn frame_advanced(self) -> SyncLayerView {
        SyncLayerView {
            queues: Seq::new(
                self.queues.len(),
                |i: int| self.queues[i].after_input(self.current_frame as int),
            ),
            current_frame: (self.current_frame + 1) as FrameNumber,
            ..self
        }
    }

    /// The queues once the frame advanced (see `frame_advanced`) and, where a queue found a
    /// wrong prediction, the rollback to the earliest one replayed the frames since (see
    /// `replayed`).
    pub open spec fn resolved_queues(self) -> Seq<InputQueueView> {
        let a = self.frame_advanced();
        match first_incorrect(a.queues, a.queues.len()) {
            None => a.queues,
            Some(f) => Seq::new(
                a.queues.len(),
                |i: int| replayed(
                    prediction_reset(a.queues[i]),
                    f as int,
                    (a.current_frame - f) as nat,
                ),
            ),
        }
    }

    /// Whether every queue holds the input of `frame` in its ring slot.
    pub open spec fn holds_confirmed(self, frame: FrameNumber) -> bool {
        &&& frame >= 0
        &&& forall|i: int|
            0 <= i < self.queues.len() ==> (#[trigger] self.queues[i]).inputs[frame as int
                % INPUT_QUEUE_LENGTH as int].frame == frame
    }

    /// The local inputs are refused while the current frame is more than `MAX_PREDICTION_FRAMES`
    /// frames past the last confirmed one.
    pub open spec fn prediction_threshold_reached(self) -> bool {
        self.current_frame - self.last_confirmed_frame > MAX_PREDICTION_FRAMES
    }
}

/// The queue `q` with its prediction reset: no prediction runs, no wrong prediction is known
/// and no frame was requested.
pub open spec fn prediction_reset(q: InputQueueView) -> InputQueueView {
    InputQueueView {
        prediction: crate::input_queue::with_frame(q.prediction, NULL_FRAME),
        first_incorrect_frame: NULL_FRAME,
        last_requested_frame: NULL_FRAME,
        ..q
    }
}

/// The queue `q` after the inputs of the `k` frames from `from` on were requested in turn.
pub open spec fn replayed(q: InputQueueView, from: int, k: nat) -> InputQueueView
    decreases k,
{
    if k == 0 {
        q
    } else {
        replayed(q, from, (k - 1) as nat).after_input(from + k - 1)
    }
}

/// The inputs of all players for frame `from + k` when the queues `queues` were reset and then
/// asked again for the `k` frames from `from` on.
pub open spec fn replay_inputs(queues: Seq<InputQueueView>, from: int, k: nat) -> Seq<GameInput> {
    Seq::new(
        queues.len(),
        |q: int| replayed(prediction_reset(queues[q]), from, k).input_value(from + k),
    )
}

/// Requesting inputs again never records a wrong prediction.
pub proof fn lemma_replayed_keeps_incorrect(q: InputQueueView, from: int, k: nat)
    ensures
        replayed(q, from, k).first_incorrect_frame == q.first_incorrect_frame,
    decreases k,
{
    if k > 0 {
        lemma_replayed_keeps_incorrect(q, from, (k - 1) as nat);
    }
}

/// The ring slot `j` saves after the slot following `index`.
pub open spec fn ring_slot_after(index: int, j: int) -> int {
    (index + 1 + j) % (MAX_PREDICTION_FRAMES as int)
}

/// The earliest frame at which a queue among the first `n` found a wrong prediction, if any.
pub open spec fn first_incorrect(queues: Seq<InputQueueView>, n: nat) -> Option<FrameNumber>
    decreases n,
{
    if n == 0 {
        None
    } else {
        let rest = first_incorrect(queues, (n - 1) as nat);
        let f = queues[n - 1].first_incorrect_frame;
        if f == NULL_FRAME {
            rest
        } else {
            match rest {
                Some(g) => if f < g {
                    Some(f)
                } else {
                    Some(g)
                },
                None => Some(f),
            }
        }
    }
}

/// The earliest frame is no later than the wrong prediction of any queue, and is one of them.
pub proof fn lemma_first_incorrect_min(queues: Seq<InputQueueView>, n: nat)
    ensures
        forall|i: int|
            0 <= i < n && queues[i].first_incorrect_frame != NULL_FRAME ==> (first_incorrect(
                queues,
                n,
            ) matches Some(g) && g <= #[trigger] queues[i].first_incorrect_frame),
        first_incorrect(queues, n) is None ==> forall|i: int|
            0 <= i < n ==> #[trigger] queues[i].first_incorrect_frame == NULL_FRAME,
        first_incorrect(queues, n) matches Some(g) ==> g != NULL_FRAME,
    decreases n,
{
    if n > 0 {
        lemma_first_incorrect_min(queues, (n - 1) as nat);
    }
}

/// Keeps the input queues of all players and the recently saved game states, and tracks the
/// current and the last confirmed frame.
pub struct SyncLayer {
    num_players: u32,
    input_size: usize,
    saved_states: SavedStates<GameState>,
    rolling_back: bool,
    last_confirmed_frame: FrameNumber,
    current_frame: FrameNumber,
    input_queues: Vec<InputQueue>,
}

impl View for SyncLayer {
    type V = SyncLayerView;

    closed spec fn view(&self) -> SyncLayerView {
        SyncLayerView {
            num_players: self.num_players,
            input_size: self.input_size,
            states: self.saved_states.states@,
            head: self.saved_states.head as int,
            rolling_back: self.rolling_back,
            last_confirmed_frame: self.last_confirmed_frame,
            current_frame: self.current_frame,
            queues: self.input_queues@.map_values(|q: InputQueue| q@),
        }
    }
}

impl SyncLayer {
    /// A layer for `num_players` players with inputs of `input_size` bytes: fresh queues,
    /// blank saved states, frame 0 and no confirmed frame.
    pub fn new(num_players: u32, input_size: usize) -> (r: SyncLayer)
        requires
            input_size <= MAX_INPUT_BYTES,
        ensures
            r@.wf(),
            r@.num_players == num_players,
            r@.input_size == input_size,
            r@.head == 0,
            forall|i: int|
                0 <= i < MAX_PREDICTION_FRAMES ==> (#[trigger] r@.states[i]).frame == NULL_FRAME
                    && r@.states[i].buffer@.len() == 0 && r@.states[i].checksum is None,
            !r@.rolling_back,
            r@.last_confirmed_frame == NULL_FRAME,
            r@.current_frame == 0,
            forall|i: int|
                0 <= i < num_players ==> (#[trigger] r@.queues[i]).is_new(
                    i as PlayerHandle,
                    input_size,
                ),
    {
        let mut input_queues: Vec<InputQueue> = Vec::new();
        let mut i: u32 = 0;
        while i < num_players
            invariant
                input_size <= MAX_INPUT_BYTES,
                i <= num_players,
                input_queues@.len() == i,
                forall|j: int|
                    0 <= j < i ==> (#[trigger] input_queues@[j])@.is_new(
                        j as PlayerHandle,
                        input_size,
                    ),
            decreases num_players - i,
        {
            input_queues.push(InputQueue::new(i as PlayerHandle, input_size));
            i = i + 1;
        }
        let mut states: Vec<GameState> = Vec::new();
        let mut k: usize = 0;
        while k < MAX_PREDICTION_FRAMES as usize
            invariant
                k <= MAX_PREDICTION_FRAMES,
                states@.len() == k,
                forall|j: int|
                    0 <= j < k ==> (#[trigger] states@[j]).frame == NULL_FRAME
                        && states@[j].buffer@.len() == 0 && states@[j].checksum is None,
            decreases MAX_PREDICTION_FRAMES - k,
        {
            states.push(GameState::new());
            k = k + 1;
        }
        let r = SyncLayer {
            num_players,
            input_size,
            rolling_back: false,
            last_confirmed_frame: NULL_FRAME,
            current_frame: 0,
            saved_states: SavedStates { head: 0, states },
            input_queues,
        };
        assert forall|j: int| 0 <= j < num_players implies (#[trigger] r@.queues[j]).is_new(
            j as PlayerHandle,
            input_size,
        ) by {
            assert(r@.queues[j] == input_queues@[j]@);
        }
        r
    }

    /// The current frame.
    pub fn current_frame(&self) -> (r: FrameNumber)
        ensures
            r == self@.current_frame,
    {
        self.current_frame
    }

    /// The last confirmed frame.
    pub fn last_confirmed_frame(&self) -> (r: FrameNumber)
        ensures
            r == self@.last_confirmed_frame,
    {
        self.last_confirmed_frame
    }

    /// The number of players.
    pub fn num_players(&self) -> (r: u32)
        ensures
            r == self@.num_players,
    {
        self.num_players
    }

    /// Moves to the next frame.
    pub fn advance_frame(&mut self)
        requires
            old(self)@.current_frame < i32::MAX,
        ensures
            final(self)@ == (SyncLayerView {
                current_frame: (old(self)@.current_frame + 1) as i32,
                ..old(self)@
            }),
    {
        self.current_frame = self.current_frame + 1;
    }

    /// Saves `state_to_save` as the newest state of the ring.
    pub fn save_current_state(&mut self, state_to_save: GameState)
        requires
            old(self)@.wf(),
            state_to_save.frame != NULL_FRAME,
        ensures
            final(self)@ == (SyncLayerView {
                head: (old(self)@.head + 1) % (MAX_PREDICTION_FRAMES as int),
                states: old(self)@.states.update(
                    (old(self)@.head + 1) % (MAX_PREDICTION_FRAMES as int),
                    state_to_save,
                ),
                ..old(self)@
            }),
            final(self)@.wf(),
    {
        self.saved_states.save_state(state_to_save);
    }

    /// The newest saved state, or `None` while it belongs to no frame.
    pub fn last_saved_state(&self) -> (r: Option<&GameState>)
        requires
            self@.wf(),
        ensures
            r == (if self@.states[self@.head].frame == NULL_FRAME {
                None
            } else {
                Some(&self@.states[self@.head])
            }),
    {
        let state = self.saved_states.state_at_head();
        if state.frame == NULL_FRAME {
            None
        } else {
            Some(state)
        }
    }

    /// Sets the input delay of a player.
    pub fn set_frame_delay(&mut self, player_handle: PlayerHandle, delay: u32)
        requires
            old(self)@.wf(),
            player_handle < old(self)@.num_players,
            delay <= MAX_INPUT_DELAY,
        ensures
            final(self)@ == old(self)@.with_queues(
                old(self)@.queues.update(
                    player_handle as int,
                    InputQueueView { frame_delay: delay, ..old(self)@.queues[player_handle as int] },
                ),
            ),
            final(self)@.wf(),
    {
        self.input_queues[player_handle].set_frame_delay(delay);
        proof {
            assert(self@.queues =~= old(self)@.queues.update(
                player_handle as int,
                InputQueueView { frame_delay: delay, ..old(self)@.queues[player_handle as int] },
            ));
        }
    }

    /// Ends prediction in every queue; `frame` must not be past a known incorrect frame of any
    /// queue.
    pub fn reset_prediction(&mut self, frame: FrameNumber)
        requires
            old(self)@.wf(),
            forall|i: int|
                0 <= i < old(self)@.queues.len() ==> (#[trigger] old(self)@.queues[i]).first_incorrect_frame
                    == NULL_FRAME || frame <= old(self)@.queues[i].first_incorrect_frame,
        ensures
            final(self)@.wf(),
            final(self)@ == old(self)@.with_queues(final(self)@.queues),
            final(self)@.queues.len() == old(self)@.queues.len(),
            forall|i: int|
                0 <= i < old(self)@.queues.len() ==> #[trigger] final(self)@.queues[i] == (
                InputQueueView {
                    prediction: crate::input_queue::with_frame(
                        old(self)@.queues[i].prediction,
                        NULL_FRAME,
                    ),
                    first_incorrect_frame: NULL_FRAME,
                    last_requested_frame: NULL_FRAME,
                    ..old(self)@.queues[i]
                }),
    {
        let mut i: u32 = 0;
        while i < self.num_players
            invariant
                i <= self.num_players,
                self.input_queues@.len() == old(self).input_queues@.len(),
                self@ == old(self)@.with_queues(self@.queues),
                self@.wf(),
                forall|j: int|
                    i <= j < old(self)@.queues.len() ==> #[trigger] self@.queues[j] == old(
                        self,
                    )@.queues[j],
                forall|j: int|
                    0 <= j < i ==> #[trigger] self@.queues[j] == (InputQueueView {
                        prediction: crate::input_queue::with_frame(
                            old(self)@.queues[j].prediction,
                            NULL_FRAME,
                        ),
                        first_incorrect_frame: NULL_FRAME,
                        last_requested_frame: NULL_FRAME,
                        ..old(self)@.queues[j]
                    }),
                forall|j: int|
                    0 <= j < old(self)@.queues.len() ==> (#[trigger] old(
                        self,
                    )@.queues[j]).first_incorrect_frame == NULL_FRAME || frame <= old(
                        self,
                    )@.queues[j].first_incorrect_frame,
            decreases self.num_players - i,
        {
            let ghost before = self@;
            proof {
                assert(self@.queues[i as int] == self.input_queues@[i as int]@);
                assert(old(self)@.queues[i as int] == self@.queues[i as int]);
            }
            self.input_queues[i as usize].reset_prediction(frame);
            proof {
                assert forall|j: int| 0 <= j < self@.queues.len() implies #[trigger] self@.queues[j]
                    == (if j == i {
                    self@.queues[j]
                } else {
                    before.queues[j]
                }) by {}
            }
            i = i + 1;
        }
    }

    /// The first ring slot holding the state saved for `frame`, if any.
    pub fn find_saved_frame_index(&self, frame: FrameNumber) -> (r: Option<usize>)
        requires
            self@.wf(),
        ensures
            r is Some <==> self@.has_saved(frame),
            r matches Some(i) ==> i == self@.saved_index(frame),
    {
        let mut i: usize = 0;
        while i < MAX_PREDICTION_FRAMES as usize
            invariant
                self@.wf(),
                i <= MAX_PREDICTION_FRAMES,
                forall|j: int| 0 <= j < i ==> (#[trigger] self@.states[j]).frame != frame,
            decreases MAX_PREDICTION_FRAMES - i,
        {
            if self.saved_states.states[i].frame == frame {
                proof {
                    let k = self@.saved_index(frame);
                    assert(self@.states[i as int].frame == frame);
                    assert(0 <= k < MAX_PREDICTION_FRAMES && self@.states[k].frame == frame
                        && forall|j: int| 0 <= j < k ==> (#[trigger] self@.states[j]).frame
                        != frame);
                    if k < i {
                    } else if k > i {
                        assert(self@.states[i as int].frame != frame);
                    }
                }
                return Some(i);
            }
            i = i + 1;
        }
        None
    }

    /// Rolls back to `frame_to_load`: returns the state saved for it, moves the ring head just
    /// past it (as if that frame had just been executed) and makes it the current frame.
    pub fn load_frame(&mut self, frame_to_load: FrameNumber) -> (r: &GameState)
        requires
            old(self)@.wf(),
            old(self)@.loadable(frame_to_load),
        ensures
            *r == old(self)@.states[old(self)@.saved_index(frame_to_load)],
            r.frame == frame_to_load,
            final(self)@ == (SyncLayerView {
                head: (old(self)@.saved_index(frame_to_load) + 1) % (MAX_PREDICTION_FRAMES as int),
                current_frame: frame_to_load,
                ..old(self)@
            }),
            final(self)@.wf(),
    {
        let found = self.find_saved_frame_index(frame_to_load);
        let index = match found {
            Some(i) => i,
            None => {
                proof {
                    assert(false);
                }
                0
            },
        };
        self.saved_states.head = (index + 1) % (MAX_PREDICTION_FRAMES as usize);
        self.current_frame = frame_to_load;
        &self.saved_states.states[index]
    }

    /// Whether `add_local_input(player_handle, *input)` / `add_remote_input` can store the input
    /// in the player's queue.
    pub fn accepts_input(&self, player_handle: PlayerHandle, input: &GameInput) -> (r: bool)
        requires
            self@.wf(),
            player_handle < self@.num_players,
        ensures
            r == self@.queues[player_handle as int].add_input_ok(*input),
    {
        proof {
            assert(self@.queues[player_handle as int] == self.input_queues@[player_handle as int]@);
        }
        self.input_queues[player_handle].accepts(input)
    }

    /// Adds a local input for the current frame, unless the prediction threshold is reached:
    /// the current frame may be at most `MAX_PREDICTION_FRAMES` frames past the last confirmed
    /// one. Returns the frame the input was stored at (see `add_remote_input`).
    pub fn add_local_input(&mut self, player_handle: PlayerHandle, input: GameInput) -> (r: Result<
        FrameNumber,
        GGRSError,
    >)
        requires
            old(self)@.wf(),
            player_handle < old(self)@.num_players,
            input.frame == old(self)@.current_frame,
            !old(self)@.prediction_threshold_reached() ==> old(self)@.queues[player_handle as int].add_input_ok(input),
        ensures
            final(self)@.wf(),
            old(self)@.prediction_threshold_reached() ==> r == Err::<FrameNumber, GGRSError>(
                GGRSError::PredictionThreshold,
            ) && final(self)@ == old(self)@,
            !old(self)@.prediction_threshold_reached() ==> r == Ok::<FrameNumber, GGRSError>(
                old(self)@.queues[player_handle as int].add_result(input) as FrameNumber,
            ) && final(self)@ == old(self)@.with_queues(
                old(self)@.queues.update(
                    player_handle as int,
                    old(self)@.queues[player_handle as int].after_add(input),
                ),
            ),
    {
        let frames_behind: i64 = self.current_frame as i64 - self.last_confirmed_frame as i64;
        if frames_behind > MAX_PREDICTION_FRAMES as i64 {
            return Err(GGRSError::PredictionThreshold);
        }
        Ok(self.add_remote_input(player_handle, input))
    }

    /// Adds an input received from a remote player; remote inputs were already checked on the
    /// other device, so no threshold applies. Returns the frame the input was stored at, after
    /// the player's frame delay (`NULL_FRAME` when it was dropped).
    pub fn add_remote_input(&mut self, player_handle: PlayerHandle, input: GameInput) -> (r: FrameNumber)
        requires
            old(self)@.wf(),
            player_handle < old(self)@.num_players,
            old(self)@.queues[player_handle as int].add_input_ok(input),
        ensures
            r == old(self)@.queues[player_handle as int].add_result(input),
            final(self)@.wf(),
            final(self)@ == old(self)@.with_queues(
                old(self)@.queues.update(
                    player_handle as int,
                    old(self)@.queues[player_handle as int].after_add(input),
                ),
            ),
    {
        let ghost q0 = old(self)@.queues[player_handle as int];
        proof {
            assert(q0 == self.input_queues@[player_handle as int]@);
        }
        let frame = self.input_queues[player_handle].add_input(input);
        proof {
            lemma_after_add_keeps_shape(q0, input);
            assert(self@.queues =~= old(self)@.queues.update(
                player_handle as int,
                q0.after_add(input),
            ));
        }
        frame
    }

    /// The earliest frame at which an input turned out to differ from its prediction, if any.
    pub fn check_simulation_consistency(&self) -> (r: Option<FrameNumber>)
        requires
            self@.wf(),
        ensures
            r == first_incorrect(self@.queues, self@.queues.len()),
    {
        let mut first: Option<FrameNumber> = None;
        let mut i: usize = 0;
        while i < self.input_queues.len()
            invariant
                self@.wf(),
                i <= self@.queues.len(),
                first == first_incorrect(self@.queues, i as nat),
            decreases self@.queues.len() - i,
        {
            proof {
                assert(self@.queues[i as int] == self.input_queues@[i as int]@);
            }
            let f = self.input_queues[i].first_incorrect_frame();
            if f != NULL_FRAME {
                first = match first {
                    Some(g) => if f < g {
                        Some(f)
                    } else {
                        Some(g)
                    },
                    None => Some(f),
                };
            }
            i = i + 1;
        }
        first
    }

    /// Whether every queue can serve a request for `frame`.
    pub fn serves_all(&self, frame: FrameNumber) -> (r: bool)
        requires
            self@.wf(),
        ensures
            r == self@.serves_all(frame),
    {
        let mut i: usize = 0;
        while i < self.input_queues.len()
            invariant
                self@.wf(),
                i <= self@.queues.len(),
                forall|j: int| 0 <= j < i ==> #[trigger] self@.queues[j].input_ok(frame as int),
            decreases self@.queues.len() - i,
        {
            proof {
                assert(self@.queues[i as int] == self.input_queues@[i as int]@);
            }
            if !self.input_queues[i].serves(frame) {
                return false;
            }
            i = i + 1;
        }
        true
    }

    /// The inputs of all players for the current frame: stored ones, or predictions where an
    /// input has not arrived yet.
    pub fn synchronized_inputs(&mut self) -> (r: Vec<GameInput>)
        requires
            old(self)@.wf(),
            old(self)@.serves_all(old(self)@.current_frame),
        ensures
            final(self)@.wf(),
            final(self)@ == old(self)@.with_queues(final(self)@.queues),
            final(self)@.queues.len() == old(self)@.queues.len(),
            r@.len() == old(self)@.num_players,
            forall|i: int|
                0 <= i < old(self)@.queues.len() ==> #[trigger] r@[i] == old(
                    self,
                )@.queues[i].input_value(old(self)@.current_frame as int) && final(self)@.queues[i]
                    == old(self)@.queues[i].after_input(old(self)@.current_frame as int),
            forall|i: int| 0 <= i < r@.len() ==> (#[trigger] r@[i]).frame == old(self)@.current_frame,
    {
        let mut inputs: Vec<GameInput> = Vec::new();
        let frame = self.current_frame;
        let mut i: u32 = 0;
        while i < self.num_players
            invariant
                i <= self.num_players,
                frame == old(self)@.current_frame,
                self@ == old(self)@.with_queues(self@.queues),
                self.input_queues@.len() == old(self).input_queues@.len(),
                self@.wf(),
                inputs@.len() == i,
                forall|j: int|
                    i <= j < old(self)@.queues.len() ==> #[trigger] self@.queues[j] == old(
                        self,
                    )@.queues[j],
                forall|j: int|
                    0 <= j < i ==> #[trigger] inputs@[j] == old(self)@.queues[j].input_value(
                        frame as int,
                    ) && self@.queues[j] == old(self)@.queues[j].after_input(frame as int)
                        && inputs@[j].frame == frame,
                old(self)@.wf(),
                old(self)@.serves_all(frame),
            decreases self.num_players - i,
        {
            let ghost before = self@;
            proof {
                assert(old(self)@.queues[i as int].input_ok(frame as int));
                assert(self@.queues[i as int] == self.input_queues@[i as int]@);
            }
            let input = self.input_queues[i as usize].input(frame);
            inputs.push(input);
            proof {
                assert forall|j: int| 0 <= j < self@.queues.len() implies #[trigger] self@.queues[j]
                    == (if j == i {
                    self@.queues[j]
                } else {
                    before.queues[j]
                }) by {}
            }
            i = i + 1;
        }
        inputs
    }

    /// Whether every queue still holds the input of `frame` in its ring slot.
    pub fn holds_confirmed(&self, frame: FrameNumber) -> (r: bool)
        requires
            self@.wf(),
        ensures
            r == self@.holds_confirmed(frame),
    {
        if frame < 0 {
            return false;
        }
        let slot: usize = frame as usize % INPUT_QUEUE_LENGTH;
        let mut i: usize = 0;
        while i < self.input_queues.len()
            invariant
                self@.wf(),
                frame >= 0,
                slot == frame as int % INPUT_QUEUE_LENGTH as int,
                i <= self@.queues.len(),
                forall|j: int|
                    0 <= j < i ==> (#[trigger] self@.queues[j]).inputs[frame as int
                        % INPUT_QUEUE_LENGTH as int].frame == frame,
            decreases self@.queues.len() - i,
        {
            proof {
                assert(self@.queues[i as int] == self.input_queues@[i as int]@);
            }
            if self.input_queues[i].slot_frame(slot) != frame {
                return false;
            }
            i = i + 1;
        }
        true
    }

    /// The confirmed inputs of all players for the current frame.
    pub fn confirmed_inputs(&self) -> (r: Vec<GameInput>)
        requires
            self@.wf(),
            self@.holds_confirmed(self@.current_frame),
        ensures
            r@.len() == self@.num_players,
            forall|i: int|
                0 <= i < self@.queues.len() ==> #[trigger] r@[i] == self@.queues[i].inputs[self@.current_frame as int
                    % INPUT_QUEUE_LENGTH as int],
    {
        let mut inputs: Vec<GameInput> = Vec::new();
        let mut i: usize = 0;
        while i < self.input_queues.len()
            invariant
                self@.wf(),
                self@.holds_confirmed(self@.current_frame),
                i <= self@.queues.len(),
                inputs@.len() == i,
                forall|j: int|
                    0 <= j < i ==> #[trigger] inputs@[j] == self@.queues[j].inputs[self@.current_frame as int
                        % INPUT_QUEUE_LENGTH as int],
            decreases self@.queues.len() - i,
        {
            proof {
                assert(self@.queues[i as int] == self.input_queues@[i as int]@);
            }
            inputs.push(self.input_queues[i].confirmed_input(self.current_frame as u32));
            i = i + 1;
        }
        inputs
    }

    /// Whether `set_last_confirmed_frame(frame)` can discard the confirmed inputs.
    pub fn can_confirm(&self, frame: FrameNumber) -> (r: bool)
        requires
            self@.wf(),
        ensures
            r == self@.can_confirm(frame),
    {
        if frame <= 0 {
            return true;
        }
        let mut i: usize = 0;
        while i < self.input_queues.len()
            invariant
                self@.wf(),
                frame > 0,
                i <= self@.queues.len(),
                forall|j: int|
                    0 <= j < i ==> {
                        let v = #[trigger] self@.queues[j];
                        let fr = v.discard_bound(frame - 1);
                        fr < v.last_added_frame && fr > v.tail_frame() ==> fr - v.tail_frame()
                            <= v.length
                    },
            decreases self@.queues.len() - i,
        {
            proof {
                assert(self@.queues[i as int] == self.input_queues@[i as int]@);
            }
            if !self.input_queues[i].can_discard(frame - 1) {
                return false;
            }
            i = i + 1;
        }
        true
    }

    /// Raises the last confirmed frame to `frame`; the inputs before it are no longer needed and
    /// are discarded from every queue.
    pub fn set_last_confirmed_frame(&mut self, frame: FrameNumber)
        requires
            old(self)@.wf(),
            old(self)@.can_confirm(frame),
        ensures
            final(self)@.wf(),
            final(self)@.queues.len() == old(self)@.queues.len(),
            final(self)@ == (SyncLayerView {
                last_confirmed_frame: frame,
                queues: final(self)@.queues,
                ..old(self)@
            }),
            frame <= 0 ==> final(self)@.queues == old(self)@.queues,
            frame > 0 ==> forall|i: int|
                0 <= i < old(self)@.queues.len() ==> #[trigger] final(self)@.queues[i] == old(
                    self,
                )@.queues[i].after_discard(frame - 1),
    {
        self.last_confirmed_frame = frame;
        if self.last_confirmed_frame > 0 {
            let ghost start = self@;
            let mut i: u32 = 0;
            while i < self.num_players
                invariant
                    frame > 0,
                    i <= self.num_players,
                    self.input_queues@.len() == old(self).input_queues@.len(),
                    self@ == start.with_queues(self@.queues),
                    start == (SyncLayerView { last_confirmed_frame: frame, ..old(self)@ }),
                    self@.wf(),
                    old(self)@.wf(),
                    old(self)@.can_confirm(frame),
                    forall|j: int|
                        i <= j < old(self)@.queues.len() ==> #[trigger] self@.queues[j] == old(
                            self,
                        )@.queues[j],
                    forall|j: int|
                        0 <= j < i ==> #[trigger] self@.queues[j] == old(self)@.queues[j].after_discard(
                            frame - 1,
                        ),
                decreases self.num_players - i,
            {
                let ghost before = self@;
                proof {
                    assert(self@.queues[i as int] == self.input_queues@[i as int]@);
                    assert(old(self)@.queues[i as int] == before.queues[i as int]);
                }
                self.input_queues[i as usize].discard_confirmed_frames(frame - 1);
                proof {
                    assert forall|j: int| 0 <= j < self@.queues.len() implies #[trigger] self@.queues[j]
                        == (if j == i {
                        self@.queues[j]
                    } else {
                        before.queues[j]
                    }) by {}
                }
                i = i + 1;
            }
        }
    }
}

/// Adding an input keeps a queue's id and input size.
proof fn lemma_after_add_keeps_shape(v: InputQueueView, x: GameInput)
    requires
        v.add_input_ok(x),
    ensures
        v.after_add(x).id == v.id,
        v.after_add(x).prediction.size == v.prediction.size,
{
    let e = v.expected_frame();
    let f = v.delayed(x.frame);
    if e <= f {
        lemma_fill_keeps_shape(v, v.inputs[crate::input_queue::prev_pos(v.head)], e, f);
    }
}

/// Filling frames keeps a queue's id and input size.
proof fn lemma_fill_keeps_shape(v: InputQueueView, rep: GameInput, e: int, f: int)
    ensures
        v.fill(rep, e, f).id == v.id,
        v.fill(rep, e, f).prediction.size == v.prediction.size,
    decreases f - e,
{
    if e < f {
        lemma_fill_keeps_shape(v, rep, e, f - 1);
    }
}

} // verus!
