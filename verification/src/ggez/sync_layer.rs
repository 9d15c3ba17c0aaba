//! The synchronization layer of the first rollback API: one input queue per player, the ring
//! of recently saved game states, and the current and last confirmed frame.
use vstd::prelude::*;

use super::game_info::{GameInput, GameState};
use super::input_queue::{InputQueue, InputQueueView};
use super::{
    FrameNumber, GGEZCall, GGEZError, GGEZInterface, PlayerHandle, MAX_INPUT_BYTES, MAX_INPUT_DELAY,
    MAX_PREDICTION_FRAMES, NULL_FRAME,
};

verus! {

/// The number of slots of the saved state ring.
pub const SAVED_STATES_LENGTH: usize = MAX_PREDICTION_FRAMES + 2;

/// A ring of recently saved game states; `head` is the newest one.
struct SavedStates {
    states: Vec<GameState>,
    head: usize,
}

/// The abstract state of a [`SyncLayer`].
pub struct SyncLayerView {
    pub num_players: u32,
    pub input_size: usize,
    pub states: Seq<GameState>,
    pub head: int,
    pub rolling_back: bool,
    pub last_confirmed_frame: FrameNumber,
    pub current_frame: FrameNumber,
    pub queues: Seq<InputQueueView>,
}

impl SyncLayerView {
    /// The state ring has its fixed size, there is one well-formed queue per player, and every
    /// queue holds inputs of the layer's input size.
    pub open spec fn wf(self) -> bool {
        &&& self.states.len() == SAVED_STATES_LENGTH
        &&& 0 <= self.head < SAVED_STATES_LENGTH
        &&& self.input_size <= MAX_INPUT_BYTES
        &&& self.queues.len() == self.num_players
        &&& forall|i: int|
            0 <= i < self.queues.len() ==> (#[trigger] self.queues[i]).wf()
                && self.queues[i].prediction.size == self.input_size && self.queues[i].id == i
    }

    /// Whether `frame` is among the saved states.
    pub open spec fn has_saved(self, frame: FrameNumber) -> bool {
        exists|i: int| 0 <= i < SAVED_STATES_LENGTH && (#[trigger] self.states[i]).frame == frame
    }

    /// The first ring slot that holds a state saved for `frame`.
    pub open spec fn saved_index(self, frame: FrameNumber) -> int {
        choose|i: int|
            0 <= i < SAVED_STATES_LENGTH && (#[trigger] self.states[i]).frame == frame && forall|
                j: int,
            |
                0 <= j < i ==> (#[trigger] self.states[j]).frame != frame
    }

    /// The frames `load_frame` refuses as an invalid request: no frame, the current frame or a
    /// later one, or a frame too far in the past to be in the ring.
    pub open spec fn load_refused(self, frame: FrameNumber) -> bool {
        ||| frame == self.current_frame
        ||| frame == NULL_FRAME
        ||| frame > self.current_frame
        ||| frame < self.current_frame - MAX_PREDICTION_FRAMES
    }

    /// The local inputs are refused once the current frame is `MAX_PREDICTION_FRAMES` or more
    /// frames past the last confirmed one.
    pub open spec fn prediction_threshold_reached(self) -> bool {
        self.current_frame - self.last_confirmed_frame >= MAX_PREDICTION_FRAMES
    }

    /// The layer with `queues` in place of its queues.
    pub open spec fn with_queues(self, queues: Seq<InputQueueView>) -> SyncLayerView {
        SyncLayerView { queues, ..self }
    }
}

/// Keeps the input queues of all players and the recently saved game states, and tracks the
/// current and the last confirmed frame.
pub struct SyncLayer {
    num_players: u32,
    input_size: usize,
    saved_states: SavedStates,
    rolling_back: bool,
    last_confirmed_frame: FrameNumber,
    current_frame: FrameNumber,
    input_queues: Vec<InputQueue>,
}

impl View for SyncLayer {
    type V = SyncLayerView;

    closed spec fn view(&self) -> SyncLayerView {
        SyncLayerView {
            num_players: self.num_players,
            input_size: self.input_size,
            states: self.saved_states.states@,
            head: self.saved_states.head as int,
            rolling_back: self.rolling_back,
            last_confirmed_frame: self.last_confirmed_frame,
            current_frame: self.current_frame,
            queues: self.input_queues@.map_values(|q: InputQueue| q@),
        }
    }
}

impl SyncLayer {
    /// A layer for `num_players` players with inputs of `input_size` bytes: fresh queues,
    /// blank saved states, frame 0 and no confirmed frame.
    pub fn new(num_players: u32, input_size: usize) -> (r: SyncLayer)
        requires
            input_size <= MAX_INPUT_BYTES,
        ensures
            r@.wf(),
            r@.num_players == num_players,
            r@.input_size == input_size,
            r@.head == 0,
            forall|i: int|
                0 <= i < SAVED_STATES_LENGTH ==> (#[trigger] r@.states[i]).frame == NULL_FRAME
                    && r@.states[i].buffer@.len() == 0 && r@.states[i].checksum is None,
            !r@.rolling_back,
            r@.last_confirmed_frame == NULL_FRAME,
            r@.current_frame == 0,
            forall|i: int|
                0 <= i < num_players ==> (#[trigger] r@.queues[i]).clean() && r@.queues[i].length
                    == 0 && r@.queues[i].frame_delay == 0,
    {
        let mut input_queues: Vec<InputQueue> = Vec::new();
        let mut i: u32 = 0;
        while i < num_players
            invariant
                input_size <= MAX_INPUT_BYTES,
                i <= num_players,
                input_queues@.len() == i,
                forall|j: int|
                    0 <= j < i ==> {
                        let q = (#[trigger] input_queues@[j])@;
                        &&& q.clean() && q.wf() && q.length == 0 && q.frame_delay == 0
                        &&& q.prediction.size == input_size && q.id == j
                    },
            decreases num_players - i,
        {
            input_queues.push(InputQueue::new(i as PlayerHandle, input_size));
            i = i + 1;
        }
        let mut states: Vec<GameState> = Vec::new();
        let mut k: usize = 0;
        while k < SAVED_STATES_LENGTH
            invariant
                k <= SAVED_STATES_LENGTH,
                states@.len() == k,
                forall|j: int|
                    0 <= j < k ==> (#[trigger] states@[j]).frame == NULL_FRAME
                        && states@[j].buffer@.len() == 0 && states@[j].checksum is None,
            decreases SAVED_STATES_LENGTH - k,
        {
            states.push(GameState::new());
            k = k + 1;
        }
        let r = SyncLayer {
            num_players,
            input_size,
            rolling_back: false,
            last_confirmed_frame: NULL_FRAME,
            current_frame: 0,
            saved_states: SavedStates { head: 0, states },
            input_queues,
        };
        assert forall|j: int| 0 <= j < r@.queues.len() implies {
            let q = #[trigger] r@.queues[j];
            &&& q.wf() && q.prediction.size == input_size && q.id == j
            &&& q.clean() && q.length == 0 && q.frame_delay == 0
        } by {
            assert(r@.queues[j] == input_queues@[j]@);
        }
        r
    }

    /// The current frame.
    pub fn get_current_frame(&self) -> (r: FrameNumber)
        ensures
            r == self@.current_frame,
    {
        self.current_frame
    }

    /// Moves to the next frame.
    pub fn advance_frame(&mut self)
        requires
            old(self)@.current_frame < i32::MAX,
        ensures
            final(self)@ == (SyncLayerView {
                current_frame: (old(self)@.current_frame + 1) as i32,
                ..old(self)@
            }),
    {
        self.current_frame = self.current_frame + 1;
    }

    /// Asks the game to save its state and keeps it as the newest state of the ring (see
    /// `save_state`, which says what happens for each state the game gives). A state that
    /// belongs to no frame is refused with `GeneralFailure` and nothing changes.
    pub fn save_current_state<I: GGEZInterface>(&mut self, interface: &I) -> (r: Result<
        (),
        GGEZError,
    >)
        requires
            old(self)@.wf(),
        ensures
            final(self)@.wf(),
            r is Err ==> final(self)@ == old(self)@,
            r is Ok ==> ({
                let h = (old(self)@.head + 1) % (SAVED_STATES_LENGTH as int);
                &&& final(self)@ == (SyncLayerView {
                    head: h,
                    states: old(self)@.states.update(h, final(self)@.states[h]),
                    ..old(self)@
                })
                &&& final(self)@.states[h].frame != NULL_FRAME
            }),
    {
        let state_to_save = interface.save_game_state();
        self.save_state(state_to_save)
    }

    /// Keeps `state_to_save` as the newest state of the ring: it goes into the slot after the
    /// head, which becomes the new head. A state that belongs to no frame is refused with
    /// `GeneralFailure` and nothing changes.
    pub fn save_state(&mut self, state_to_save: GameState) -> (r: Result<(), GGEZError>)
        requires
            old(self)@.wf(),
        ensures
            final(self)@.wf(),
            state_to_save.frame == NULL_FRAME ==> (r matches Err(e) && e is GeneralFailure)
                && final(self)@ == old(self)@,
            state_to_save.frame != NULL_FRAME ==> r is Ok && final(self)@ == (SyncLayerView {
                head: (old(self)@.head + 1) % (SAVED_STATES_LENGTH as int),
                states: old(self)@.states.update(
                    (old(self)@.head + 1) % (SAVED_STATES_LENGTH as int),
                    state_to_save,
                ),
                ..old(self)@
            }),
    {
        if state_to_save.frame == NULL_FRAME {
            return Err(GGEZError::GeneralFailure("a saved state must belong to a frame".to_owned()));
        }
        let head = (self.saved_states.head + 1) % SAVED_STATES_LENGTH;
        self.saved_states.head = head;
        self.saved_states.states.set(head, state_to_save);
        Ok(())
    }

    /// The newest saved state, or `None` while it belongs to no frame.
    pub fn get_last_saved_state(&self) -> (r: Option<&GameState>)
        requires
            self@.wf(),
        ensures
            r == (if self@.states[self@.head].frame == NULL_FRAME {
                None
            } else {
                Some(&self@.states[self@.head])
            }),
    {
        let state = &self.saved_states.states[self.saved_states.head];
        if state.frame == NULL_FRAME {
            None
        } else {
            Some(state)
        }
    }

    /// Sets the input delay of a player: `InvalidPlayerHandle` for a handle of no player,
    /// `InvalidRequest` for a delay above `MAX_INPUT_DELAY`.
    pub fn set_frame_delay(&mut self, player_handle: PlayerHandle, delay: u32) -> (r: Result<
        (),
        GGEZError,
    >)
        requires
            old(self)@.wf(),
        ensures
            final(self)@.wf(),
            player_handle >= old(self)@.num_players ==> (r matches Err(GGEZError::InvalidPlayerHandle))
                && final(self)@ == old(self)@,
            player_handle < old(self)@.num_players && delay > MAX_INPUT_DELAY ==> (r matches Err(GGEZError::InvalidRequest))
                && final(self)@ == old(self)@,
            player_handle < old(self)@.num_players && delay <= MAX_INPUT_DELAY ==> r is Ok
                && final(self)@ == old(self)@.with_queues(
                old(self)@.queues.update(
                    player_handle as int,
                    InputQueueView {
                        frame_delay: delay,
                        ..old(self)@.queues[player_handle as int]
                    },
                ),
            ),
    {
        if player_handle >= self.num_players as PlayerHandle {
            return Err(GGEZError::InvalidPlayerHandle);
        }
        if delay > MAX_INPUT_DELAY {
            return Err(GGEZError::InvalidRequest);
        }
        self.input_queues[player_handle].set_frame_delay(delay);
        proof {
            assert(self@.queues =~= old(self)@.queues.update(
                player_handle as int,
                InputQueueView { frame_delay: delay, ..old(self)@.queues[player_handle as int] },
            ));
        }
        Ok(())
    }

    /// The first ring slot holding the state saved for `frame`; `GeneralFailure` if there is
    /// none.
    fn find_saved_frame_index(&self, frame: FrameNumber) -> (r: Result<usize, GGEZError>)
        requires
            self@.wf(),
        ensures
            r is Ok <==> self@.has_saved(frame),
            r matches Ok(i) ==> i == self@.saved_index(frame),
            r matches Err(e) ==> e is GeneralFailure,
    {
        let mut i: usize = 0;
        while i < SAVED_STATES_LENGTH
            invariant
                self@.wf(),
                i <= SAVED_STATES_LENGTH,
                forall|j: int| 0 <= j < i ==> (#[trigger] self@.states[j]).frame != frame,
            decreases SAVED_STATES_LENGTH - i,
        {
            if self.saved_states.states[i].frame == frame {
                proof {
                    let k = self@.saved_index(frame);
                    assert(self@.states[i as int].frame == frame);
                    assert(0 <= k < SAVED_STATES_LENGTH && self@.states[k].frame == frame
                        && forall|j: int| 0 <= j < k ==> (#[trigger] self@.states[j]).frame
                        != frame);
                    if k > i {
                        assert(self@.states[i as int].frame != frame);
                    }
                }
                return Ok(i);
            }
            i = i + 1;
        }
        Err(GGEZError::GeneralFailure("the requested state could not be found".to_owned()))
    }

    /// Rolls the game back to `frame_to_load`: the ring head moves to the state saved for it,
    /// which is handed to the game. `InvalidRequest` for a frame that cannot be in the ring
    /// (see `load_refused`), `GeneralFailure` when it is not there.
    pub fn load_frame<I: GGEZInterface>(&mut self, interface: &mut I, frame_to_load: FrameNumber) -> (r:
        Result<(), GGEZError>)
        requires
            old(self)@.wf(),
        ensures
            final(self)@.wf(),
            old(self)@.load_refused(frame_to_load) ==> (r matches Err(GGEZError::InvalidRequest))
                && final(self)@ == old(self)@,
            !old(self)@.load_refused(frame_to_load) && !old(self)@.has_saved(frame_to_load) ==> (
            r matches Err(e) && e is GeneralFailure) && final(self)@ == old(self)@,
            !old(self)@.load_refused(frame_to_load) && old(self)@.has_saved(frame_to_load) ==> r is Ok
                && final(self)@ == (SyncLayerView {
                head: old(self)@.saved_index(frame_to_load),
                ..old(self)@
            }),
            I::keeps_calls() && r is Ok ==> final(interface).calls() == old(interface).calls().push(
                GGEZCall::Load(old(self)@.states[old(self)@.saved_index(frame_to_load)]),
            ),
            I::keeps_calls() && r is Err ==> final(interface).calls() == old(interface).calls(),
    {
        let oldest: i64 = self.current_frame as i64 - MAX_PREDICTION_FRAMES as i64;
        if self.current_frame == frame_to_load || frame_to_load == NULL_FRAME || frame_to_load
            > self.current_frame || (frame_to_load as i64) < oldest {
            return Err(GGEZError::InvalidRequest);
        }
        let index = match self.find_saved_frame_index(frame_to_load) {
            Ok(i) => i,
            Err(e) => {
                return Err(e);
            },
        };
        self.saved_states.head = index;
        interface.load_game_state(&self.saved_states.states[index]);
        Ok(())
    }

    /// Whether `add_local_input(player_handle, input)` / `add_remote_input` can store the input
    /// in the player's queue.
    pub fn accepts_input(&self, player_handle: PlayerHandle, input: &GameInput) -> (r: bool)
        requires
            self@.wf(),
            player_handle < self@.num_players,
        ensures
            r == self@.queues[player_handle as int].add_input_ok(*input),
    {
        proof {
            assert(self@.queues[player_handle as int] == self.input_queues@[player_handle as int]@);
        }
        self.input_queues[player_handle].accepts(input)
    }

    /// Adds a local input for the current frame: `PredictionThreshold` once the current frame
    /// is `MAX_PREDICTION_FRAMES` frames past the last confirmed one, `GeneralFailure` for an
    /// input of another frame.
    pub fn add_local_input(&mut self, player_handle: PlayerHandle, input: &GameInput) -> (r:
        Result<(), GGEZError>)
        requires
            old(self)@.wf(),
            player_handle < old(self)@.num_players,
            !old(self)@.prediction_threshold_reached() && input.frame == old(self)@.current_frame
                ==> old(self)@.queues[player_handle as int].add_input_ok(*input),
        ensures
            final(self)@.wf(),
            old(self)@.prediction_threshold_reached() ==> (r matches Err(GGEZError::PredictionThreshold))
                && final(self)@ == old(self)@,
            !old(self)@.prediction_threshold_reached() && input.frame != old(self)@.current_frame
                ==> (r matches Err(e) && e is GeneralFailure) && final(self)@ == old(self)@,
            !old(self)@.prediction_threshold_reached() && input.frame == old(self)@.current_frame
                ==> r is Ok && final(self)@ == old(self)@.with_queues(
                old(self)@.queues.update(
                    player_handle as int,
                    old(self)@.queues[player_handle as int].after_add(*input),
                ),
            ),
    {
        let frames_behind: i64 = self.current_frame as i64 - self.last_confirmed_frame as i64;
        if frames_behind >= MAX_PREDICTION_FRAMES as i64 {
            return Err(GGEZError::PredictionThreshold);
        }
        if input.frame != self.current_frame {
            return Err(
                GGEZError::GeneralFailure("the input does not belong to the current frame".to_owned()),
            );
        }
        self.add_remote_input(player_handle, input)
    }

    /// Adds an input received from a remote player.
    pub fn add_remote_input(&mut self, player_handle: PlayerHandle, input: &GameInput) -> (r:
        Result<(), GGEZError>)
        requires
            old(self)@.wf(),
            player_handle < old(self)@.num_players,
            old(self)@.queues[player_handle as int].add_input_ok(*input),
        ensures
            r is Ok,
            final(self)@.wf(),
            final(self)@ == old(self)@.with_queues(
                old(self)@.queues.update(
                    player_handle as int,
                    old(self)@.queues[player_handle as int].after_add(*input),
                ),
            ),
    {
        let ghost q0 = old(self)@.queues[player_handle as int];
        proof {
            assert(q0 == self.input_queues@[player_handle as int]@);
        }
        self.input_queues[player_handle].add_input(input);
        proof {
            crate::ggez::input_queue::lemma_added_keeps_shape(q0, *input);
            assert(q0.after_add(*input).id == q0.id);
            assert(q0.after_add(*input).prediction.size == q0.prediction.size);
            assert(self@.queues =~= old(self)@.queues.update(
                player_handle as int,
                q0.after_add(*input),
            ));
        }
        Ok(())
    }
}

} // verus!
