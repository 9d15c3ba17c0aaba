//! A session that checks a game for determinism: every frame it rolls back `check_distance`
//! frames, resimulates them, and compares the checksums of the resimulated states with the
//! ones saved the first time.
use vstd::prelude::*;

use super::error::GGRSError;
use super::frame_info::{FrameInfo, GameInput, GameState};
use super::sync_layer::{ring_back, SavedStates, SyncLayer, SyncLayerView};
use super::{FrameNumber, GameCall, GGRSInterface, MAX_INPUT_DELAY, MAX_PLAYERS, MAX_PREDICTION_FRAMES};
use crate::input_queue::InputQueueView;
use crate::{PlayerHandle, PlayerType, MAX_INPUT_BYTES, NULL_FRAME};

verus! {

broadcast use vstd::array::axiom_array_ext_equal;

/// The abstract state of a [`SyncTestSession`].
pub struct SyncTestView {
    pub current_frame: FrameNumber,
    pub num_players: u32,
    pub input_size: usize,
    pub check_distance: u32,
    pub running: bool,
    pub current_input: GameInput,
    pub saved: Seq<FrameInfo>,
    pub saved_head: int,
    pub layer: SyncLayerView,
}

impl SyncTestView {
    /// The session's parts agree on the number of players and the input size, the ring of
    /// frame infos has its fixed size, and the bytes of the pending local input past the input
    /// size are zero.
    pub open spec fn wf(self) -> bool {
        &&& self.layer.wf()
        &&& self.layer.num_players == self.num_players
        &&& self.layer.input_size == self.input_size
        &&& self.input_size <= MAX_INPUT_BYTES
        &&& self.check_distance <= MAX_PREDICTION_FRAMES
        &&& self.current_input.size == self.input_size
        &&& forall|k: int| self.input_size <= k < 8 ==> self.current_input.buffer[k] == 0
        &&& self.saved.len() == MAX_PREDICTION_FRAMES
        &&& 0 <= self.saved_head < MAX_PREDICTION_FRAMES
    }

    /// The pending local input after `add_local_input(_, bytes)` copied `bytes` into it: its
    /// first bytes replaced, moved to the current frame.
    pub open spec fn filled_input(self, bytes: Seq<u8>, input: GameInput) -> bool {
        &&& input.frame == self.current_frame
        &&& input.size == self.input_size
        &&& input.buffer@ == bytes + self.current_input.buffer@.subrange(self.input_size as int, 8)
    }

    /// The local inputs `add_local_input(player_handle, bytes)` can take: not the handle just
    /// past the players, the right number of bytes, a sync layer at the session's frame, and an
    /// input the player's queue can store (unless the prediction threshold refuses it first).
    pub open spec fn local_input_ok(self, player_handle: PlayerHandle, bytes: Seq<u8>) -> bool {
        &&& player_handle != self.num_players
        &&& player_handle < self.num_players && self.running ==> bytes.len() == self.input_size
            && self.layer.current_frame == self.current_frame
        &&& player_handle < self.num_players && self.running
            && !self.layer.prediction_threshold_reached() ==> self.layer.queues[player_handle as int].add_input_ok(
            crate::input_queue::with_frame(self.current_input, self.current_frame),
        )
    }
}

/// What comparing the state `resim` resimulated for `frame` with the frame info `saved` kept
/// when the frame was first executed gives: `GeneralFailure` when the info belongs to another
/// frame, `MismatchedChecksum` when both states carry a checksum and the checksums differ, and
/// success otherwise.
pub open spec fn resim_verdict(saved: FrameInfo, resim: GameState, frame: FrameNumber) -> Result<
    (),
    GGRSError,
> {
    if saved.frame != frame {
        Err(GGRSError::GeneralFailure)
    } else if resim.checksum is Some && saved.state.checksum is Some && resim.checksum
        != saved.state.checksum {
        Err(GGRSError::MismatchedChecksum)
    } else {
        Ok(())
    }
}

/// Compares the state `resim` resimulated for `frame` with the frame info `saved` kept when
/// the frame was first executed (see `resim_verdict`).
pub fn check_resimulated(saved: &FrameInfo, resim: &GameState, frame: FrameNumber) -> (r: Result<
    (),
    GGRSError,
>)
    ensures
        r == resim_verdict(*saved, *resim, frame),
{
    if saved.frame != frame {
        return Err(GGRSError::GeneralFailure);
    }
    match (resim.checksum, saved.state.checksum) {
        (Some(cs1), Some(cs2)) => {
            if cs1 != cs2 {
                return Err(GGRSError::MismatchedChecksum);
            }
        },
        _ => {},
    }
    Ok(())
}

/// During a sync test the session simulates a rollback every frame and resimulates the last
/// `check_distance` frames; checksums provided with the saved states are compared with the
/// checksums of the resimulated ones.
pub struct SyncTestSession {
    current_frame: FrameNumber,
    num_players: u32,
    input_size: usize,
    check_distance: u32,
    running: bool,
    current_input: GameInput,
    saved_states: SavedStates<FrameInfo>,
    sync_layer: SyncLayer,
}

impl View for SyncTestSession {
    type V = SyncTestView;

    closed spec fn view(&self) -> SyncTestView {
        SyncTestView {
            current_frame: self.current_frame,
            num_players: self.num_players,
            input_size: self.input_size,
            check_distance: self.check_distance,
            running: self.running,
            current_input: self.current_input,
            saved: self.saved_states.states@,
            saved_head: self.saved_states.head as int,
            layer: self.sync_layer@,
        }
    }
}

/// Creates a sync test session for `num_players` players with inputs of `input_size` bytes
/// that resimulates the last `check_distance` frames. `InvalidRequest` when any of the three
/// exceeds its maximum (`MAX_PLAYERS`, `MAX_INPUT_BYTES`, `MAX_PREDICTION_FRAMES`).
pub fn start_synctest_session(num_players: u32, input_size: usize, check_distance: u32) -> (r:
    Result<SyncTestSession, GGRSError>)
    ensures
        (num_players > MAX_PLAYERS || input_size > MAX_INPUT_BYTES || check_distance
            > MAX_PREDICTION_FRAMES) <==> r == Err::<SyncTestSession, GGRSError>(
            GGRSError::InvalidRequest,
        ),
        r matches Ok(s) ==> s@.wf() && s@.num_players == num_players && s@.input_size
            == input_size && s@.check_distance == check_distance && !s@.running
            && s@.current_frame == NULL_FRAME,
{
    if num_players > MAX_PLAYERS {
        return Err(GGRSError::InvalidRequest);
    }
    if input_size > MAX_INPUT_BYTES {
        return Err(GGRSError::InvalidRequest);
    }
    if check_distance > MAX_PREDICTION_FRAMES {
        return Err(GGRSError::InvalidRequest);
    }
    Ok(SyncTestSession::new(num_players, input_size, check_distance))
}

impl SyncTestSession {
    /// A session that is not running yet: no current frame, a blank pending input and a fresh
    /// sync layer.
    pub fn new(num_players: u32, input_size: usize, check_distance: u32) -> (r: Self)
        requires
            input_size <= MAX_INPUT_BYTES,
            check_distance <= MAX_PREDICTION_FRAMES,
        ensures
            r@.wf(),
            r@.num_players == num_players,
            r@.input_size == input_size,
            r@.check_distance == check_distance,
            !r@.running,
            r@.current_frame == NULL_FRAME,
            r@.current_input.frame == NULL_FRAME,
            r@.layer.current_frame == 0,
            r@.layer.last_confirmed_frame == NULL_FRAME,
            forall|i: int|
                0 <= i < num_players ==> (#[trigger] r@.layer.queues[i]).is_new(
                    i as PlayerHandle,
                    input_size,
                ),
    {
        let mut states: Vec<FrameInfo> = Vec::new();
        let mut k: usize = 0;
        while k < MAX_PREDICTION_FRAMES as usize
            invariant
                k <= MAX_PREDICTION_FRAMES,
                states@.len() == k,
            decreases MAX_PREDICTION_FRAMES - k,
        {
            states.push(
                FrameInfo {
                    frame: NULL_FRAME,
                    state: GameState::new(),
                    input: super::frame_info::blank_input(),
                },
            );
            k = k + 1;
        }
        SyncTestSession {
            current_frame: NULL_FRAME,
            num_players,
            input_size,
            check_distance,
            running: false,
            current_input: GameInput::new(NULL_FRAME, None, input_size),
            saved_states: SavedStates { head: 0, states },
            sync_layer: SyncLayer::new(num_players, input_size),
        }
    }

    /// The current frame (`NULL_FRAME` before the session is started).
    pub fn current_frame(&self) -> (r: FrameNumber)
        ensures
            r == self@.current_frame,
    {
        self.current_frame
    }

    /// Checks a player to be added: `InvalidHandle` for a handle of no player, `InvalidRequest`
    /// for anything but a local player (a sync test has no remote players).
    pub fn add_player<A>(&mut self, player_type: PlayerType<A>, player_handle: PlayerHandle) -> (r:
        Result<(), GGRSError>)
        ensures
            *final(self) == *old(self),
            player_handle >= old(self)@.num_players ==> r == Err::<(), GGRSError>(
                GGRSError::InvalidHandle,
            ),
            player_handle < old(self)@.num_players && !(player_type is Local) ==> r == Err::<
                (),
                GGRSError,
            >(GGRSError::InvalidRequest),
            player_handle < old(self)@.num_players && player_type is Local ==> r is Ok,
    {
        if player_handle >= self.num_players as PlayerHandle {
            return Err(GGRSError::InvalidHandle);
        }
        match player_type {
            PlayerType::Local => Ok(()),
            _ => Err(GGRSError::InvalidRequest),
        }
    }

    /// Starts the session at frame 0; `InvalidRequest` if it is already running.
    pub fn start_session(&mut self) -> (r: Result<(), GGRSError>)
        ensures
            old(self)@.running ==> r == Err::<(), GGRSError>(GGRSError::InvalidRequest)
                && final(self)@ == old(self)@,
            !old(self)@.running ==> r is Ok && final(self)@ == (SyncTestView {
                running: true,
                current_frame: 0,
                ..old(self)@
            }),
    {
        if self.running {
            return Err(GGRSError::InvalidRequest);
        }
        self.running = true;
        self.current_frame = 0;
        Ok(())
    }

    /// Whether `add_local_input(player_handle, input)` meets its `requires`.
    pub fn accepts_local_input(&self, player_handle: PlayerHandle, input: &[u8]) -> (r: bool)
        requires
            self@.wf(),
        ensures
            r == self@.local_input_ok(player_handle, input@),
    {
        if player_handle == self.num_players as PlayerHandle {
            return false;
        }
        if player_handle > self.num_players as PlayerHandle || !self.running {
            return true;
        }
        if input.len() != self.input_size || self.sync_layer.current_frame() != self.current_frame {
            return false;
        }
        let frames_behind: i64 = self.sync_layer.current_frame() as i64
            - self.sync_layer.last_confirmed_frame() as i64;
        if frames_behind > MAX_PREDICTION_FRAMES as i64 {
            return true;
        }
        let mut candidate = self.current_input;
        candidate.copy_input(input);
        candidate.frame = self.current_frame;
        proof {
            let w = crate::input_queue::with_frame(self.current_input, self.current_frame);
            assert(self@.layer.queues[player_handle as int].add_input_ok(candidate)
                == self@.layer.queues[player_handle as int].add_input_ok(w));
        }
        self.sync_layer.accepts_input(player_handle, &candidate)
    }

    /// Hands over the input bytes of a local player for the current frame. `InvalidHandle` for
    /// a handle past the players, `NotSynchronized` before the session is started,
    /// `PredictionThreshold` when the sync layer refuses more local inputs.
    pub fn add_local_input(&mut self, player_handle: PlayerHandle, input: &[u8]) -> (r: Result<
        (),
        GGRSError,
    >)
        requires
            old(self)@.wf(),
            old(self)@.local_input_ok(player_handle, input@),
        ensures
            final(self)@.wf(),
            player_handle > old(self)@.num_players ==> r == Err::<(), GGRSError>(
                GGRSError::InvalidHandle,
            ) && final(self)@ == old(self)@,
            player_handle < old(self)@.num_players && !old(self)@.running ==> r == Err::<
                (),
                GGRSError,
            >(GGRSError::NotSynchronized) && final(self)@ == old(self)@,
            player_handle < old(self)@.num_players && old(self)@.running ==> old(self)@.filled_input(
                input@,
                final(self)@.current_input,
            ),
            player_handle < old(self)@.num_players && old(self)@.running
                && old(self)@.layer.prediction_threshold_reached() ==> r == Err::<(), GGRSError>(
                GGRSError::PredictionThreshold,
            ) && final(self)@ == (SyncTestView {
                current_input: final(self)@.current_input,
                ..old(self)@
            }),
            player_handle < old(self)@.num_players && old(self)@.running
                && !old(self)@.layer.prediction_threshold_reached() ==> r is Ok && final(self)@ == (
            SyncTestView {
                current_input: final(self)@.current_input,
                layer: old(self)@.layer.with_queues(
                    old(self)@.layer.queues.update(
                        player_handle as int,
                        old(self)@.layer.queues[player_handle as int].after_add(
                            final(self)@.current_input,
                        ),
                    ),
                ),
                ..old(self)@
            }),
    {
        if player_handle > self.num_players as PlayerHandle {
            return Err(GGRSError::InvalidHandle);
        }
        if !self.running {
            return Err(GGRSError::NotSynchronized);
        }
        self.current_input.copy_input(input);
        self.current_input.frame = self.current_frame;
        proof {
            assert(self.current_input.buffer@ =~= input@ + old(self).current_input.buffer@.subrange(
                old(self).input_size as int,
                8,
            ));
            let w = crate::input_queue::with_frame(old(self).current_input, old(self).current_frame);
            assert(old(self)@.layer.queues[player_handle as int].add_input_ok(self.current_input)
                == old(self)@.layer.queues[player_handle as int].add_input_ok(w));
        }
        match self.sync_layer.add_local_input(player_handle, self.current_input) {
            Ok(_) => Ok(()),
            Err(e) => Err(e),
        }
    }

    /// Changes the input delay of a player; `InvalidHandle` for a handle past the players.
    pub fn set_frame_delay(&mut self, frame_delay: u32, player_handle: PlayerHandle) -> (r: Result<
        (),
        GGRSError,
    >)
        requires
            old(self)@.wf(),
            player_handle != old(self)@.num_players,
            player_handle < old(self)@.num_players ==> frame_delay <= MAX_INPUT_DELAY,
        ensures
            final(self)@.wf(),
            player_handle > old(self)@.num_players ==> r == Err::<(), GGRSError>(
                GGRSError::InvalidHandle,
            ) && final(self)@ == old(self)@,
            player_handle < old(self)@.num_players ==> r is Ok && final(self)@ == (SyncTestView {
                layer: old(self)@.layer.with_queues(
                    old(self)@.layer.queues.update(
                        player_handle as int,
                        InputQueueView {
                            frame_delay,
                            ..old(self)@.layer.queues[player_handle as int]
                        },
                    ),
                ),
                ..old(self)@
            }),
    {
        if player_handle > self.num_players as PlayerHandle {
            return Err(GGRSError::InvalidHandle);
        }
        self.sync_layer.set_frame_delay(player_handle, frame_delay);
        Ok(())
    }

    /// The first part of a frame, after the game saved its state `state`: the state is kept
    /// as the newest of the layer's ring and, with the pending local input, as the frame info of
    /// the current frame; then, where the queues serve the current frame, the inputs of all
    /// players for it are returned, the layer and the session move to the next frame and the
    /// pending input is cleared. `GeneralFailure` when the layer is at another frame or the
    /// state belongs to no frame (nothing changes then), and where the queues cannot serve the
    /// frame (the state is kept).
    pub fn advance_with(&mut self, state: GameState) -> (r: Result<Vec<GameInput>, GGRSError>)
        requires
            old(self)@.wf(),
            0 <= old(self)@.current_frame < i32::MAX,
        ensures
            final(self)@.wf(),
            old(self)@.layer.current_frame != old(self)@.current_frame || state.frame == NULL_FRAME
                ==> r == Err::<Vec<GameInput>, GGRSError>(GGRSError::GeneralFailure) && final(self)@
                == old(self)@,
            old(self)@.layer.current_frame == old(self)@.current_frame && state.frame != NULL_FRAME
                ==> ({
                let h = (old(self)@.saved_head + 1) % (MAX_PREDICTION_FRAMES as int);
                let info = final(self)@.saved[h];
                &&& final(self)@.saved_head == h
                &&& final(self)@.saved == old(self)@.saved.update(h, info)
                &&& info.frame == old(self)@.current_frame
                &&& info.input == old(self)@.current_input
                &&& info.state.frame == state.frame
                &&& info.state.checksum == state.checksum
                &&& info.state.buffer@ == state.buffer@
                &&& final(self)@.num_players == old(self)@.num_players
                &&& final(self)@.input_size == old(self)@.input_size
                &&& final(self)@.check_distance == old(self)@.check_distance
                &&& final(self)@.running == old(self)@.running
                &&& !old(self)@.layer.serves_all(old(self)@.current_frame) ==> r == Err::<
                    Vec<GameInput>,
                    GGRSError,
                >(GGRSError::GeneralFailure) && final(self)@.layer == old(self)@.layer.state_saved(state)
                    && final(self)@.current_frame == old(self)@.current_frame
                    && final(self)@.current_input == old(self)@.current_input
                &&& old(self)@.layer.serves_all(old(self)@.current_frame) ==> (r matches Ok(inputs)
                    && inputs@ == old(self)@.layer.current_inputs())
                    && final(self)@.layer == old(self)@.layer.state_saved(state).frame_advanced()
                    && final(self)@.current_frame == old(self)@.current_frame + 1
                    && final(self)@.current_input.frame == old(self)@.current_input.frame
                    && final(self)@.current_input.size == old(self)@.current_input.size
                    && forall|i: int| 0 <= i < 8 ==> final(self)@.current_input.buffer[i] == 0
            }),
    {
        if self.sync_layer.current_frame() != self.current_frame || state.frame == NULL_FRAME {
            return Err(GGRSError::GeneralFailure);
        }
        let ghost l0 = self@.layer;
        self.sync_layer.save_current_state(state);
        // keep a copy with the input, to compare against later
        let saved = match self.sync_layer.last_saved_state() {
            Some(s) => s.copied(),
            None => {
                proof {
                    assert(false);
                }
                return Err(GGRSError::GeneralFailure);
            },
        };
        self.saved_states.save_state(
            FrameInfo { frame: self.current_frame, state: saved, input: self.current_input },
        );
        // the inputs of all players for this frame
        if !self.sync_layer.serves_all(self.current_frame) {
            return Err(GGRSError::GeneralFailure);
        }
        let ghost l1 = self@.layer;
        let sync_inputs = self.sync_layer.synchronized_inputs();
        proof {
            assert forall|i: int| 0 <= i < l1.queues.len() implies #[trigger] self@.layer.queues[i]
                == l1.frame_advanced().queues[i] && sync_inputs@[i] == l0.current_inputs()[i] by {
                assert(sync_inputs@[i] == l1.queues[i].input_value(l1.current_frame as int));
            }
            assert(sync_inputs@ =~= l0.current_inputs());
            assert(self@.layer.queues =~= l1.frame_advanced().queues);
        }
        self.sync_layer.advance_frame();
        proof {
            assert(self@.layer == l1.frame_advanced());
        }
        self.current_frame = self.current_frame + 1;
        // the pending input has been used
        self.current_input.erase_bits();
        Ok(sync_inputs)
    }

    /// Advances the game by one frame, then rolls back `check_distance` frames, resimulates
    /// them and compares the checksums of the resimulated states with the saved ones
    /// (`MismatchedChecksum` on a difference). States and inputs come from `interface`; where
    /// they break the session's bookkeeping (a state for no frame or for the wrong frame, a
    /// state to roll back to that was never saved, inputs the queues cannot serve), the
    /// result is `GeneralFailure`.
    /// A game that keeps a record of its calls sees one advance, then, once a rollback is due,
    /// the load of the state saved `check_distance` frames back and `check_distance` advances.
    pub fn advance_frame<I: GGRSInterface>(&mut self, interface: &mut I) -> (r: Result<
        (),
        GGRSError,
    >)
        requires
            old(self)@.wf(),
            old(self)@.running,
            old(self)@.check_distance > 0,
            0 <= old(self)@.current_frame < i32::MAX,
        ensures
            final(self)@.wf(),
            final(self)@.running,
            final(self)@.num_players == old(self)@.num_players,
            final(self)@.input_size == old(self)@.input_size,
            final(self)@.check_distance == old(self)@.check_distance,
            r is Ok ==> final(self)@.current_frame == old(self)@.current_frame + 1
                && final(self)@.layer.current_frame == final(self)@.current_frame,
            r is Ok && final(self)@.current_frame > old(self)@.check_distance
                ==> final(self)@.layer.last_confirmed_frame == final(self)@.current_frame
                - old(self)@.check_distance,
            r is Ok && final(self)@.current_frame <= old(self)@.check_distance
                ==> final(self)@.layer.last_confirmed_frame == old(self)@.layer.last_confirmed_frame,
            r is Err ==> r == Err::<(), GGRSError>(GGRSError::GeneralFailure) || r == Err::<
                (),
                GGRSError,
            >(GGRSError::MismatchedChecksum),
            final(self)@.current_frame == old(self)@.current_frame || final(self)@.current_frame
                == old(self)@.current_frame + 1,
            old(self)@.layer.current_frame != old(self)@.current_frame ==> r == Err::<
                (),
                GGRSError,
            >(GGRSError::GeneralFailure) && final(self)@ == old(self)@,
            old(self)@.layer.current_frame == old(self)@.current_frame && !old(
                self,
            )@.layer.serves_all(old(self)@.current_frame) ==> r == Err::<(), GGRSError>(
                GGRSError::GeneralFailure,
            ),
            r == Err::<(), GGRSError>(GGRSError::MismatchedChecksum) ==> exists|k: int|
                0 <= k < MAX_PREDICTION_FRAMES && resim_verdict(
                    #[trigger] final(self)@.saved[k],
                    final(self)@.layer.states[final(self)@.layer.head],
                    final(self)@.layer.current_frame,
                ) == Err::<(), GGRSError>(GGRSError::MismatchedChecksum),
            I::keeps_calls() && r is Ok ==> ({
                let c0 = old(interface).calls();
                let c = final(interface).calls();
                &&& c.len() > c0.len()
                &&& c.subrange(0, c0.len() as int) == c0
                &&& c[c0.len() as int] == GameCall::Advance(old(self)@.layer.current_inputs())
                &&& final(self)@.current_frame <= old(self)@.check_distance ==> c.len() == c0.len()
                    + 1
                &&& final(self)@.current_frame > old(self)@.check_distance ==> {
                    &&& c.len() == c0.len() + 2 + old(self)@.check_distance
                    &&& c[c0.len() as int + 1] matches GameCall::Load(s) && s.frame
                        == final(self)@.current_frame - old(self)@.check_distance
                    &&& forall|j: int|
                        0 <= j < old(self)@.check_distance ==> #[trigger] c[c0.len() + 2 + j] is Advance
                }
            }),
    {
        if self.sync_layer.current_frame() != self.current_frame {
            return Err(GGRSError::GeneralFailure);
        }
        // save the current frame and advance with the inputs of all players for it
        let state = interface.save_game_state();
        let sync_inputs = match self.advance_with(state) {
            Ok(inputs) => inputs,
            Err(e) => {
                return Err(e);
            },
        };
        interface.advance_frame(sync_inputs);
        let ghost advanced_calls = interface.calls();
        proof {
            if I::keeps_calls() {
                assert(advanced_calls.subrange(0, old(interface).calls().len() as int)
                    =~= old(interface).calls());
            }
        }

        // roll back `check_distance` frames and resimulate them, once enough frames exist
        let distance: i32 = self.check_distance as i32;
        if self.current_frame > distance {
            let frame_to_load: FrameNumber = self.current_frame - distance;
            if self.sync_layer.find_saved_frame_index(frame_to_load).is_none() {
                return Err(GGRSError::GeneralFailure);
            }
            let loaded = self.sync_layer.load_frame(frame_to_load);
            interface.load_game_state(loaded);
            let ghost loaded_calls = interface.calls();
            proof {
                if I::keeps_calls() {
                    assert(loaded_calls.subrange(0, advanced_calls.len() as int) =~= advanced_calls);
                    assert(interface.calls().subrange(0, loaded_calls.len() as int) =~= loaded_calls);
                }
            }

            let mut i: u32 = self.check_distance;
            while i > 0
                invariant
                    self@.wf(),
                    self@.running,
                    self@.num_players == old(self)@.num_players,
                    self@.input_size == old(self)@.input_size,
                    self@.check_distance == old(self)@.check_distance,
                    self@.current_frame == old(self)@.current_frame + 1,
                    old(self)@.layer.current_frame == old(self)@.current_frame,
                    old(self)@.layer.serves_all(old(self)@.current_frame),
                    distance == self@.check_distance,
                    0 < distance <= MAX_PREDICTION_FRAMES,
                    frame_to_load == self@.current_frame - distance,
                    frame_to_load > 0,
                    i <= self@.check_distance,
                    self@.layer.current_frame == frame_to_load + (distance - i),
                    self@.current_frame <= i32::MAX,
                    I::keeps_calls() ==> advanced_calls.len() == old(interface).calls().len() + 1
                        && advanced_calls.subrange(0, old(interface).calls().len() as int)
                        == old(interface).calls() && advanced_calls[old(interface).calls().len() as int]
                        == GameCall::Advance(old(self)@.layer.current_inputs()),
                    I::keeps_calls() ==> loaded_calls.len() == advanced_calls.len() + 1
                        && loaded_calls.subrange(0, advanced_calls.len() as int) == advanced_calls
                        && (loaded_calls[advanced_calls.len() as int] matches GameCall::Load(s)
                        && s.frame == frame_to_load),
                    I::keeps_calls() ==> interface.calls().len() == loaded_calls.len() + (distance - i)
                        && interface.calls().subrange(0, loaded_calls.len() as int) == loaded_calls
                        && forall|j: int|
                        0 <= j < distance - i ==> #[trigger] interface.calls()[loaded_calls.len() + j] is Advance,
                decreases i,
            {
                i = i - 1;
                let state = interface.save_game_state();
                if state.frame == NULL_FRAME {
                    return Err(GGRSError::GeneralFailure);
                }
                self.sync_layer.save_current_state(state);

                // the frame info saved when this frame was first executed
                let old_frame_info = self.saved_states.state_in_past(i as usize);
                let expected_frame: FrameNumber = frame_to_load + (distance - 1 - i as i32);

                // compare the resimulated state with it
                let last_saved = match self.sync_layer.last_saved_state() {
                    Some(s) => s,
                    None => {
                        return Err(GGRSError::GeneralFailure);
                    },
                };
                match check_resimulated(old_frame_info, last_saved, expected_frame) {
                    Ok(()) => {},
                    Err(e) => {
                        proof {
                            assert(self@.saved[ring_back(self@.saved_head, i as int)]
                                == *old_frame_info);
                        }
                        return Err(e);
                    },
                }

                // resimulate the frame
                let frame = self.sync_layer.current_frame();
                if !self.sync_layer.serves_all(frame) {
                    return Err(GGRSError::GeneralFailure);
                }
                let sync_inputs = self.sync_layer.synchronized_inputs();
                self.sync_layer.advance_frame();
                let ghost calls_before = interface.calls();
                interface.advance_frame(sync_inputs);
                proof {
                    if I::keeps_calls() {
                        assert(interface.calls().subrange(0, loaded_calls.len() as int)
                            =~= calls_before.subrange(0, loaded_calls.len() as int));
                        assert forall|j: int| 0 <= j < distance - i implies #[trigger] interface.calls()[loaded_calls.len() + j] is Advance by {
                            if j < distance - i - 1 {
                                assert(interface.calls()[loaded_calls.len() + j] == calls_before[loaded_calls.len() + j]);
                            }
                        }
                    }
                }
            }

            proof {
                if I::keeps_calls() {
                    let c0 = old(interface).calls();
                    let c = interface.calls();
                    assert(c.subrange(0, c0.len() as int) =~= c0) by {
                        assert forall|k: int| 0 <= k < c0.len() implies c[k] == c0[k] by {
                            assert(c[k] == c.subrange(0, loaded_calls.len() as int)[k]);
                            assert(loaded_calls[k] == loaded_calls.subrange(0, advanced_calls.len() as int)[k]);
                            assert(advanced_calls[k] == advanced_calls.subrange(0, c0.len() as int)[k]);
                        }
                    }
                    assert(c[c0.len() as int] == loaded_calls.subrange(0, advanced_calls.len() as int)[c0.len() as int]);
                    assert(c[c0.len() as int + 1] == loaded_calls[advanced_calls.len() as int]);
                    assert forall|j: int| 0 <= j < distance implies #[trigger] c[c0.len() + 2 + j] is Advance by {
                        assert(c[loaded_calls.len() + j] is Advance);
                    }
                }
            }
            // we should have arrived back at the current frame
            let gs_compare = interface.save_game_state();
            if gs_compare.frame != self.current_frame {
                return Err(GGRSError::GeneralFailure);
            }

            // the inputs before the rolled back frames are no longer needed
            let confirmed = self.current_frame - distance;
            if !self.sync_layer.can_confirm(confirmed) {
                return Err(GGRSError::GeneralFailure);
            }
            self.sync_layer.set_last_confirmed_frame(confirmed);
        }
        Ok(())
    }
}

} // verus!
