use vstd::prelude::*;

use core::time::Duration;

use super::player_registry::PlayerRegistry;
use crate::error::GgrsError;
use crate::{PlayerHandle, PlayerType};

verus! {

broadcast use vstd::std_specs::hash::group_hash_axioms;

/// `Duration::from_millis` makes a duration of the given number of milliseconds. A `Duration`
/// is opaque here, so nothing is claimed about the result.
pub assume_specification[ core::time::Duration::from_millis ](millis: u64) -> Duration;

/// The number of players of a session unless set otherwise.
pub const DEFAULT_PLAYERS: usize = 2;

/// Sparse saving is off unless set otherwise.
pub const DEFAULT_SAVE_MODE: bool = false;

/// Local inputs are not delayed unless set otherwise.
pub const DEFAULT_INPUT_DELAY: usize = 0;

/// The milliseconds without packets after which a remote peer is disconnected, unless set
/// otherwise.
pub const DEFAULT_DISCONNECT_TIMEOUT_MS: u64 = 2000;

/// The milliseconds without packets after which the first interruption notification comes,
/// unless set otherwise.
pub const DEFAULT_DISCONNECT_NOTIFY_START_MS: u64 = 500;

/// The expected update frequency unless set otherwise.
pub const DEFAULT_FPS: usize = 60;

/// The maximum prediction window unless set otherwise.
pub const DEFAULT_MAX_PREDICTION_FRAMES: usize = 8;

/// The check distance of a sync test unless set otherwise.
pub const DEFAULT_CHECK_DISTANCE: usize = 2;

/// A spectator more than this many frames behind catches up, unless set otherwise.
pub const DEFAULT_MAX_FRAMES_BEHIND: usize = 10;

/// The frames a spectator advances per step while catching up, unless set otherwise.
pub const DEFAULT_CATCHUP_SPEED: usize = 1;

/// The number of frames of inputs a spectator buffers.
pub const SPECTATOR_BUFFER_SIZE: usize = 60;

/// The most events a session keeps for the user; older ones are dropped.
pub const MAX_EVENT_QUEUE_SIZE: usize = 100;

/// The abstract state of a [`SessionBuilder`].
pub struct BuilderView<A> {
    pub num_players: usize,
    pub local_players: usize,
    pub max_prediction: usize,
    pub fps: usize,
    pub sparse_saving: bool,
    pub disconnect_timeout: Duration,
    pub disconnect_notify_start: Duration,
    pub handles: Map<PlayerHandle, PlayerType<A>>,
    pub input_delay: usize,
    pub check_dist: usize,
    pub max_frames_behind: usize,
    pub catchup_speed: usize,
}

/// An `InvalidRequest` error whose information is `info`.
pub open spec fn invalid_request(e: GgrsError, info: Seq<char>) -> bool {
    e matches GgrsError::InvalidRequest { info: i } && i@ == info
}

impl<A> BuilderView<A> {
    /// Why `add_player(player_type, player_handle)` is refused, or `None` when it is taken.
    pub open spec fn add_player_refusal(self, player_type: PlayerType<A>, player_handle: PlayerHandle)
        -> Option<Seq<char>> {
        if self.handles.contains_key(player_handle) {
            Some("Player handle already in use."@)
        } else if player_type is Local && player_handle >= self.num_players {
            Some(
                "The player handle you provided is invalid. For a local player, the handle should be between 0 and num_players"@,
            )
        } else if player_type is Remote && player_handle >= self.num_players {
            Some(
                "The player handle you provided is invalid. For a remote player, the handle should be between 0 and num_players"@,
            )
        } else if player_type is Spectator && player_handle < self.num_players {
            Some(
                "The player handle you provided is invalid. For a spectator, the handle should be num_players or higher"@,
            )
        } else {
            None
        }
    }
}

/// A handle can be registered once: after a player is added under a handle, adding anyone
/// under the same handle again is refused as already in use.
pub proof fn lemma_handle_used_once<A>(
    b: BuilderView<A>,
    first: PlayerType<A>,
    second: PlayerType<A>,
    player_handle: PlayerHandle,
)
    requires
        b.add_player_refusal(first, player_handle) is None,
    ensures
        (BuilderView { handles: b.handles.insert(player_handle, first), ..b }).add_player_refusal(
            second,
            player_handle,
        ) == Some("Player handle already in use."@),
{
}

/// Collects the configuration of a session: the players and spectators, the prediction
/// window, the input delay and the timing parameters.
pub struct SessionBuilder<A> {
    num_players: usize,
    local_players: usize,
    max_prediction: usize,
    fps: usize,
    sparse_saving: bool,
    disconnect_timeout: Duration,
    disconnect_notify_start: Duration,
    player_reg: PlayerRegistry<A>,
    input_delay: usize,
    check_dist: usize,
    max_frames_behind: usize,
    catchup_speed: usize,
}

impl<A> View for SessionBuilder<A> {
    type V = BuilderView<A>;

    closed spec fn view(&self) -> BuilderView<A> {
        BuilderView {
            num_players: self.num_players,
            local_players: self.local_players,
            max_prediction: self.max_prediction,
            fps: self.fps,
            sparse_saving: self.sparse_saving,
            disconnect_timeout: self.disconnect_timeout,
            disconnect_notify_start: self.disconnect_notify_start,
            handles: self.player_reg.handles@,
            input_delay: self.input_delay,
            check_dist: self.check_dist,
            max_frames_behind: self.max_frames_behind,
            catchup_speed: self.catchup_speed,
        }
    }
}

impl<A> Default for SessionBuilder<A> {
    fn default() -> (r: Self)
        ensures
            r@.num_players == DEFAULT_PLAYERS,
            r@.local_players == 0,
            r@.max_prediction == DEFAULT_MAX_PREDICTION_FRAMES,
            r@.fps == DEFAULT_FPS,
            r@.sparse_saving == DEFAULT_SAVE_MODE,
            r@.handles == Map::<PlayerHandle, PlayerType<A>>::empty(),
            r@.input_delay == DEFAULT_INPUT_DELAY,
            r@.check_dist == DEFAULT_CHECK_DISTANCE,
            r@.max_frames_behind == DEFAULT_MAX_FRAMES_BEHIND,
            r@.catchup_speed == DEFAULT_CATCHUP_SPEED,
    {
        Self::new()
    }
}

impl<A> SessionBuilder<A> {
    /// A builder with the default configuration and no players.
    pub fn new() -> (r: Self)
        ensures
            r@.num_players == DEFAULT_PLAYERS,
            r@.local_players == 0,
            r@.max_prediction == DEFAULT_MAX_PREDICTION_FRAMES,
            r@.fps == DEFAULT_FPS,
            r@.sparse_saving == DEFAULT_SAVE_MODE,
            r@.handles == Map::<PlayerHandle, PlayerType<A>>::empty(),
            r@.input_delay == DEFAULT_INPUT_DELAY,
            r@.check_dist == DEFAULT_CHECK_DISTANCE,
            r@.max_frames_behind == DEFAULT_MAX_FRAMES_BEHIND,
            r@.catchup_speed == DEFAULT_CATCHUP_SPEED,
    {
        SessionBuilder {
            player_reg: PlayerRegistry::new(),
            local_players: 0,
            num_players: DEFAULT_PLAYERS,
            max_prediction: DEFAULT_MAX_PREDICTION_FRAMES,
            fps: DEFAULT_FPS,
            sparse_saving: DEFAULT_SAVE_MODE,
            disconnect_timeout: Duration::from_millis(DEFAULT_DISCONNECT_TIMEOUT_MS),
            disconnect_notify_start: Duration::from_millis(DEFAULT_DISCONNECT_NOTIFY_START_MS),
            input_delay: DEFAULT_INPUT_DELAY,
            check_dist: DEFAULT_CHECK_DISTANCE,
            max_frames_behind: DEFAULT_MAX_FRAMES_BEHIND,
            catchup_speed: DEFAULT_CATCHUP_SPEED,
        }
    }

    /// The players and spectators added so far.
    pub fn player_registry(&self) -> (r: &PlayerRegistry<A>)
        ensures
            r.handles@ == self@.handles,
    {
        &self.player_reg
    }

    /// Registers a player or spectator under `player_handle`. Players take the handles
    /// `0 .. num_players`, spectators the handles from `num_players` on; a handle can be used
    /// once. A refused request is an `InvalidRequest` that says why.
    pub fn add_player(self, player_type: PlayerType<A>, player_handle: PlayerHandle) -> (r:
        Result<Self, GgrsError>)
        requires
            player_type is Local ==> self@.local_players < usize::MAX,
        ensures
            match self@.add_player_refusal(player_type, player_handle) {
                Some(info) => r matches Err(e) && invalid_request(e, info),
                None => r matches Ok(b) && b@ == (BuilderView {
                    handles: self@.handles.insert(player_handle, player_type),
                    local_players: if player_type is Local {
                        (self@.local_players + 1) as usize
                    } else {
                        self@.local_players
                    },
                    ..self@
                }),
            },
    {
        let mut this = self;
        // the handle must not be in use yet
        if this.player_reg.handles.contains_key(&player_handle) {
            return Err(GgrsError::InvalidRequest { info: "Player handle already in use.".to_owned() });
        }
        // the handle must fit the player type
        match &player_type {
            PlayerType::Local => {
                this.local_players = this.local_players + 1;
                if player_handle >= this.num_players {
                    return Err(
                        GgrsError::InvalidRequest {
                            info: "The player handle you provided is invalid. For a local player, the handle should be between 0 and num_players".to_owned(),
                        },
                    );
                }
                // only one local player per handle
                if let Some(PlayerType::Local) = this.player_reg.player_type(player_handle) {
                    return Err(
                        GgrsError::InvalidRequest {
                            info: "Currently, only one local player per session is supported.".to_owned(),
                        },
                    );
                }
            },
            PlayerType::Remote(_) => {
                if player_handle >= this.num_players {
                    return Err(
                        GgrsError::InvalidRequest {
                            info: "The player handle you provided is invalid. For a remote player, the handle should be between 0 and num_players".to_owned(),
                        },
                    );
                }
            },
            PlayerType::Spectator(_) => {
                if player_handle < this.num_players {
                    return Err(
                        GgrsError::InvalidRequest {
                            info: "The player handle you provided is invalid. For a spectator, the handle should be num_players or higher".to_owned(),
                        },
                    );
                }
            },
        }
        this.player_reg.handles.insert(player_handle, player_type);
        Ok(this)
    }

    /// The check a peer-to-peer session makes before it starts: every player handle
    /// `0 .. num_players` must have been registered, else `InvalidRequest`.
    pub fn check_players_added(&self) -> (r: Result<(), GgrsError>)
        ensures
            (forall|h: PlayerHandle| h < self@.num_players ==> self@.handles.contains_key(h))
                ==> r is Ok,
            !(forall|h: PlayerHandle| h < self@.num_players ==> self@.handles.contains_key(h))
                ==> (r matches Err(e) && invalid_request(
                e,
                "Not enough players have been added. Keep registering players up to the defined player number."@,
            )),
    {
        let mut player_handle: usize = 0;
        while player_handle < self.num_players
            invariant
                player_handle <= self.num_players,
                forall|h: PlayerHandle| h < player_handle ==> self@.handles.contains_key(h),
            decreases self.num_players - player_handle,
        {
            if !self.player_reg.handles.contains_key(&player_handle) {
                proof {
                    assert(!self@.handles.contains_key(player_handle));
                }
                return Err(
                    GgrsError::InvalidRequest {
                        info: "Not enough players have been added. Keep registering players up to the defined player number.".to_owned(),
                    },
                );
            }
            player_handle = player_handle + 1;
        }
        Ok(())
    }

    /// Sets the maximum prediction window.
    pub fn with_max_prediction_window(self, window: usize) -> (r: Self)
        ensures
            r@ == (BuilderView { max_prediction: window, ..self@ }),
    {
        let mut this = self;
        this.max_prediction = window;
        this
    }

    /// Sets the number of frames local inputs are delayed.
    pub fn with_input_delay(self, delay: usize) -> (r: Self)
        ensures
            r@ == (BuilderView { input_delay: delay, ..self@ }),
    {
        let mut this = self;
        this.input_delay = delay;
        this
    }

    /// Sets the number of players.
    pub fn with_num_players(self, num_players: usize) -> (r: Self)
        ensures
            r@ == (BuilderView { num_players, ..self@ }),
    {
        let mut this = self;
        this.num_players = num_players;
        this
    }

    /// Turns sparse saving on or off: with it, only the minimum confirmed frame is saved.
    pub fn with_sparse_saving_mode(self, sparse_saving: bool) -> (r: Self)
        ensures
            r@ == (BuilderView { sparse_saving, ..self@ }),
    {
        let mut this = self;
        this.sparse_saving = sparse_saving;
        this
    }

    /// Sets the time without packets after which a remote peer is disconnected.
    pub fn with_disconnect_timeout(self, timeout: Duration) -> (r: Self)
        ensures
            r@ == (BuilderView { disconnect_timeout: timeout, ..self@ }),
    {
        let mut this = self;
        this.disconnect_timeout = timeout;
        this
    }

    /// Sets the time without packets after which the first interruption notification comes.
    pub fn with_disconnect_notify_delay(self, notify_delay: Duration) -> (r: Self)
        ensures
            r@ == (BuilderView { disconnect_notify_start: notify_delay, ..self@ }),
    {
        let mut this = self;
        this.disconnect_notify_start = notify_delay;
        this
    }

    /// Sets the expected update frequency; `InvalidRequest` for 0.
    pub fn with_fps(self, fps: usize) -> (r: Result<Self, GgrsError>)
        ensures
            fps == 0 ==> (r matches Err(e) && invalid_request(e, "FPS should be higher than 0."@)),
            fps != 0 ==> (r matches Ok(b) && b@ == (BuilderView { fps, ..self@ })),
    {
        let mut this = self;
        if fps == 0 {
            return Err(GgrsError::InvalidRequest { info: "FPS should be higher than 0.".to_owned() });
        }
        this.fps = fps;
        Ok(this)
    }

    /// Sets the check distance of a sync test.
    pub fn with_check_distance(self, check_distance: usize) -> (r: Self)
        ensures
            r@ == (BuilderView { check_dist: check_distance, ..self@ }),
    {
        let mut this = self;
        this.check_dist = check_distance;
        this
    }

    /// Sets how many frames a spectator may fall behind before it catches up; it must be at
    /// least 1 and below the spectator's buffer size.
    pub fn with_max_frames_behind(self, max_frames_behind: usize) -> (r: Result<
        Self,
        GgrsError,
    >)
        ensures
            max_frames_behind < 1 ==> (r matches Err(e) && invalid_request(
                e,
                "Max frames behind cannot be smaller than 1."@,
            )),
            1 <= max_frames_behind && max_frames_behind >= SPECTATOR_BUFFER_SIZE ==> (r matches Err(
                e,
            ) && invalid_request(
                e,
                "Max frames behind cannot be larger or equal than the Spectator buffer size (60)"@,
            )),
            1 <= max_frames_behind < SPECTATOR_BUFFER_SIZE ==> (r matches Ok(b) && b@ == (
            BuilderView { max_frames_behind, ..self@ })),
    {
        let mut this = self;
        if max_frames_behind < 1 {
            return Err(
                GgrsError::InvalidRequest {
                    info: "Max frames behind cannot be smaller than 1.".to_owned(),
                },
            );
        }
        if max_frames_behind >= SPECTATOR_BUFFER_SIZE {
            return Err(
                GgrsError::InvalidRequest {
                    info: "Max frames behind cannot be larger or equal than the Spectator buffer size (60)".to_owned(),
                },
            );
        }
        this.max_frames_behind = max_frames_behind;
        Ok(this)
    }

    /// Sets how many frames a spectator advances per step while catching up; it must be at
    /// least 1 and below the maximum frames behind.
    pub fn with_catchup_speed(self, catchup_speed: usize) -> (r: Result<Self, GgrsError>)
        ensures
            catchup_speed < 1 ==> (r matches Err(e) && invalid_request(
                e,
                "Catchup speed cannot be smaller than 1."@,
            )),
            1 <= catchup_speed && catchup_speed >= self@.max_frames_behind ==> (r matches Err(e)
                && invalid_request(
                e,
                "Catchup speed cannot be larger or equal than the allowed maximum frames behind host"@,
            )),
            1 <= catchup_speed < self@.max_frames_behind ==> (r matches Ok(b) && b@ == (
            BuilderView { catchup_speed, ..self@ })),
    {
        let mut this = self;
        if catchup_speed < 1 {
            return Err(
                GgrsError::InvalidRequest { info: "Catchup speed cannot be smaller than 1.".to_owned() },
            );
        }
        if catchup_speed >= this.max_frames_behind {
            return Err(
                GgrsError::InvalidRequest {
                    info: "Catchup speed cannot be larger or equal than the allowed maximum frames behind host".to_owned(),
                },
            );
        }
        this.catchup_speed = catchup_speed;
        Ok(this)
    }
}

} // verus!
