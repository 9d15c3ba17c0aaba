use vstd::prelude::*;

use super::FrameNumber;
use crate::NULL_FRAME;

pub use crate::frame_info::{GameInput, InputBuffer};

verus! {

/// A serialized game state of a single frame: `buffer` holds the state, `frame` the frame it
/// belongs to, and `checksum` can be provided for desync detection.
#[derive(Debug, Clone)]
pub struct GameState {
    /// The frame to which this state belongs.
    pub frame: FrameNumber,
    /// The serialized game state.
    pub buffer: Vec<u8>,
    /// The checksum of the game state.
    pub checksum: Option<u32>,
}

impl GameState {
    /// An empty state that belongs to no frame.
    pub fn new() -> (r: Self)
        ensures
            r.frame == NULL_FRAME,
            r.buffer@.len() == 0,
            r.checksum is None,
    {
        GameState { frame: NULL_FRAME, buffer: Vec::new(), checksum: None }
    }
}

impl GameState {
    /// A copy of this state: same frame, bytes and checksum.
    pub fn copied(&self) -> (r: Self)
        ensures
            r.frame == self.frame,
            r.buffer@ == self.buffer@,
            r.checksum == self.checksum,
    {
        let buffer = self.buffer.clone();
        assert(buffer@ =~= self.buffer@);
        GameState { frame: self.frame, buffer, checksum: self.checksum }
    }
}

impl Default for GameState {
    fn default() -> (r: Self)
        ensures
            r.frame == NULL_FRAME,
            r.buffer@.len() == 0,
            r.checksum is None,
    {
        Self::new()
    }
}

/// A state and an input that belong to the same frame.
#[derive(Debug, Clone, Default)]
pub struct FrameInfo {
    pub frame: FrameNumber,
    pub state: GameState,
    pub input: GameInput,
}

/// The input of no frame and no size.
pub fn blank_input() -> (r: GameInput)
    ensures
        r.frame == NULL_FRAME,
        r.size == 0,
        forall|i: int| 0 <= i < 8 ==> r.buffer[i] == 0,
{
    GameInput::new(NULL_FRAME, None, 0)
}

} // verus!
