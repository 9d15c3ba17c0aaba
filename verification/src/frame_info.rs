use vstd::prelude::*;
use vstd::std_specs::cmp::PartialEqSpec;

use crate::{Frame, MAX_INPUT_BYTES, NULL_FRAME};

verus! {

/// A fixed-size buffer holding the serialized input of one player.
pub type InputBuffer = [u8; 8];

/// Represents a serialized input for a single player in a single frame. The first `size` bytes of
/// `buffer` hold the encoded input; the associated frame is `frame`.
#[derive(Debug, Default, Copy, Clone)]
pub struct GameInput {
    /// The frame to which this input belongs. -1 / `NULL_FRAME` represents an invalid frame.
    pub frame: Frame,
    /// The input size per player.
    pub size: usize,
    /// The game input for a player in a single frame.
    pub buffer: InputBuffer,
}

/// Byte-wise equality of two input buffers.
pub open spec fn same_bytes(a: InputBuffer, b: InputBuffer) -> bool {
    a@ == b@
}

impl GameInput {
    /// Creates an input for `frame` of the given `size`, copying `bytes` when given and
    /// zero-filling the buffer otherwise.
    pub fn new(frame: Frame, bytes: Option<&InputBuffer>, size: usize) -> (r: Self)
        requires
            size <= MAX_INPUT_BYTES,
        ensures
            r.frame == frame,
            r.size == size,
            match bytes {
                Some(b) => r.buffer@ == b@,
                None => forall|i: int| 0 <= i < 8 ==> r.buffer[i] == 0,
            },
    {
        match bytes {
            Some(b) => GameInput { frame, size, buffer: *b },
            None => GameInput { frame, size, buffer: [0u8; 8] },
        }
    }

    /// Overwrites the first `size` bytes of the buffer with `bytes`.
    pub fn copy_input(&mut self, bytes: &[u8])
        requires
            bytes@.len() == old(self).size,
            old(self).size <= MAX_INPUT_BYTES,
        ensures
            final(self).frame == old(self).frame,
            final(self).size == old(self).size,
            final(self).buffer@ == bytes@ + old(self).buffer@.subrange(old(self).size as int, 8),
    {
        let mut i: usize = 0;
        while i < self.size
            invariant
                self.size == old(self).size,
                self.frame == old(self).frame,
                self.size <= 8,
                bytes@.len() == self.size,
                i <= self.size,
                forall|j: int| 0 <= j < i ==> self.buffer[j] == bytes@[j],
                forall|j: int| i <= j < 8 ==> self.buffer[j] == old(self).buffer[j],
            decreases self.size - i,
        {
            self.buffer[i] = bytes[i];
            i = i + 1;
        }
        assert(self.buffer@ =~= bytes@ + old(self).buffer@.subrange(old(self).size as int, 8));
    }

    /// Sets every byte of the buffer to zero.
    pub fn erase_bits(&mut self)
        ensures
            final(self).frame == old(self).frame,
            final(self).size == old(self).size,
            forall|i: int| 0 <= i < 8 ==> final(self).buffer[i] == 0,
    {
        let mut i: usize = 0;
        while i < 8
            invariant
                self.size == old(self).size,
                self.frame == old(self).frame,
                i <= 8,
                forall|j: int| 0 <= j < i ==> self.buffer[j] == 0,
            decreases 8 - i,
        {
            self.buffer[i] = 0;
            i = i + 1;
        }
    }

    /// Compares two inputs: sizes and buffers must agree, frames too unless `bitsonly` is set.
    pub fn equal(&self, other: &Self, bitsonly: bool) -> (r: bool)
        ensures
            r == ((bitsonly || self.frame == other.frame) && self.size == other.size
                && same_bytes(self.buffer, other.buffer)),
    {
        if !bitsonly && self.frame != other.frame {
            return false;
        }
        if self.size != other.size {
            return false;
        }
        let mut i: usize = 0;
        while i < 8
            invariant
                i <= 8,
                forall|j: int| 0 <= j < i ==> self.buffer[j] == other.buffer[j],
            decreases 8 - i,
        {
            if self.buffer[i] != other.buffer[i] {
                return false;
            }
            i = i + 1;
        }
        assert(self.buffer@ =~= other.buffer@);
        true
    }

    /// The serialized input: the first `size` bytes of the buffer.
    pub fn input(&self) -> (r: &[u8])
        requires
            self.size <= MAX_INPUT_BYTES,
        ensures
            r@ == self.buffer@.subrange(0, self.size as int),
    {
        &self.buffer[0..self.size]
    }
}

/// The game state of a single frame: `data` holds the state, `frame` the frame it belongs to,
/// and `checksum` can be provided for desync detection.
#[derive(Debug, Clone)]
pub struct GameState<S> {
    /// The frame to which this state belongs.
    pub frame: Frame,
    /// The game state.
    pub data: Option<S>,
    /// The checksum of the game state.
    pub checksum: Option<u128>,
}

impl<S> GameState<S> {
    /// An empty state that belongs to no frame.
    pub fn new() -> (r: Self)
        ensures
            r.frame == NULL_FRAME,
            r.data is None,
            r.checksum is None,
    {
        GameState { frame: NULL_FRAME, data: None, checksum: None }
    }
}

impl<S> Default for GameState<S> {
    fn default() -> (r: Self)
        ensures
            r.frame == NULL_FRAME,
            r.data is None,
            r.checksum is None,
    {
        Self::new()
    }
}

/// The input of a single player in a single frame.
#[derive(Debug, Copy, Clone, PartialEq)]
pub struct PlayerInput<I> {
    /// The frame to which this input belongs. `NULL_FRAME` represents an invalid frame.
    pub frame: Frame,
    /// The input given by the user.
    pub input: I,
}

impl<I: Copy + PartialEq + Default> PlayerInput<I> {
    /// The input `input` for `frame`.
    pub fn new(frame: Frame, input: I) -> (r: Self)
        ensures
            r.frame == frame,
            r.input == input,
    {
        PlayerInput { frame, input }
    }

    /// The "no input" (the default input) for `frame`.
    pub fn blank_input(frame: Frame) -> (r: Self)
        ensures
            r.frame == frame,
            call_ensures(I::default, (), r.input),
    {
        PlayerInput { frame, input: I::default() }
    }

    /// Whether two inputs agree: the inputs must be equal, and the frames too unless
    /// `input_only` is set.
    pub fn equal(&self, other: &Self, input_only: bool) -> (r: bool)
        ensures
            I::obeys_eq_spec() ==> r == ((input_only || self.frame == other.frame)
                && self.input.eq_spec(&other.input)),
    {
        (input_only || self.frame == other.frame) && self.input == other.input
    }
}

} // verus!
