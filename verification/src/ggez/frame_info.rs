use vstd::prelude::*;

verus! {

/// All information for a single frame of the game state.
#[derive(Debug, Default, Clone)]
pub struct FrameInfo {
    /// The frame to which this info belongs.
    pub frame: u32,
    /// The saved game state.
    pub state: GameState,
    /// The input data of all players for this frame.
    pub input: GameInput,
}

/// A serialized game state.
#[derive(Debug, Default, Clone)]
pub struct GameState {
    /// The serialized game state in bytes.
    pub buffer: Vec<u8>,
    /// The checksum of the game state.
    pub checksum: Option<u32>,
}

/// The input data of all players for a single frame.
#[derive(Debug, Default, Clone)]
pub struct GameInput {
    /// The game input for all players.
    pub input_bits: Vec<u8>,
}

impl GameInput {
    /// A copy of `bits` when given, otherwise `input_size` zero bytes.
    pub fn new(input_size: usize, bits: Option<&[u8]>) -> (r: GameInput)
        ensures
            match bits {
                Some(b) => r.input_bits@ == b@,
                None => r.input_bits@ == Seq::new(input_size as nat, |i: int| 0u8),
            },
    {
        match bits {
            Some(i_bits) => {
                let mut v: Vec<u8> = Vec::new();
                let mut i: usize = 0;
                while i < i_bits.len()
                    invariant
                        i <= i_bits@.len(),
                        v@ == i_bits@.subrange(0, i as int),
                    decreases i_bits@.len() - i,
                {
                    v.push(i_bits[i]);
                    i = i + 1;
                    assert(v@ =~= i_bits@.subrange(0, i as int));
                }
                assert(i_bits@.subrange(0, i as int) =~= i_bits@);
                GameInput { input_bits: v }
            },
            None => {
                let mut v: Vec<u8> = Vec::new();
                let mut i: usize = 0;
                while i < input_size
                    invariant
                        i <= input_size,
                        v@ == Seq::new(i as nat, |j: int| 0u8),
                    decreases input_size - i,
                {
                    v.push(0);
                    i = i + 1;
                    assert(v@ =~= Seq::new(i as nat, |j: int| 0u8));
                }
                GameInput { input_bits: v }
            },
        }
    }

    /// Sets every byte to zero.
    pub fn erase_bits(&mut self)
        ensures
            final(self).input_bits@ == Seq::new(old(self).input_bits@.len(), |i: int| 0u8),
    {
        let mut i: usize = 0;
        while i < self.input_bits.len()
            invariant
                i <= self.input_bits@.len(),
                self.input_bits@.len() == old(self).input_bits@.len(),
                forall|j: int| 0 <= j < i ==> self.input_bits@[j] == 0,
            decreases self.input_bits@.len() - i,
        {
            self.input_bits[i] = 0;
            i = i + 1;
        }
        assert(self.input_bits@ =~= Seq::new(old(self).input_bits@.len(), |i: int| 0u8));
    }
}

} // verus!
