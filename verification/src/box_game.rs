//! A tiny two-player game that exercises the classic session interface: the state counts
//! frames and moves a counter by the parity of the two players' `u32` inputs.
use vstd::prelude::*;

use crate::classic::frame_info::{GameInput, GameState};
use crate::classic::GGRSInterface;
use crate::MAX_INPUT_BYTES;

verus! {

/// The little-endian value of the first four bytes of `s`.
pub open spec fn le_u32(s: Seq<u8>) -> int {
    s[0] + s[1] * 256 + s[2] * 65536 + s[3] * 16777216
}

/// The two's-complement reading of a 32-bit pattern `u` (`0 <= u < 2^32`).
pub open spec fn i32_of_bits(u: int) -> int {
    if u < 0x8000_0000 {
        u
    } else {
        u - 0x1_0000_0000
    }
}

/// The four little-endian bytes of the two's-complement pattern of `v`.
pub open spec fn le_i32_bytes(v: i32) -> Seq<u8> {
    let u: int = if v < 0 {
        v + 0x1_0000_0000
    } else {
        v as int
    };
    seq![(u % 256) as u8, ((u / 256) % 256) as u8, ((u / 65536) % 256) as u8, ((u / 16777216) % 256) as u8]
}

/// Adler-32: the running sum `a` of the bytes, started at 1, modulo 65521.
pub open spec fn adler_a(s: Seq<u8>) -> int
    decreases s.len(),
{
    if s.len() == 0 {
        1
    } else {
        (adler_a(s.drop_last()) + s.last()) % 65521
    }
}

/// Adler-32: the running sum `b` of the values of `a` after each byte, modulo 65521.
pub open spec fn adler_b(s: Seq<u8>) -> int
    decreases s.len(),
{
    if s.len() == 0 {
        0
    } else {
        (adler_b(s.drop_last()) + adler_a(s)) % 65521
    }
}

/// The Adler-32 checksum of `s` (RFC 1950): `b` in the high half, `a` in the low half.
pub open spec fn adler32(s: Seq<u8>) -> int {
    adler_b(s) * 65536 + adler_a(s)
}

/// `bincode::deserialize::<u32>` with bincode's default configuration (fixed-width,
/// little-endian, trailing bytes allowed): the first four bytes read little-endian; fewer
/// than four bytes are an error, given here as `None`.
#[verifier::external_body]
fn decode_u32(bytes: &[u8]) -> (r: Option<u32>)
    ensures
        r == (if bytes@.len() >= 4 {
            Some(le_u32(bytes@) as u32)
        } else {
            None::<u32>
        }),
{
    bincode::deserialize::<u32>(bytes).ok()
}

/// `bincode::serialize` of a pair of `i32` with bincode's default configuration: each number
/// as its four little-endian two's-complement bytes, first then second. Serializing two
/// integers cannot fail (the default configuration has no size limit).
#[verifier::external_body]
fn encode_i32_pair(first: i32, second: i32) -> (r: Vec<u8>)
    ensures
        r@ == le_i32_bytes(first) + le_i32_bytes(second),
{
    bincode::serialize(&(first, second)).unwrap_or_default()
}

/// `adler::adler32_slice`: the Adler-32 checksum of `data`.
#[verifier::external_body]
fn adler_checksum(data: &[u8]) -> (r: u32)
    ensures
        r == adler32(data@),
{
    adler::adler32_slice(data)
}

/// The signed number whose two's-complement pattern is `u`.
fn i32_from_bits(u: u32) -> (r: i32)
    ensures
        r == i32_of_bits(u as int),
{
    if u < 0x8000_0000 {
        u as i32
    } else {
        let low: u32 = u - 0x8000_0000;
        (low as i32) - 0x7fff_ffff - 1
    }
}

/// The `(frame, state)` pair saved in `bytes`: two little-endian 32-bit patterns read as
/// `i32`; `None` if fewer than eight bytes are given.
pub open spec fn decoded_state(bytes: Seq<u8>) -> Option<(i32, i32)> {
    if bytes.len() >= 8 {
        Some(
            (
                i32_of_bits(le_u32(bytes)) as i32,
                i32_of_bits(le_u32(bytes.subrange(4, 8))) as i32,
            ),
        )
    } else {
        None
    }
}

/// Reads a saved `(frame, state)` pair: two `u32` read with bincode, each taken as the
/// two's-complement pattern of an `i32`. `None` if fewer than eight bytes are given.
pub fn decode_state(bytes: &[u8]) -> (r: Option<(i32, i32)>)
    ensures
        r == decoded_state(bytes@),
{
    if bytes.len() < 8 {
        return None;
    }
    let first = decode_u32(bytes);
    let rest = &bytes[4..8];
    let second = decode_u32(rest);
    match (first, second) {
        (Some(a), Some(b)) => Some((i32_from_bits(a), i32_from_bits(b))),
        _ => None,
    }
}

/// Four little-endian bytes give back the 32-bit pattern they were made from.
proof fn lemma_le_bytes_value(u: int)
    requires
        0 <= u < 0x1_0000_0000,
    ensures
        (u % 256) + ((u / 256) % 256) * 256 + ((u / 65536) % 256) * 65536 + ((u / 16777216) % 256)
            * 16777216 == u,
{
    assert((u % 256) + ((u / 256) % 256) * 256 + ((u / 65536) % 256) * 65536 + ((u / 16777216)
        % 256) * 16777216 == u) by (nonlinear_arith)
        requires
            0 <= u < 0x1_0000_0000,
    ;
}

/// Reading back the bytes of an `i32` gives the number itself.
pub proof fn lemma_i32_bytes_roundtrip(v: i32)
    ensures
        le_i32_bytes(v).len() == 4,
        i32_of_bits(le_u32(le_i32_bytes(v))) == v,
{
    let u: int = if v < 0 {
        v + 0x1_0000_0000
    } else {
        v as int
    };
    lemma_le_bytes_value(u);
}

/// A saved state read back is the state that was saved.
pub proof fn lemma_state_bytes_roundtrip(gs: BoxGameState)
    ensures
        decoded_state(le_i32_bytes(gs.frame) + le_i32_bytes(gs.state)) == Some((gs.frame, gs.state)),
{
    lemma_i32_bytes_roundtrip(gs.frame);
    lemma_i32_bytes_roundtrip(gs.state);
    let b = le_i32_bytes(gs.frame) + le_i32_bytes(gs.state);
    assert(b.subrange(4, 8) =~= le_i32_bytes(gs.state));
    assert(le_u32(b) == le_u32(le_i32_bytes(gs.frame)));
}

/// The state of the box game.
#[derive(Debug, Clone, Copy, PartialEq, Eq, Hash)]
pub struct BoxGameState {
    pub frame: i32,
    pub state: i32,
}

impl Default for BoxGameState {
    fn default() -> (r: Self)
        ensures
            r.frame == 0,
            r.state == 0,
    {
        BoxGameState { frame: 0, state: 0 }
    }
}

/// The input value a player sent: its first four bytes, little-endian.
pub open spec fn player_value(input: GameInput) -> int {
    le_u32(input.buffer@.subrange(0, input.size as int))
}

/// What one frame does to `state`: `+2` when the two players' values sum to an even number,
/// `-1` otherwise.
pub open spec fn state_step(state: int, p0: int, p1: int) -> int {
    if (p0 + p1) % 2 == 0 {
        state + 2
    } else {
        state - 1
    }
}

/// The inputs on which a frame can be advanced without any overflow: two players, each with
/// at least four input bytes, and counters that stay in range.
pub open spec fn can_advance(gs: BoxGameState, inputs: Seq<GameInput>) -> bool {
    &&& inputs.len() >= 2
    &&& 4 <= inputs[0].size <= MAX_INPUT_BYTES
    &&& 4 <= inputs[1].size <= MAX_INPUT_BYTES
    &&& player_value(inputs[0]) + player_value(inputs[1]) <= u32::MAX
    &&& gs.frame < i32::MAX
    &&& i32::MIN <= state_step(gs.state as int, player_value(inputs[0]), player_value(inputs[1]))
        <= i32::MAX
}

impl BoxGameState {
    /// The initial state: frame 0, counter 0.
    pub fn new() -> (r: Self)
        ensures
            r.frame == 0,
            r.state == 0,
    {
        Self::default()
    }

    /// Advances the game by one frame with the inputs of players 0 and 1.
    pub fn advance_frame(&mut self, inputs: &Vec<GameInput>)
        requires
            can_advance(*old(self), inputs@),
        ensures
            final(self).frame == old(self).frame + 1,
            final(self).state == state_step(
                old(self).state as int,
                player_value(inputs@[0]),
                player_value(inputs@[1]),
            ),
    {
        let b0 = inputs[0].input();
        let b1 = inputs[1].input();
        let p0 = decode_u32(b0);
        let p1 = decode_u32(b1);
        match (p0, p1) {
            (Some(p0_inputs), Some(p1_inputs)) => {
                if (p0_inputs + p1_inputs) % 2 == 0 {
                    self.state = self.state + 2;
                } else {
                    self.state = self.state - 1;
                }
                self.frame = self.frame + 1;
            },
            _ => {},
        }
    }
}

/// The box game: its state and the callbacks a session makes.
#[derive(Debug, Clone, Copy, PartialEq, Eq)]
pub struct BoxGame {
    pub gs: BoxGameState,
}

impl BoxGame {
    /// A game in its initial state.
    pub fn new() -> (r: Self)
        ensures
            r.gs.frame == 0,
            r.gs.state == 0,
    {
        BoxGame { gs: BoxGameState::new() }
    }
}

impl GGRSInterface for BoxGame {
    /// Saves the state as its bincode bytes, with their Adler-32 checksum.
    fn save_game_state(&self) -> (r: GameState)
        ensures
            r.frame == self.gs.frame,
            r.buffer@ == le_i32_bytes(self.gs.frame) + le_i32_bytes(self.gs.state),
            r.checksum == Some(adler32(r.buffer@) as u32),
    {
        let buffer = encode_i32_pair(self.gs.frame, self.gs.state);
        let checksum = adler_checksum(buffer.as_slice());
        GameState { frame: self.gs.frame, buffer, checksum: Some(checksum) }
    }

    /// Restores the state from saved bytes; a buffer too short to hold a state leaves the
    /// game unchanged.
    fn load_game_state(&mut self, state: &GameState)
        ensures
            match decoded_state(state.buffer@) {
                Some((frame, counter)) => final(self).gs.frame == frame && final(self).gs.state
                    == counter,
                None => *final(self) == *old(self),
            },
    {
        match decode_state(state.buffer.as_slice()) {
            Some((frame, counter)) => {
                self.gs = BoxGameState { frame, state: counter };
            },
            None => {},
        }
    }

    /// Advances the state by one frame; inputs on which that would overflow or that do not
    /// hold two players' values leave the game unchanged.
    fn advance_frame(&mut self, inputs: Vec<GameInput>)
        ensures
            can_advance(old(self).gs, inputs@) ==> final(self).gs.frame == old(self).gs.frame + 1
                && final(self).gs.state == state_step(
                old(self).gs.state as int,
                player_value(inputs@[0]),
                player_value(inputs@[1]),
            ),
            !can_advance(old(self).gs, inputs@) ==> *final(self) == *old(self),
    {
        if inputs.len() >= 2 && 4 <= inputs[0].size && inputs[0].size <= MAX_INPUT_BYTES && 4
            <= inputs[1].size && inputs[1].size <= MAX_INPUT_BYTES {
            let p0 = decode_u32(inputs[0].input());
            let p1 = decode_u32(inputs[1].input());
            match (p0, p1) {
                (Some(a), Some(b)) => {
                    let even = (a % 2) == (b % 2);
                    if a <= u32::MAX - b && self.gs.frame < i32::MAX && ((even
                        && self.gs.state <= i32::MAX - 2) || (!even && self.gs.state > i32::MIN)) {
                        self.gs.advance_frame(&inputs);
                    }
                },
                _ => {},
            }
        }
    }
}

} // verus!
