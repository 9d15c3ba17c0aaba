use vstd::prelude::*;
use vstd::arithmetic::div_mod::lemma_add_mod_noop_right;

use super::game_info::GameInput;
use super::{FrameNumber, GGEZError, PlayerHandle, INPUT_QUEUE_LENGTH, MAX_INPUT_BYTES, NULL_FRAME};

verus! {

broadcast use {vstd::array::axiom_spec_array_fill_for_copy_type, vstd::array::axiom_array_ext_equal};

/// The ring position just before `head`.
pub open spec fn prev_pos(head: usize) -> int {
    if head == 0 {
        INPUT_QUEUE_LENGTH - 1
    } else {
        head - 1
    }
}

/// `input` stored for frame `f`: same size and bytes, frame replaced.
pub open spec fn with_frame(input: GameInput, f: FrameNumber) -> GameInput {
    GameInput { frame: f, size: input.size, bits: input.bits }
}

/// `input` with every byte set to zero.
pub open spec fn zeroed(input: GameInput) -> GameInput {
    GameInput {
        frame: input.frame,
        size: input.size,
        bits: vstd::array::spec_array_fill_for_copy_type::<u8, 8>(0u8),
    }
}

/// The abstract state of an [`InputQueue`].
pub struct InputQueueView {
    pub id: PlayerHandle,
    pub head: usize,
    pub tail: usize,
    pub length: usize,
    pub first_frame: bool,
    pub last_added_frame: FrameNumber,
    pub first_incorrect_frame: FrameNumber,
    pub last_requested_frame: FrameNumber,
    pub frame_delay: u32,
    pub inputs: Seq<GameInput>,
    pub prediction: GameInput,
}

impl InputQueueView {
    /// The ring has its fixed length, the cursors stay in it, all slots hold inputs of the
    /// queue's input size, and frames are never below `NULL_FRAME`.
    pub open spec fn wf(self) -> bool {
        &&& self.inputs.len() == INPUT_QUEUE_LENGTH
        &&& self.head < INPUT_QUEUE_LENGTH
        &&& self.tail < INPUT_QUEUE_LENGTH
        &&& self.length <= INPUT_QUEUE_LENGTH
        &&& self.prediction.size <= MAX_INPUT_BYTES
        &&& forall|i: int|
            0 <= i < INPUT_QUEUE_LENGTH ==> (#[trigger] self.inputs[i]).size == self.prediction.size
                && self.inputs[i].frame >= NULL_FRAME
    }

    /// The slot before `head` holds the last added frame, and a running prediction is for the
    /// frame after it.
    pub open spec fn consistent(self) -> bool {
        &&& self.wf()
        &&& self.first_frame <==> self.last_added_frame == NULL_FRAME
        &&& self.last_added_frame >= NULL_FRAME
        &&& self.last_added_frame != NULL_FRAME ==> self.inputs[prev_pos(self.head)].frame
            == self.last_added_frame
        &&& self.prediction.frame == NULL_FRAME || self.prediction.frame == self.last_added_frame
            + 1
    }

    /// The queue holds exactly the consecutive frames ending at the last added frame, from
    /// `tail` on, and `head` is the slot after the newest one.
    pub open spec fn clean(self) -> bool {
        &&& self.consistent()
        &&& (self.tail + self.length) % (INPUT_QUEUE_LENGTH as int) == self.head
        &&& (self.length == 0 <==> self.last_added_frame == NULL_FRAME)
        &&& forall|k: int|
            0 <= k < self.length ==> (#[trigger] self.inputs[(self.tail + k) % (
            INPUT_QUEUE_LENGTH as int)]).frame == self.last_added_frame - (self.length - 1 - k)
    }

    /// The oldest frame a clean queue holds.
    pub open spec fn oldest_frame(self) -> int {
        self.last_added_frame - self.length + 1
    }

    /// Whether a clean queue holds an input for frame `f`.
    pub open spec fn holds(self, f: int) -> bool {
        self.length > 0 && self.oldest_frame() <= f <= self.last_added_frame
    }

    /// The input a clean queue holds for frame `f`.
    pub open spec fn stored(self, f: int) -> GameInput {
        self.inputs[(self.tail + (f - self.oldest_frame())) % (INPUT_QUEUE_LENGTH as int)]
    }

    /// Stores `input` for frame `f` at `head` and updates the prediction bookkeeping.
    pub open spec fn add_step(self, input: GameInput, f: int) -> InputQueueView {
        let v1 = InputQueueView {
            inputs: self.inputs.update(self.head as int, with_frame(input, f as i32)),
            head: ((self.head + 1) % (INPUT_QUEUE_LENGTH as int)) as usize,
            length: (self.length + 1) as usize,
            first_frame: false,
            last_added_frame: f as i32,
            ..self
        };
        if self.prediction.frame != NULL_FRAME {
            let matches = self.prediction.size == input.size && self.prediction.bits@
                == input.bits@;
            let fi = if self.first_incorrect_frame == NULL_FRAME && !matches {
                f as i32
            } else {
                self.first_incorrect_frame
            };
            let pf = if self.prediction.frame == self.last_requested_frame && fi == NULL_FRAME {
                NULL_FRAME
            } else {
                (self.prediction.frame + 1) as i32
            };
            InputQueueView {
                first_incorrect_frame: fi,
                prediction: with_frame(self.prediction, pf),
                ..v1
            }
        } else {
            v1
        }
    }

    /// The frame the next stored input must have.
    pub open spec fn expected_frame(self) -> int {
        if self.first_frame {
            0
        } else {
            self.inputs[prev_pos(self.head)].frame + 1
        }
    }

    /// The frame an input given for `frame` is stored at, after the frame delay.
    pub open spec fn delayed(self, frame: FrameNumber) -> int {
        frame + (self.frame_delay as i32)
    }

    /// How many frames lie between the expected frame and the delayed frame `f` (none when `f`
    /// is not past the expected frame).
    pub open spec fn gap(self, f: int) -> int {
        if f > self.expected_frame() {
            f - self.expected_frame()
        } else {
            0
        }
    }

    /// The inputs `add_input` accepts without tripping an internal check: a frame whose
    /// delayed frame follows the last added one (any frame for the first input), matching size, and room in the ring for the input and the copies that fill
    /// the frames up to its delayed frame (none when that frame was already passed: the input
    /// is then dropped).
    pub open spec fn add_input_ok(self, input: GameInput) -> bool {
        &&& self.consistent()
        &&& input.size == self.prediction.size
        &&& self.last_added_frame == NULL_FRAME || self.delayed(input.frame) == self.last_added_frame + 1
        &&& i32::MIN <= self.delayed(input.frame) < i32::MAX
        &&& self.delayed(input.frame) >= self.expected_frame() ==> self.length + self.gap(
            self.delayed(input.frame),
        ) < INPUT_QUEUE_LENGTH
    }

    /// The input the frames opened by a larger frame delay are filled with: the last stored
    /// one (a blank input before any).
    pub open spec fn fill_base(self) -> GameInput {
        self.inputs[prev_pos(self.head)]
    }

    /// This queue after `k` copies of `base` were stored for the frames from `from` on.
    pub open spec fn filled(self, base: GameInput, from: int, k: nat) -> InputQueueView
        decreases k,
    {
        if k == 0 {
            self
        } else {
            self.filled(base, from, (k - 1) as nat).add_step(base, from + k - 1)
        }
    }

    /// The state after `add_input(input)`: unchanged when its delayed frame was already
    /// passed; otherwise the frames up to it are filled with copies of the last stored input
    /// (after the frame delay grew) and the input is stored at its delayed frame.
    pub open spec fn after_add(self, input: GameInput) -> InputQueueView {
        let f = self.delayed(input.frame);
        if f < self.expected_frame() {
            self
        } else {
            self.filled(self.fill_base(), self.expected_frame(), self.gap(f) as nat).add_step(
                input,
                f,
            )
        }
    }

    /// The frame in the `tail` slot.
    pub open spec fn tail_frame(self) -> int {
        self.inputs[self.tail as int].frame as int
    }

    /// Whether `get_input(req)` reads straight from the queue.
    pub open spec fn reads_queue(self, req: int) -> bool {
        self.prediction.frame < 0 && req - self.tail_frame() < self.length
    }

    /// The slot `get_input(req)` reads when it reads the queue.
    pub open spec fn read_slot(self, req: int) -> int {
        (req - self.tail_frame() + self.tail) % (INPUT_QUEUE_LENGTH as int)
    }

    /// What a new prediction for `req` is based on.
    pub open spec fn prediction_base(self, req: int) -> GameInput {
        if req == 0 || self.last_added_frame == NULL_FRAME {
            zeroed(self.prediction)
        } else {
            self.inputs[prev_pos(self.head)]
        }
    }

    /// The prediction `get_input(req)` starts when it has to start one.
    pub open spec fn new_prediction(self, req: int) -> GameInput {
        let base = self.prediction_base(req);
        with_frame(base, (base.frame + 1) as i32)
    }

    /// The requests `get_input(req)` serves without tripping an internal check.
    pub open spec fn input_ok(self, req: int) -> bool {
        &&& self.consistent()
        &&& self.first_incorrect_frame < 0
        &&& self.tail_frame() <= req <= i32::MAX
        &&& req - self.tail_frame() <= i32::MAX
        &&& self.reads_queue(req) ==> self.inputs[self.read_slot(req)].frame == req
        &&& !self.reads_queue(req) && self.prediction.frame < 0 ==> self.prediction_base(req).frame
            + 1 != NULL_FRAME && self.prediction_base(req).frame < i32::MAX
    }

    /// The state after `get_input(req)`.
    pub open spec fn after_input(self, req: int) -> InputQueueView {
        let v1 = InputQueueView { last_requested_frame: req as i32, ..self };
        if self.prediction.frame < 0 && !self.reads_queue(req) {
            InputQueueView { prediction: self.new_prediction(req), ..v1 }
        } else {
            v1
        }
    }

    /// The input `get_input(req)` returns.
    pub open spec fn input_value(self, req: int) -> GameInput {
        if self.reads_queue(req) {
            self.inputs[self.read_slot(req)]
        } else {
            with_frame(self.after_input(req).prediction, req as i32)
        }
    }

    /// The frame up to which `discard_confirmed_frames(frame)` discards.
    pub open spec fn discard_bound(self, frame: int) -> int {
        if self.last_requested_frame != NULL_FRAME && self.last_requested_frame < frame {
            self.last_requested_frame as int
        } else {
            frame
        }
    }

    /// The state after `discard_confirmed_frames(frame)`.
    pub open spec fn after_discard(self, frame: int) -> InputQueueView {
        let fr = self.discard_bound(frame);
        if fr >= self.last_added_frame {
            InputQueueView { tail: self.head, ..self }
        } else if fr < self.tail_frame() {
            self
        } else {
            let offset = fr - self.tail_frame();
            InputQueueView {
                tail: ((self.tail + offset) % (INPUT_QUEUE_LENGTH as int)) as usize,
                length: (self.length - offset) as usize,
                ..self
            }
        }
    }
}

/// Handles the inputs of a single player in a circular array. Valid inputs are between `head`
/// and `tail`.
#[derive(Debug, Clone)]
pub struct InputQueue {
    /// Identifies the player this queue belongs to.
    pub id: PlayerHandle,
    head: usize,
    tail: usize,
    length: usize,
    first_frame: bool,
    last_added_frame: FrameNumber,
    first_incorrect_frame: FrameNumber,
    last_requested_frame: FrameNumber,
    frame_delay: u32,
    inputs: Vec<GameInput>,
    prediction: GameInput,
}

impl View for InputQueue {
    type V = InputQueueView;

    closed spec fn view(&self) -> InputQueueView {
        InputQueueView {
            id: self.id,
            head: self.head,
            tail: self.tail,
            length: self.length,
            first_frame: self.first_frame,
            last_added_frame: self.last_added_frame,
            first_incorrect_frame: self.first_incorrect_frame,
            last_requested_frame: self.last_requested_frame,
            frame_delay: self.frame_delay,
            inputs: self.inputs@,
            prediction: self.prediction,
        }
    }
}

impl InputQueue {
    /// An empty queue for player `id` whose inputs are `input_size` bytes long.
    pub fn new(id: PlayerHandle, input_size: usize) -> (r: InputQueue)
        requires
            input_size <= MAX_INPUT_BYTES,
        ensures
            r@.clean(),
            r@.id == id,
            r@.head == 0 && r@.tail == 0 && r@.length == 0,
            r@.first_frame,
            r@.last_added_frame == NULL_FRAME,
            r@.first_incorrect_frame == NULL_FRAME,
            r@.last_requested_frame == NULL_FRAME,
            r@.frame_delay == 0,
            r@.prediction.frame == NULL_FRAME && r@.prediction.size == input_size,
            forall|i: int| 0 <= i < 8 ==> r@.prediction.bits[i] == 0,
            forall|i: int|
                0 <= i < INPUT_QUEUE_LENGTH ==> #[trigger] r@.inputs[i] == r@.prediction,
    {
        let blank = GameInput::new(NULL_FRAME, None, input_size);
        let mut inputs: Vec<GameInput> = Vec::new();
        let mut i: usize = 0;
        while i < INPUT_QUEUE_LENGTH
            invariant
                i <= INPUT_QUEUE_LENGTH,
                inputs@.len() == i,
                forall|j: int| 0 <= j < i ==> #[trigger] inputs@[j] == blank,
            decreases INPUT_QUEUE_LENGTH - i,
        {
            inputs.push(blank);
            i = i + 1;
        }
        InputQueue {
            id,
            head: 0,
            tail: 0,
            length: 0,
            first_frame: true,
            last_added_frame: NULL_FRAME,
            first_incorrect_frame: NULL_FRAME,
            last_requested_frame: NULL_FRAME,
            frame_delay: 0,
            inputs,
            prediction: blank,
        }
    }

    /// The last frame an input was stored for, or `NULL_FRAME`.
    pub fn get_last_confirmed_frame(&self) -> (r: FrameNumber)
        ensures
            r == self@.last_added_frame,
    {
        self.last_added_frame
    }

    /// The first frame known to have been predicted incorrectly, or `NULL_FRAME`.
    pub fn get_first_incorrect_frame(&self) -> (r: FrameNumber)
        ensures
            r == self@.first_incorrect_frame,
    {
        self.first_incorrect_frame
    }

    /// The number of inputs the queue currently holds.
    pub fn length(&self) -> (r: usize)
        ensures
            r == self@.length,
    {
        self.length
    }

    /// Sets the frame delay.
    pub fn set_frame_delay(&mut self, delay: u32)
        ensures
            final(self)@ == (InputQueueView { frame_delay: delay, ..old(self)@ }),
    {
        self.frame_delay = delay;
    }

    /// Leaves prediction mode. `frame` must not be past a known incorrect frame.
    pub fn reset_prediction(&mut self, frame: FrameNumber)
        requires
            old(self)@.first_incorrect_frame == NULL_FRAME || frame
                <= old(self)@.first_incorrect_frame,
        ensures
            final(self)@ == (InputQueueView {
                prediction: with_frame(old(self)@.prediction, NULL_FRAME),
                first_incorrect_frame: NULL_FRAME,
                last_requested_frame: NULL_FRAME,
                ..old(self)@
            }),
    {
        self.prediction.frame = NULL_FRAME;
        self.first_incorrect_frame = NULL_FRAME;
        self.last_requested_frame = NULL_FRAME;
        assert(self.prediction == with_frame(old(self)@.prediction, NULL_FRAME));
    }

    /// Returns the confirmed input for `requested_frame`: the stored input of that frame. Fails
    /// when a wrong prediction was detected at or before the requested frame (its input is not
    /// confirmed), and when the frame's ring slot holds another frame.
    pub fn get_confirmed_input(&self, requested_frame: FrameNumber) -> (r: Result<
        GameInput,
        GGEZError,
    >)
        requires
            self@.wf(),
        ensures
            ({
                let v = self@;
                let slot = (requested_frame as usize) as int % INPUT_QUEUE_LENGTH as int;
                if v.first_incorrect_frame != NULL_FRAME && v.first_incorrect_frame
                    <= requested_frame {
                    r matches Err(GGEZError::GeneralFailure(m)) && m@
                        == "InputQueue::get_confirmed_input(): The requested confirmed input is beyond a detected incorrect frame."@
                } else if v.inputs[slot].frame == requested_frame {
                    r == Ok::<GameInput, GGEZError>(v.inputs[slot])
                } else {
                    r matches Err(GGEZError::GeneralFailure(m)) && m@
                        == "InputQueue::get_confirmed_input(): The requested confirmed input could not be found"@
                }
            }),
    {
        if self.first_incorrect_frame != NULL_FRAME && self.first_incorrect_frame
            <= requested_frame {
            return Err(
                GGEZError::GeneralFailure(
                    "InputQueue::get_confirmed_input(): The requested confirmed input is beyond a detected incorrect frame.".to_owned(),
                ),
            );
        }
        let offset = (#[verifier::truncate] (requested_frame as usize)) % INPUT_QUEUE_LENGTH;
        if self.inputs[offset].frame == requested_frame {
            return Ok(self.inputs[offset]);
        }
        Err(
            GGEZError::GeneralFailure(
                "InputQueue::get_confirmed_input(): The requested confirmed input could not be found".to_owned(),
            ),
        )
    }

    /// Discards confirmed frames up to `frame` (but never past the last requested frame). When
    /// the bound reaches the last added frame, the tail moves to the head; a bound before the
    /// oldest held frame discards nothing.
    pub fn discard_confirmed_frames(&mut self, frame: FrameNumber)
        requires
            old(self)@.wf(),
            ({
                let v = old(self)@;
                let fr = v.discard_bound(frame as int);
                fr < v.last_added_frame && v.tail_frame() <= fr ==> fr - v.tail_frame()
                    <= v.length
            }),
        ensures
            final(self)@ == old(self)@.after_discard(frame as int),
            final(self)@.wf(),
    {
        let mut frame = frame;
        if self.last_requested_frame != NULL_FRAME && self.last_requested_frame < frame {
            frame = self.last_requested_frame;
        }
        if frame >= self.last_added_frame {
            self.tail = self.head;
        } else if frame < self.inputs[self.tail].frame {
        } else {
            let offset = (frame - self.inputs[self.tail].frame) as usize;
            self.tail = (self.tail + offset) % INPUT_QUEUE_LENGTH;
            self.length = self.length - offset;
        }
    }

    /// Returns the input of the player for `requested_frame`, or a prediction when the queue
    /// does not hold it: the last stored input (zeroed for frame 0 or before any input) moved
    /// to the requested frame.
    pub fn get_input(&mut self, requested_frame: FrameNumber) -> (r: GameInput)
        requires
            old(self)@.input_ok(requested_frame as int),
        ensures
            final(self)@ == old(self)@.after_input(requested_frame as int),
            r == old(self)@.input_value(requested_frame as int),
            final(self)@.wf(),
            old(self)@.clean() ==> final(self)@.clean(),
    {
        self.last_requested_frame = requested_frame;
        if self.prediction.frame < 0 {
            let tail_frame = self.inputs[self.tail].frame;
            let offset: usize = (requested_frame - tail_frame) as usize;
            if offset < self.length {
                let slot = (offset + self.tail) % INPUT_QUEUE_LENGTH;
                return self.inputs[slot];
            }
            if requested_frame == 0 || self.last_added_frame == NULL_FRAME {
                self.prediction.erase_bits();
            } else {
                let previous_position: usize = if self.head == 0 {
                    INPUT_QUEUE_LENGTH - 1
                } else {
                    self.head - 1
                };
                self.prediction = self.inputs[previous_position];
            }
            self.prediction.frame = self.prediction.frame + 1;
            assert(self.prediction == old(self)@.new_prediction(requested_frame as int)) by {
                assert(self.prediction.bits =~= old(self)@.new_prediction(
                    requested_frame as int,
                ).bits);
            }
        }
        let mut prediction_to_return = self.prediction;
        prediction_to_return.frame = requested_frame;
        prediction_to_return
    }

    /// Adds the input for the next frame; it is stored at that frame plus the frame delay, or
    /// dropped when that frame was already passed. When the frame delay grew, the frames in
    /// between are first filled with copies of the last stored input.
    pub fn add_input(&mut self, input: &GameInput)
        requires
            old(self)@.add_input_ok(*input),
        ensures
            final(self)@ == old(self)@.after_add(*input),
            final(self)@.consistent(),
    {
        let previous_position: usize = if self.head == 0 {
            INPUT_QUEUE_LENGTH - 1
        } else {
            self.head - 1
        };
        let mut expected_frame: FrameNumber = if self.first_frame {
            0
        } else {
            self.inputs[previous_position].frame + 1
        };
        let input_frame = input.frame + (#[verifier::truncate] (self.frame_delay as i32));
        if expected_frame > input_frame {
            return ;
        }
        let base = self.inputs[previous_position];
        let ghost v0 = self@;
        let ghost from = expected_frame as int;
        proof {
            lemma_filled_steps(v0, base, from, 0);
        }
        while expected_frame < input_frame
            invariant
                v0 == old(self)@,
                v0.add_input_ok(*input),
                base == v0.fill_base(),
                from == v0.expected_frame(),
                input_frame == v0.delayed(input.frame),
                from <= expected_frame <= input_frame,
                self@ == v0.filled(base, from, (expected_frame - from) as nat),
                self@.consistent(),
                self@.expected_frame() == expected_frame,
                self@.length == v0.length + (expected_frame - from),
                self@.prediction.size == v0.prediction.size,
            decreases input_frame - expected_frame,
        {
            proof {
                lemma_filled_steps(v0, base, from, (expected_frame - from + 1) as nat);
            }
            self.add_input_by_frame(base, expected_frame);
            expected_frame = expected_frame + 1;
        }
        self.add_input_by_frame(*input, input_frame);
    }

    /// Stores `input` for `frame`, the frame the queue expects next (see `add_step`).
    fn add_input_by_frame(&mut self, input: GameInput, frame: FrameNumber)
        requires
            old(self)@.consistent(),
            frame == old(self)@.expected_frame(),
            frame < i32::MAX,
            old(self)@.length < INPUT_QUEUE_LENGTH,
            input.size == old(self)@.prediction.size,
        ensures
            final(self)@ == old(self)@.add_step(input, frame as int),
            final(self)@.consistent(),
            final(self)@.expected_frame() == frame + 1,
            final(self)@.length == old(self)@.length + 1,
            final(self)@.prediction.size == old(self)@.prediction.size,
    {
        let mut stored = input;
        stored.frame = frame;
        let h = self.head;
        self.inputs[h] = stored;
        self.head = (self.head + 1) % INPUT_QUEUE_LENGTH;
        self.length = self.length + 1;
        self.first_frame = false;
        self.last_added_frame = frame;
        if self.prediction.frame != NULL_FRAME {
            if self.first_incorrect_frame == NULL_FRAME && !self.prediction.equal(&input, true) {
                self.first_incorrect_frame = frame;
            }
            if self.prediction.frame == self.last_requested_frame && self.first_incorrect_frame
                == NULL_FRAME {
                self.prediction.frame = NULL_FRAME;
            } else {
                self.prediction.frame = self.prediction.frame + 1;
            }
        }
        proof {
            let v = old(self)@.add_step(input, frame as int);
            assert(self.inputs@ =~= v.inputs);
        }
    }

    /// Whether `add_input(input)` can store the input: see `InputQueueView::add_input_ok`.
    pub fn accepts(&self, input: &GameInput) -> (r: bool)
        requires
            self@.wf(),
        ensures
            r == self@.add_input_ok(*input),
    {
        let prev: usize = if self.head == 0 {
            INPUT_QUEUE_LENGTH - 1
        } else {
            self.head - 1
        };
        let no_input = self.last_added_frame == NULL_FRAME;
        let consistent = (self.first_frame == no_input) && self.last_added_frame >= NULL_FRAME
            && (no_input || self.inputs[prev].frame == self.last_added_frame) && (
        self.prediction.frame == NULL_FRAME || self.prediction.frame as i64
            == self.last_added_frame as i64 + 1);
        if !consistent || input.size != self.prediction.size {
            return false;
        }
        let delay: i32 = #[verifier::truncate] (self.frame_delay as i32);
        if !no_input && input.frame as i64 + delay as i64 != self.last_added_frame as i64 + 1 {
            return false;
        }
        let delayed: i64 = input.frame as i64 + delay as i64;
        if delayed < i32::MIN as i64 || delayed >= i32::MAX as i64 {
            return false;
        }
        let expected: i64 = if self.first_frame {
            0
        } else {
            self.inputs[prev].frame as i64 + 1
        };
        delayed < expected || (self.length as i64) + (delayed - expected) < INPUT_QUEUE_LENGTH as i64
    }
}

/// Filling frames one after the other: after `k` steps from the expected frame `from`, the
/// queue expects the frame `from + k` and holds `k` more inputs.
proof fn lemma_filled_steps(v: InputQueueView, base: GameInput, from: int, k: nat)
    requires
        v.consistent(),
        from == v.expected_frame(),
        from + k <= i32::MAX,
        v.length + k <= INPUT_QUEUE_LENGTH,
        base.size == v.prediction.size,
    ensures
        v.filled(base, from, k).consistent(),
        v.filled(base, from, k).expected_frame() == from + k,
        v.filled(base, from, k).length == v.length + k,
        v.filled(base, from, k).prediction.size == v.prediction.size,
    decreases k,
{
    if k > 0 {
        lemma_filled_steps(v, base, from, (k - 1) as nat);
        lemma_step_consistent(v.filled(base, from, (k - 1) as nat), base, from + k - 1);
    }
}

/// Storing an input for the expected frame keeps a queue consistent; it then expects the next
/// frame and holds one more input.
proof fn lemma_step_consistent(v: InputQueueView, x: GameInput, f: int)
    requires
        v.consistent(),
        f == v.expected_frame(),
        f < i32::MAX,
        v.length < INPUT_QUEUE_LENGTH,
        x.size == v.prediction.size,
    ensures
        v.add_step(x, f).consistent(),
        v.add_step(x, f).expected_frame() == f + 1,
        v.add_step(x, f).length == v.length + 1,
        v.add_step(x, f).prediction.size == v.prediction.size,
{
    let w = v.add_step(x, f);
    assert(prev_pos(w.head) == v.head as int);
}

/// Storing an input for the expected frame of a clean queue with room keeps it clean: the
/// queue then holds the input at that frame and still holds every input it held before.
proof fn lemma_step_clean(v: InputQueueView, x: GameInput, f: int)
    requires
        v.clean(),
        f == v.expected_frame(),
        f < i32::MAX,
        v.length < INPUT_QUEUE_LENGTH,
        x.size == v.prediction.size,
    ensures
        v.add_step(x, f).clean(),
        v.add_step(x, f).holds(f),
        v.add_step(x, f).stored(f) == with_frame(x, f as i32),
        forall|g: int| v.holds(g) ==> v.add_step(x, f).holds(g) && v.add_step(x, f).stored(g) == v.stored(g),
{
    lemma_step_consistent(v, x, f);
    let w = v.add_step(x, f);
    let n = INPUT_QUEUE_LENGTH as int;
    assert(v.last_added_frame == NULL_FRAME ==> v.length == 0);
    assert forall|k: int| 0 <= k < w.length implies (#[trigger] w.inputs[(w.tail + k) % n]).frame
        == w.last_added_frame - (w.length - 1 - k) by {
        if k < v.length {
            assert((v.tail + k) % n != v.head as int);
        } else {
            assert((w.tail + k) % n == v.head as int);
        }
    }
    assert forall|g: int| v.holds(g) implies w.holds(g) && w.stored(g) == v.stored(g) by {
        let k = g - v.oldest_frame();
        assert((v.tail + k) % n != v.head as int);
    }
    assert((w.tail + (f - w.oldest_frame())) % n == v.head as int);
}

/// Filling frames keeps a clean queue clean and keeps every input it held.
proof fn lemma_filled_clean(v: InputQueueView, base: GameInput, from: int, k: nat)
    requires
        v.clean(),
        from == v.expected_frame(),
        from + k <= i32::MAX,
        v.length + k <= INPUT_QUEUE_LENGTH,
        base.size == v.prediction.size,
    ensures
        v.filled(base, from, k).clean(),
        forall|g: int| v.holds(g) ==> v.filled(base, from, k).holds(g) && v.filled(base, from, k).stored(g)
            == v.stored(g),
    decreases k,
{
    if k > 0 {
        lemma_filled_clean(v, base, from, (k - 1) as nat);
        lemma_filled_steps(v, base, from, (k - 1) as nat);
        lemma_step_clean(v.filled(base, from, (k - 1) as nat), base, from + k - 1);
    }
}

/// While a prediction runs and no wrong prediction is known, the prediction carries the bytes
/// of the newest stored input.
pub open spec fn predicts_last(v: InputQueueView) -> bool {
    v.prediction.frame != NULL_FRAME && v.first_incorrect_frame == NULL_FRAME
        && v.last_added_frame != NULL_FRAME ==> v.prediction.bits@ == v.inputs[prev_pos(
        v.head,
    )].bits@
}

/// The running prediction repeats the newest stored input: a prediction started for a frame
/// other than 0 takes the bytes of the newest stored input; storing the expected frame's input
/// while no wrong prediction is known keeps it so (a matching input has the prediction's
/// bytes, a differing one records the wrong prediction); and requests during a running
/// prediction leave it as it is.
pub proof fn lemma_prediction_repeats_last(v: InputQueueView, req: int, x: GameInput, f: int)
    requires
        v.consistent(),
        predicts_last(v),
    ensures
        req != 0 ==> predicts_last(v.after_input(req)),
        f == v.expected_frame() && v.length < INPUT_QUEUE_LENGTH && f < i32::MAX && x.size
            == v.prediction.size ==> predicts_last(v.add_step(x, f)),
{
    if f == v.expected_frame() && v.length < INPUT_QUEUE_LENGTH && f < i32::MAX && x.size
        == v.prediction.size {
        let w = v.add_step(x, f);
        assert(prev_pos(w.head) == v.head as int);
    }
}

/// Filling frames keeps the queue's player and input size.
proof fn lemma_filled_keeps_shape(v: InputQueueView, base: GameInput, from: int, k: nat)
    ensures
        v.filled(base, from, k).id == v.id,
        v.filled(base, from, k).prediction.size == v.prediction.size,
    decreases k,
{
    if k > 0 {
        lemma_filled_keeps_shape(v, base, from, (k - 1) as nat);
    }
}

/// Adding an input keeps the queue's player and input size.
pub(crate) proof fn lemma_added_keeps_shape(v: InputQueueView, x: GameInput)
    ensures
        v.after_add(x).id == v.id,
        v.after_add(x).prediction.size == v.prediction.size,
{
    lemma_filled_keeps_shape(v, v.fill_base(), v.expected_frame(), v.gap(v.delayed(x.frame)) as nat);
}

/// Adding an input to a clean queue keeps it clean; the queue then holds the input at its
/// delayed frame (unless it was dropped) and still holds every input it held before.
pub proof fn lemma_add_input_clean(v: InputQueueView, x: GameInput)
    requires
        v.clean(),
        v.add_input_ok(x),
    ensures
        v.after_add(x).clean(),
        v.delayed(x.frame) >= v.expected_frame() ==> v.after_add(x).holds(v.delayed(x.frame))
            && v.after_add(x).stored(v.delayed(x.frame)) == with_frame(x, v.delayed(x.frame) as i32),
        forall|g: int| v.holds(g) ==> v.after_add(x).holds(g) && v.after_add(x).stored(g) == v.stored(g),
{
    let f = v.delayed(x.frame);
    let from = v.expected_frame();
    if f >= from {
        let k = (f - from) as nat;
        let base = v.fill_base();
        lemma_filled_clean(v, base, from, k);
        lemma_filled_steps(v, base, from, k);
        let u = v.filled(base, from, k);
        lemma_step_clean(u, x, f);
    }
}

/// Filling frames stores a copy of `base` at each filled frame.
proof fn lemma_filled_copies(v: InputQueueView, base: GameInput, from: int, k: nat)
    requires
        v.clean(),
        from == v.expected_frame(),
        from + k <= i32::MAX,
        v.length + k <= INPUT_QUEUE_LENGTH,
        base.size == v.prediction.size,
    ensures
        forall|g: int|
            from <= g < from + k ==> v.filled(base, from, k).holds(g) && #[trigger] v.filled(
                base,
                from,
                k,
            ).stored(g) == with_frame(base, g as i32),
    decreases k,
{
    if k > 0 {
        let k1 = (k - 1) as nat;
        lemma_filled_copies(v, base, from, k1);
        lemma_filled_clean(v, base, from, k1);
        lemma_filled_steps(v, base, from, k1);
        let u = v.filled(base, from, k1);
        lemma_step_clean(u, base, from + k1);
        assert forall|g: int| from <= g < from + k implies v.filled(base, from, k).holds(g)
            && #[trigger] v.filled(base, from, k).stored(g) == with_frame(base, g as i32) by {
            if g < from + k1 {
                assert(u.holds(g) && u.stored(g) == with_frame(base, g as i32));
            }
        }
    }
}

/// When adding an input opens a gap of frames (the first input under a frame delay), every
/// frame of the gap holds a copy of the input stored before the add (the blank input of a new
/// queue), moved to that frame, and the given input is stored at its delayed frame.
pub proof fn lemma_gap_repeats_previous(v: InputQueueView, x: GameInput)
    requires
        v.clean(),
        v.add_input_ok(x),
    ensures
        forall|g: int|
            v.expected_frame() <= g < v.delayed(x.frame) ==> v.after_add(x).holds(g)
                && #[trigger] v.after_add(x).stored(g) == with_frame(
                v.inputs[prev_pos(v.head)],
                g as i32,
            ),
        v.delayed(x.frame) >= v.expected_frame() ==> v.after_add(x).holds(v.delayed(x.frame))
            && v.after_add(x).stored(v.delayed(x.frame)) == with_frame(
            x,
            v.delayed(x.frame) as i32,
        ),
{
    let f = v.delayed(x.frame);
    let from = v.expected_frame();
    if f >= from {
        let k = (f - from) as nat;
        let base = v.inputs[prev_pos(v.head)];
        lemma_filled_copies(v, base, from, k);
        lemma_filled_clean(v, base, from, k);
        lemma_filled_steps(v, base, from, k);
        let u = v.filled(base, from, k);
        lemma_step_clean(u, x, f);
        assert forall|g: int| from <= g < f implies v.after_add(x).holds(g)
            && #[trigger] v.after_add(x).stored(g) == with_frame(base, g as i32) by {
            assert(u.holds(g) && u.stored(g) == with_frame(base, g as i32));
        }
    }
}

/// In a clean queue that is not predicting, requesting a frame the queue holds returns the
/// input stored for that frame.
pub proof fn lemma_input_reads_held(v: InputQueueView, f: int)
    requires
        v.clean(),
        v.prediction.frame == NULL_FRAME,
        v.first_incorrect_frame == NULL_FRAME,
        v.holds(f),
    ensures
        v.input_ok(f),
        v.input_value(f) == v.stored(f),
        v.input_value(f).frame == f,
{
    let n = INPUT_QUEUE_LENGTH as int;
    assert(v.inputs[(v.tail + 0) % n].frame == v.last_added_frame - (v.length - 1 - 0));
    let k = f - v.oldest_frame();
    assert(v.inputs[(v.tail + k) % n].frame == v.last_added_frame - (v.length - 1 - k));
}

/// Discarding the confirmed frames of a clean queue up to a bound it holds, before its last
/// added frame, keeps it clean and keeps every frame from the bound on: the queue then holds
/// exactly the frames from the bound to the last added one, with the inputs it held for them.
#[verifier::rlimit(60)]
#[verifier::spinoff_prover]
pub proof fn lemma_discard_keeps_later(v: InputQueueView, frame: int)
    requires
        v.clean(),
        v.holds(v.discard_bound(frame)),
        v.discard_bound(frame) < v.last_added_frame,
    ensures
        v.after_discard(frame).clean(),
        v.after_discard(frame).oldest_frame() == v.discard_bound(frame),
        v.after_discard(frame).last_added_frame == v.last_added_frame,
        forall|g: int|
            v.discard_bound(frame) <= g <= v.last_added_frame ==> v.after_discard(frame).holds(g)
                && #[trigger] v.after_discard(frame).stored(g) == v.stored(g),
{
    let n = INPUT_QUEUE_LENGTH as int;
    let fr = v.discard_bound(frame);
    assert(v.inputs[(v.tail + 0) % n].frame == v.last_added_frame - (v.length - 1 - 0));
    assert(v.tail_frame() == v.oldest_frame());
    let offset = fr - v.tail_frame();
    let w = InputQueueView {
        tail: ((v.tail + offset) % n) as usize,
        length: (v.length - offset) as usize,
        ..v
    };
    assert(w == v.after_discard(frame));
    assert(w.consistent());
    assert((w.tail + w.length) % n == w.head) by {
        lemma_add_mod_noop_right(w.length as int, v.tail + offset, n);
    }
    assert forall|k: int| 0 <= k < w.length implies (#[trigger] w.inputs[(w.tail + k) % n]).frame
        == w.last_added_frame - (w.length - 1 - k) by {
        lemma_add_mod_noop_right(k, v.tail + offset, n);
        assert((w.tail + k) % n == (v.tail + (offset + k)) % n);
        assert(v.inputs[(v.tail + (offset + k)) % n].frame == v.last_added_frame - (v.length - 1 - (
        offset + k)));
    }
    assert forall|g: int| fr <= g <= v.last_added_frame implies w.holds(g) && #[trigger] w.stored(g)
        == v.stored(g) by {
        lemma_add_mod_noop_right(g - fr, v.tail + offset, n);
        assert((w.tail + (g - w.oldest_frame())) % n == (v.tail + (g - v.oldest_frame())) % n);
    }
}

/// The queue after the inputs `xs` were added in turn.
pub open spec fn added_all(v: InputQueueView, xs: Seq<GameInput>) -> InputQueueView
    decreases xs.len(),
{
    if xs.len() == 0 {
        v
    } else {
        added_all(v, xs.drop_last()).after_add(xs.last())
    }
}

/// Whether each input of `xs` could be added in turn (see `add_input_ok`).
pub open spec fn adds_ok(v: InputQueueView, xs: Seq<GameInput>) -> bool
    decreases xs.len(),
{
    xs.len() == 0 || (adds_ok(v, xs.drop_last()) && added_all(v, xs.drop_last()).add_input_ok(
        xs.last(),
    ))
}

/// Filling frames keeps the frame delay.
proof fn lemma_filled_keeps_delay(v: InputQueueView, base: GameInput, from: int, k: nat)
    ensures
        v.filled(base, from, k).frame_delay == v.frame_delay,
    decreases k,
{
    if k > 0 {
        lemma_filled_keeps_delay(v, base, from, (k - 1) as nat);
    }
}

/// The last confirmed frame of a queue is the delayed frame of its newest input: adding a
/// sequence of inputs to a new queue, where each could be added in turn and the first is not
/// dropped, leaves the frame of the last input plus the frame delay as the last added frame.
pub proof fn lemma_last_added_is_newest(v: InputQueueView, xs: Seq<GameInput>)
    requires
        v.first_frame,
        xs.len() > 0,
        adds_ok(v, xs),
        xs[0].frame + (v.frame_delay as i32) >= 0,
    ensures
        added_all(v, xs).last_added_frame == xs.last().frame + (v.frame_delay as i32),
        added_all(v, xs).last_added_frame >= 0,
        added_all(v, xs).frame_delay == v.frame_delay,
    decreases xs.len(),
{
    let u = added_all(v, xs.drop_last());
    let x = xs.last();
    if xs.len() == 1 {
        assert(xs.drop_last() =~= Seq::<GameInput>::empty());
        assert(u == v);
        assert(x == xs[0]);
    } else {
        assert(xs.drop_last()[0] == xs[0]);
        lemma_last_added_is_newest(v, xs.drop_last());
        assert(u.last_added_frame != NULL_FRAME);
    }
    let f = u.delayed(x.frame);
    lemma_filled_keeps_delay(u, u.fill_base(), u.expected_frame(), u.gap(f) as nat);
}

} // verus!
