use vstd::prelude::*;

use crate::frame_info::{same_bytes, GameInput};
use crate::{Frame, PlayerHandle, MAX_INPUT_BYTES, NULL_FRAME};

verus! {

broadcast use {vstd::array::axiom_spec_array_fill_for_copy_type, vstd::array::axiom_array_ext_equal};

/// The length of the input queue. This describes the number of inputs that can be held at the
/// same time per player.
pub const INPUT_QUEUE_LENGTH: usize = 128;

/// The ring position just before `head`.
pub open spec fn prev_pos(head: usize) -> int {
    if head == 0 {
        INPUT_QUEUE_LENGTH - 1
    } else {
        head - 1
    }
}

/// `input` stored for frame `f`: same size and bytes, frame replaced.
pub open spec fn with_frame(input: GameInput, f: Frame) -> GameInput {
    GameInput { frame: f, size: input.size, buffer: input.buffer }
}

/// `input` with every byte of its buffer set to zero.
pub open spec fn zeroed(input: GameInput) -> GameInput {
    GameInput { frame: input.frame, size: input.size, buffer: vstd::array::spec_array_fill_for_copy_type::<u8, 8>(0u8) }
}

/// The abstract state of an [`InputQueue`].
pub struct InputQueueView {
    pub id: PlayerHandle,
    pub head: usize,
    pub tail: usize,
    pub length: usize,
    pub first_frame: bool,
    pub last_added_frame: Frame,
    pub first_incorrect_frame: Frame,
    pub last_requested_frame: Frame,
    pub frame_delay: u32,
    pub inputs: Seq<GameInput>,
    pub prediction: GameInput,
}

impl InputQueueView {
    /// The ring has its fixed length, the cursors stay in the ring, all slots hold inputs of the
    /// queue's input size, and frames are never below `NULL_FRAME`.
    pub open spec fn wf(self) -> bool {
        &&& self.inputs.len() == INPUT_QUEUE_LENGTH
        &&& self.head < INPUT_QUEUE_LENGTH
        &&& self.tail < INPUT_QUEUE_LENGTH
        &&& self.length <= INPUT_QUEUE_LENGTH
        &&& self.prediction.size <= MAX_INPUT_BYTES
        &&& forall|i: int|
            0 <= i < INPUT_QUEUE_LENGTH ==> (#[trigger] self.inputs[i]).size == self.prediction.size
                && self.inputs[i].frame >= NULL_FRAME
    }

    /// The invariant every reachable queue keeps: the slot before `head` holds the last added
    /// frame, and a running prediction is always for the frame after it.
    pub open spec fn consistent(self) -> bool {
        &&& self.wf()
        &&& self.first_frame <==> self.last_added_frame == NULL_FRAME
        &&& self.last_added_frame >= NULL_FRAME
        &&& self.last_added_frame != NULL_FRAME ==> self.inputs[prev_pos(self.head)].frame
            == self.last_added_frame
        &&& self.prediction.frame == NULL_FRAME || self.prediction.frame == self.last_added_frame
            + 1
    }

    /// The queue holds exactly the consecutive frames ending at the last added frame, from
    /// `tail` on, and `head` is the slot after the newest one.
    pub open spec fn clean(self) -> bool {
        &&& self.consistent()
        &&& (self.tail + self.length) % (INPUT_QUEUE_LENGTH as int) == self.head
        &&& (self.length == 0 <==> self.last_added_frame == NULL_FRAME)
        &&& forall|k: int|
            0 <= k < self.length ==> (#[trigger] self.inputs[(self.tail + k) % (
            INPUT_QUEUE_LENGTH as int)]).frame == self.last_added_frame - (self.length - 1 - k)
    }

    /// The state of a queue just made by `InputQueue::new(id, input_size)`: empty, no delay, no
    /// prediction, and every slot a zeroed input of `input_size` bytes for no frame.
    pub open spec fn is_new(self, id: PlayerHandle, input_size: usize) -> bool {
        &&& self.clean()
        &&& self.id == id
        &&& self.head == 0 && self.tail == 0 && self.length == 0
        &&& self.first_frame
        &&& self.last_added_frame == NULL_FRAME
        &&& self.first_incorrect_frame == NULL_FRAME
        &&& self.last_requested_frame == NULL_FRAME
        &&& self.frame_delay == 0
        &&& self.prediction.frame == NULL_FRAME && self.prediction.size == input_size
        &&& forall|i: int| 0 <= i < 8 ==> self.prediction.buffer[i] == 0
        &&& forall|i: int| 0 <= i < INPUT_QUEUE_LENGTH ==> #[trigger] self.inputs[i] == self.prediction
    }

    /// The oldest frame still held by a clean queue.
    pub open spec fn oldest_frame(self) -> int {
        self.last_added_frame - self.length + 1
    }

    /// Whether a clean queue holds an input for frame `f`.
    pub open spec fn holds(self, f: int) -> bool {
        self.length > 0 && self.oldest_frame() <= f <= self.last_added_frame
    }

    /// The input a clean queue holds for frame `f`.
    pub open spec fn stored(self, f: int) -> GameInput {
        self.inputs[(self.tail + (f - self.oldest_frame())) % (INPUT_QUEUE_LENGTH as int)]
    }

    /// Whether `add_step` can store `input` for frame `f` without breaking an internal check.
    pub open spec fn add_step_ok(self, input: GameInput, f: int) -> bool {
        &&& input.size == self.prediction.size
        &&& 0 <= f < i32::MAX
        &&& self.last_added_frame == NULL_FRAME || f == self.last_added_frame + 1
        &&& f == 0 || self.inputs[prev_pos(self.head)].frame == f - 1
        &&& self.length < INPUT_QUEUE_LENGTH
        &&& self.prediction.frame != NULL_FRAME ==> f == self.prediction.frame
    }

    /// Stores `input` for frame `f` at `head` and updates the prediction bookkeeping: a
    /// running prediction that disagrees with the stored input marks `f` as the first incorrect
    /// frame; a prediction that reaches the last requested frame without any mismatch ends.
    pub open spec fn add_step(self, input: GameInput, f: int) -> InputQueueView {
        let v1 = InputQueueView {
            inputs: self.inputs.update(self.head as int, with_frame(input, f as i32)),
            head: ((self.head + 1) % (INPUT_QUEUE_LENGTH as int)) as usize,
            length: (self.length + 1) as usize,
            first_frame: false,
            last_added_frame: f as i32,
            ..self
        };
        if self.prediction.frame != NULL_FRAME {
            let matches = self.prediction.size == input.size && same_bytes(
                self.prediction.buffer,
                input.buffer,
            );
            let fi = if self.first_incorrect_frame == NULL_FRAME && !matches {
                f as i32
            } else {
                self.first_incorrect_frame
            };
            let pf = if self.prediction.frame == self.last_requested_frame && fi == NULL_FRAME {
                NULL_FRAME
            } else {
                (self.prediction.frame + 1) as i32
            };
            InputQueueView {
                first_incorrect_frame: fi,
                prediction: with_frame(self.prediction, pf),
                ..v1
            }
        } else {
            v1
        }
    }

    /// Stores copies of `rep` for the frames `e .. f` one by one.
    pub open spec fn fill(self, rep: GameInput, e: int, f: int) -> InputQueueView
        decreases f - e,
    {
        if e >= f {
            self
        } else {
            self.fill(rep, e, f - 1).add_step(rep, f - 1)
        }
    }

    /// The frame the next stored input must have.
    pub open spec fn expected_frame(self) -> int {
        if self.first_frame {
            0
        } else {
            self.inputs[prev_pos(self.head)].frame + 1
        }
    }

    /// The frame an input given for `frame` is stored at, after the frame delay.
    pub open spec fn delayed(self, frame: Frame) -> int {
        frame + (self.frame_delay as i32)
    }

    /// The frame `add_input` reports: the delayed frame, or `NULL_FRAME` when the delayed frame
    /// was already passed (the delay dropped) and the input is dropped.
    pub open spec fn add_result(self, input: GameInput) -> int {
        if self.expected_frame() > self.delayed(input.frame) {
            NULL_FRAME as int
        } else {
            self.delayed(input.frame)
        }
    }

    /// The state after `add_input(input)`: when the delay grew, the last stored input is
    /// replicated for the skipped frames, then `input` is stored at its delayed frame.
    pub open spec fn after_add(self, input: GameInput) -> InputQueueView {
        let e = self.expected_frame();
        let f = self.delayed(input.frame);
        if e > f {
            self
        } else {
            self.fill(self.inputs[prev_pos(self.head)], e, f).add_step(input, f)
        }
    }

    /// How many inputs `add_input(input)` stores.
    pub open spec fn add_count(self, input: GameInput) -> int {
        let e = self.expected_frame();
        let f = self.delayed(input.frame);
        if e > f {
            0
        } else {
            f - e + 1
        }
    }

    /// The inputs `add_input(input)` accepts without tripping an internal check: sequential
    /// frames, matching size, no frame overflow and enough room in the ring.
    pub open spec fn add_input_ok(self, input: GameInput) -> bool {
        &&& self.consistent()
        &&& input.size == self.prediction.size
        &&& i32::MIN <= input.frame + (self.frame_delay as i32) < i32::MAX
        &&& self.last_added_frame == NULL_FRAME || self.delayed(input.frame)
            == self.last_added_frame + 1
        &&& self.length + self.add_count(input) <= INPUT_QUEUE_LENGTH
    }

    /// The oldest frame a request may ask for: the frame in the `tail` slot.
    pub open spec fn tail_frame(self) -> int {
        self.inputs[self.tail as int].frame as int
    }

    /// Whether `input(req)` reads straight from the queue (no running prediction and the
    /// frame is within `length` slots of the tail).
    pub open spec fn reads_queue(self, req: int) -> bool {
        self.prediction.frame < 0 && req - self.tail_frame() < self.length
    }

    /// The slot `input(req)` reads when `reads_queue(req)`.
    pub open spec fn read_slot(self, req: int) -> int {
        (req - self.tail_frame() + self.tail) % (INPUT_QUEUE_LENGTH as int)
    }

    /// The prediction `input(req)` starts when it has to start one: zeroed for frame 0 or
    /// before any input, otherwise the last stored input; its frame is one past the base.
    pub open spec fn new_prediction(self, req: int) -> GameInput {
        let base = self.prediction_base(req);
        with_frame(base, (base.frame + 1) as i32)
    }

    /// What a new prediction for `req` is based on.
    pub open spec fn prediction_base(self, req: int) -> GameInput {
        if req == 0 || self.last_added_frame == NULL_FRAME {
            zeroed(self.prediction)
        } else {
            self.inputs[prev_pos(self.head)]
        }
    }

    /// The requests `input(req)` serves without tripping an internal check.
    pub open spec fn input_ok(self, req: int) -> bool {
        &&& self.consistent()
        &&& self.first_incorrect_frame == NULL_FRAME
        &&& self.tail_frame() <= req <= i32::MAX
        &&& req - self.tail_frame() <= i32::MAX
        &&& self.reads_queue(req) ==> self.inputs[self.read_slot(req)].frame == req
        &&& !self.reads_queue(req) && self.prediction.frame < 0 ==> self.prediction_base(req).frame
            + 1 != NULL_FRAME && self.prediction_base(req).frame < i32::MAX
    }

    /// The state after `input(req)`: the request is remembered, and a prediction is started
    /// when the frame is not in the queue.
    pub open spec fn after_input(self, req: int) -> InputQueueView {
        let v1 = InputQueueView { last_requested_frame: req as i32, ..self };
        if self.prediction.frame < 0 && !self.reads_queue(req) {
            InputQueueView { prediction: self.new_prediction(req), ..v1 }
        } else {
            v1
        }
    }

    /// The input `input(req)` returns: the stored input, or the prediction moved to `req`.
    pub open spec fn input_value(self, req: int) -> GameInput {
        if self.reads_queue(req) {
            self.inputs[self.read_slot(req)]
        } else {
            with_frame(self.after_input(req).prediction, req as i32)
        }
    }

    /// The frame up to which `discard_confirmed_frames(frame)` discards: never past the last
    /// requested frame.
    pub open spec fn discard_bound(self, frame: int) -> int {
        if self.last_requested_frame != NULL_FRAME && self.last_requested_frame < frame {
            self.last_requested_frame as int
        } else {
            frame
        }
    }

    /// The state after `discard_confirmed_frames(frame)`.
    pub open spec fn after_discard(self, frame: int) -> InputQueueView {
        let fr = self.discard_bound(frame);
        if fr >= self.last_added_frame {
            InputQueueView { tail: self.head, length: 1, ..self }
        } else if fr <= self.tail_frame() {
            self
        } else {
            let offset = fr - self.tail_frame();
            InputQueueView {
                tail: ((self.tail + offset) % (INPUT_QUEUE_LENGTH as int)) as usize,
                length: (self.length - offset) as usize,
                ..self
            }
        }
    }
}

/// `InputQueue` handles inputs for a single player and saves them in a circular array. Valid
/// inputs are between `head` and `tail`.
pub struct InputQueue {
    /// Identifies the player this InputQueue belongs to.
    id: PlayerHandle,
    /// The head of the queue. The newest `GameInput` is saved just before it.
    head: usize,
    /// The tail of the queue. The oldest `GameInput` still valid is saved here.
    tail: usize,
    /// The current length of the queue.
    length: usize,
    /// Denotes if we still are in the first frame, an edge case to be considered by some methods.
    first_frame: bool,
    /// The last frame added by the user.
    last_added_frame: Frame,
    /// The first frame in the queue that is known to be an incorrect prediction.
    first_incorrect_frame: Frame,
    /// The last frame that has been requested. Nothing after it is ever deleted.
    last_requested_frame: Frame,
    /// The delay in frames by which inputs are sent back to the user.
    frame_delay: u32,
    /// Our cyclic input queue.
    inputs: Vec<GameInput>,
    /// The prediction handed out while inputs are missing.
    prediction: GameInput,
}

impl View for InputQueue {
    type V = InputQueueView;

    closed spec fn view(&self) -> InputQueueView {
        InputQueueView {
            id: self.id,
            head: self.head,
            tail: self.tail,
            length: self.length,
            first_frame: self.first_frame,
            last_added_frame: self.last_added_frame,
            first_incorrect_frame: self.first_incorrect_frame,
            last_requested_frame: self.last_requested_frame,
            frame_delay: self.frame_delay,
            inputs: self.inputs@,
            prediction: self.prediction,
        }
    }
}

impl InputQueue {
    /// Creates an empty queue for player `id` whose inputs are `input_size` bytes long.
    pub fn new(id: PlayerHandle, input_size: usize) -> (r: Self)
        requires
            input_size <= MAX_INPUT_BYTES,
        ensures
            r@.clean(),
            r@.id == id,
            r@.head == 0 && r@.tail == 0 && r@.length == 0,
            r@.first_frame,
            r@.last_added_frame == NULL_FRAME,
            r@.first_incorrect_frame == NULL_FRAME,
            r@.last_requested_frame == NULL_FRAME,
            r@.frame_delay == 0,
            r@.prediction.frame == NULL_FRAME && r@.prediction.size == input_size,
            forall|i: int| 0 <= i < 8 ==> r@.prediction.buffer[i] == 0,
            forall|i: int|
                0 <= i < INPUT_QUEUE_LENGTH ==> #[trigger] r@.inputs[i] == r@.prediction,
            r@.is_new(id, input_size),
    {
        let blank = GameInput::new(NULL_FRAME, None, input_size);
        let mut inputs: Vec<GameInput> = Vec::new();
        let mut i: usize = 0;
        while i < INPUT_QUEUE_LENGTH
            invariant
                i <= INPUT_QUEUE_LENGTH,
                inputs@.len() == i,
                forall|j: int| 0 <= j < i ==> #[trigger] inputs@[j] == blank,
            decreases INPUT_QUEUE_LENGTH - i,
        {
            inputs.push(blank);
            i = i + 1;
        }
        InputQueue {
            id,
            head: 0,
            tail: 0,
            length: 0,
            first_frame: true,
            last_added_frame: NULL_FRAME,
            first_incorrect_frame: NULL_FRAME,
            last_requested_frame: NULL_FRAME,
            frame_delay: 0,
            inputs,
            prediction: blank,
        }
    }

    /// The first frame known to have been predicted incorrectly, or `NULL_FRAME`.
    pub fn first_incorrect_frame(&self) -> (r: Frame)
        ensures
            r == self@.first_incorrect_frame,
    {
        self.first_incorrect_frame
    }

    /// The last frame an input was stored for, or `NULL_FRAME`.
    pub fn last_added_frame(&self) -> (r: Frame)
        ensures
            r == self@.last_added_frame,
    {
        self.last_added_frame
    }

    /// The number of inputs the queue currently holds.
    pub fn length(&self) -> (r: usize)
        ensures
            r == self@.length,
    {
        self.length
    }

    /// Sets the delay in frames between the frame an input is given for and the frame it is
    /// stored at.
    pub fn set_frame_delay(&mut self, delay: u32)
        ensures
            final(self)@ == (InputQueueView { frame_delay: delay, ..old(self)@ }),
    {
        self.frame_delay = delay;
    }

    /// Leaves prediction mode: forgets the running prediction, the first incorrect frame and the
    /// last requested frame. `frame` must not be past a known incorrect frame.
    pub fn reset_prediction(&mut self, frame: Frame)
        requires
            old(self)@.first_incorrect_frame == NULL_FRAME || frame
                <= old(self)@.first_incorrect_frame,
        ensures
            final(self)@ == (InputQueueView {
                prediction: with_frame(old(self)@.prediction, NULL_FRAME),
                first_incorrect_frame: NULL_FRAME,
                last_requested_frame: NULL_FRAME,
                ..old(self)@
            }),
    {
        self.prediction.frame = NULL_FRAME;
        self.first_incorrect_frame = NULL_FRAME;
        self.last_requested_frame = NULL_FRAME;
        assert(self.prediction == with_frame(old(self)@.prediction, NULL_FRAME));
    }

    /// Returns the stored input for `requested_frame`; the caller must only ask for a frame
    /// whose input is confirmed, i.e. still in its ring slot.
    pub fn confirmed_input(&self, requested_frame: u32) -> (r: GameInput)
        requires
            self@.wf(),
            self@.inputs[requested_frame as int % INPUT_QUEUE_LENGTH as int].frame
                == requested_frame as i32,
        ensures
            r == self@.inputs[requested_frame as int % INPUT_QUEUE_LENGTH as int],
    {
        let offset = requested_frame as usize % INPUT_QUEUE_LENGTH;
        self.inputs[offset]
    }

    /// Discards confirmed frames up to `frame` (but never past the last requested frame). When
    /// the bound reaches the last added frame, all but the most recent slot are released.
    pub fn discard_confirmed_frames(&mut self, frame: Frame)
        requires
            old(self)@.wf(),
            ({
                let v = old(self)@;
                let fr = v.discard_bound(frame as int);
                fr < v.last_added_frame && fr > v.tail_frame() ==> fr - v.tail_frame()
                    <= v.length
            }),
        ensures
            final(self)@ == old(self)@.after_discard(frame as int),
            final(self)@.wf(),
    {
        let mut frame = frame;
        if self.last_requested_frame != NULL_FRAME && self.last_requested_frame < frame {
            frame = self.last_requested_frame;
        }
        if frame >= self.last_added_frame {
            self.tail = self.head;
            self.length = 1;
        } else if frame <= self.inputs[self.tail].frame {
        } else {
            let offset = (frame - self.inputs[self.tail].frame) as usize;
            self.tail = (self.tail + offset) % INPUT_QUEUE_LENGTH;
            self.length = self.length - offset;
        }
    }

    /// Returns the input of the player for `requested_frame`. If the queue does not hold it, a
    /// prediction is returned instead: the last stored input (or a zeroed one for frame 0 or
    /// before any input), moved to the requested frame.
    pub fn input(&mut self, requested_frame: Frame) -> (r: GameInput)
        requires
            old(self)@.input_ok(requested_frame as int),
        ensures
            final(self)@ == old(self)@.after_input(requested_frame as int),
            r == old(self)@.input_value(requested_frame as int),
            r.frame == requested_frame,
            final(self)@.wf(),
            old(self)@.clean() ==> final(self)@.clean(),
    {
        self.last_requested_frame = requested_frame;
        if self.prediction.frame < 0 {
            let tail_frame = self.inputs[self.tail].frame;
            let offset: usize = (requested_frame - tail_frame) as usize;
            if offset < self.length {
                let slot = (offset + self.tail) % INPUT_QUEUE_LENGTH;
                return self.inputs[slot];
            }
            if requested_frame == 0 || self.last_added_frame == NULL_FRAME {
                self.prediction.erase_bits();
            } else {
                let previous_position: usize = if self.head == 0 {
                    INPUT_QUEUE_LENGTH - 1
                } else {
                    self.head - 1
                };
                self.prediction = self.inputs[previous_position];
            }
            self.prediction.frame = self.prediction.frame + 1;
            assert(self.prediction == old(self)@.new_prediction(requested_frame as int)) by {
                assert(self.prediction.buffer =~= old(self)@.new_prediction(
                    requested_frame as int,
                ).buffer);
            }
        }
        let mut prediction_to_return = self.prediction;
        prediction_to_return.frame = requested_frame;
        prediction_to_return
    }

    /// Stores `input` for `frame_number` at the head of the queue, checking a running prediction
    /// against it.
    fn add_input_by_frame(&mut self, input: GameInput, frame_number: Frame)
        requires
            old(self)@.consistent(),
            old(self)@.add_step_ok(input, frame_number as int),
        ensures
            final(self)@ == old(self)@.add_step(input, frame_number as int),
            final(self)@.consistent(),
    {
        let mut stored = input;
        stored.frame = frame_number;
        let h = self.head;
        self.inputs[h] = stored;
        self.head = (self.head + 1) % INPUT_QUEUE_LENGTH;
        self.length = self.length + 1;
        self.first_frame = false;
        self.last_added_frame = frame_number;

        if self.prediction.frame != NULL_FRAME {
            if self.first_incorrect_frame == NULL_FRAME && !self.prediction.equal(&input, true) {
                self.first_incorrect_frame = frame_number;
            }
            if self.prediction.frame == self.last_requested_frame && self.first_incorrect_frame
                == NULL_FRAME {
                self.prediction.frame = NULL_FRAME;
            } else {
                self.prediction.frame = self.prediction.frame + 1;
            }
        }
        proof {
            let v = old(self)@.add_step(input, frame_number as int);
            assert(self.inputs@ =~= v.inputs);
        }
    }

    /// Moves the head to the frame the next input goes to. When the frame delay grew since the
    /// last input, the last stored input is replicated for the skipped frames; when it dropped,
    /// the input has no room and `NULL_FRAME` is returned.
    fn advance_queue_head(&mut self, input_frame: Frame) -> (r: Frame)
        requires
            old(self)@.consistent(),
            old(self)@.expected_frame() <= i32::MAX,
            i32::MIN <= input_frame + (old(self)@.frame_delay as i32) < i32::MAX,
            ({
                let v = old(self)@;
                let f = v.delayed(input_frame);
                v.expected_frame() <= f ==> v.length + (f - v.expected_frame()) < INPUT_QUEUE_LENGTH
            }),
        ensures
            ({
                let v = old(self)@;
                let e = v.expected_frame();
                let f = v.delayed(input_frame);
                &&& e > f ==> r == NULL_FRAME && final(self)@ == v
                &&& e <= f ==> r == f && final(self)@ == v.fill(v.inputs[prev_pos(v.head)], e, f)
                &&& e <= f ==> final(self)@.length == v.length + (f - e)
                &&& e <= f ==> (final(self)@.last_added_frame == NULL_FRAME && f == 0) || f
                    == final(self)@.last_added_frame + 1
                &&& final(self)@.prediction.size == v.prediction.size
            }),
            final(self)@.consistent(),
    {
        let previous_position: usize = if self.head == 0 {
            INPUT_QUEUE_LENGTH - 1
        } else {
            self.head - 1
        };
        let mut expected_frame: Frame = if self.first_frame {
            0
        } else {
            self.inputs[previous_position].frame + 1
        };
        let input_frame = input_frame + (#[verifier::truncate] (self.frame_delay as i32));
        if expected_frame > input_frame {
            return NULL_FRAME;
        }
        let rep = self.inputs[previous_position];
        let ghost e0 = expected_frame as int;
        while expected_frame < input_frame
            invariant
                self@.consistent(),
                e0 <= expected_frame <= input_frame < i32::MAX,
                e0 >= 0,
                self@ == old(self)@.fill(rep, e0, expected_frame as int),
                rep.size == self@.prediction.size,
                (self@.last_added_frame == NULL_FRAME && expected_frame == 0)
                    || expected_frame == self@.last_added_frame + 1,
                self@.length == old(self)@.length + (expected_frame - e0),
                old(self)@.length + (input_frame - e0) < INPUT_QUEUE_LENGTH,
            decreases input_frame - expected_frame,
        {
            self.add_input_by_frame(rep, expected_frame);
            expected_frame = expected_frame + 1;
        }
        input_frame
    }

    /// Adds the input the user gives for `input.frame`; it is stored at that frame plus the frame
    /// delay. Returns the frame it was stored at, or `NULL_FRAME` when it was dropped because the
    /// delay dropped since the last input.
    pub fn add_input(&mut self, input: GameInput) -> (r: Frame)
        requires
            old(self)@.add_input_ok(input),
        ensures
            r == old(self)@.add_result(input),
            final(self)@ == old(self)@.after_add(input),
            final(self)@.consistent(),
    {
        let new_frame = self.advance_queue_head(input.frame);
        if new_frame != NULL_FRAME {
            self.add_input_by_frame(input, new_frame);
        }
        new_frame
    }

    /// The frame of the input in ring slot `slot`.
    pub fn slot_frame(&self, slot: usize) -> (r: Frame)
        requires
            self@.wf(),
            slot < INPUT_QUEUE_LENGTH,
        ensures
            r == self@.inputs[slot as int].frame,
    {
        self.inputs[slot].frame
    }

    /// Whether the queue's scalar bookkeeping is consistent (see `InputQueueView::consistent`).
    pub fn is_consistent(&self) -> (r: bool)
        requires
            self@.wf(),
        ensures
            r == self@.consistent(),
    {
        let prev: usize = if self.head == 0 {
            INPUT_QUEUE_LENGTH - 1
        } else {
            self.head - 1
        };
        let no_input = self.last_added_frame == NULL_FRAME;
        (self.first_frame == no_input) && self.last_added_frame >= NULL_FRAME && (no_input
            || self.inputs[prev].frame == self.last_added_frame) && (self.prediction.frame
            == NULL_FRAME || self.prediction.frame as i64 == self.last_added_frame as i64 + 1)
    }

    /// Whether `add_input(*input)` can store the input: see `InputQueueView::add_input_ok`.
    pub fn accepts(&self, input: &GameInput) -> (r: bool)
        requires
            self@.wf(),
        ensures
            r == self@.add_input_ok(*input),
    {
        if !self.is_consistent() || input.size != self.prediction.size {
            return false;
        }
        let delay: i32 = #[verifier::truncate] (self.frame_delay as i32);
        let delayed: i64 = input.frame as i64 + delay as i64;
        if delayed < i32::MIN as i64 || delayed >= i32::MAX as i64 {
            return false;
        }
        if self.last_added_frame != NULL_FRAME && delayed != self.last_added_frame as i64 + 1 {
            return false;
        }
        let prev: usize = if self.head == 0 {
            INPUT_QUEUE_LENGTH - 1
        } else {
            self.head - 1
        };
        let expected: i64 = if self.first_frame {
            0
        } else {
            self.inputs[prev].frame as i64 + 1
        };
        let count: i64 = if expected > delayed {
            0
        } else {
            delayed - expected + 1
        };
        self.length as i64 + count <= INPUT_QUEUE_LENGTH as i64
    }

    /// Whether `input(requested_frame)` can serve the request: see `InputQueueView::input_ok`.
    pub fn serves(&self, requested_frame: Frame) -> (r: bool)
        requires
            self@.wf(),
        ensures
            r == self@.input_ok(requested_frame as int),
    {
        if !self.is_consistent() || self.first_incorrect_frame != NULL_FRAME {
            return false;
        }
        let tail_frame: i64 = self.inputs[self.tail].frame as i64;
        let req: i64 = requested_frame as i64;
        if req < tail_frame || req - tail_frame > i32::MAX as i64 {
            return false;
        }
        let reads_queue = self.prediction.frame < 0 && req - tail_frame < self.length as i64;
        if reads_queue {
            let slot: usize = ((req - tail_frame) as usize + self.tail) % INPUT_QUEUE_LENGTH;
            return self.inputs[slot].frame == requested_frame;
        }
        if self.prediction.frame < 0 {
            let base_frame: i32 = if requested_frame == 0 || self.last_added_frame == NULL_FRAME {
                self.prediction.frame
            } else {
                let prev: usize = if self.head == 0 {
                    INPUT_QUEUE_LENGTH - 1
                } else {
                    self.head - 1
                };
                self.inputs[prev].frame
            };
            return base_frame as i64 + 1 != NULL_FRAME as i64 && base_frame < i32::MAX;
        }
        true
    }

    /// Whether `discard_confirmed_frames(frame)` can release the frames up to `frame`: see its
    /// `requires`.
    pub fn can_discard(&self, frame: Frame) -> (r: bool)
        requires
            self@.wf(),
        ensures
            r == ({
                let v = self@;
                let fr = v.discard_bound(frame as int);
                fr < v.last_added_frame && fr > v.tail_frame() ==> fr - v.tail_frame()
                    <= v.length
            }),
    {
        let fr: i64 = if self.last_requested_frame != NULL_FRAME && self.last_requested_frame
            < frame {
            self.last_requested_frame as i64
        } else {
            frame as i64
        };
        let tail_frame: i64 = self.inputs[self.tail].frame as i64;
        !(fr < self.last_added_frame as i64 && fr > tail_frame) || fr - tail_frame
            <= self.length as i64
    }
}

/// Storing the next frame keeps a clean queue clean, keeps every held input, and holds the new
/// input at its frame.
#[verifier::spinoff_prover]
#[verifier::rlimit(40)]
pub proof fn lemma_add_step_clean(v: InputQueueView, x: GameInput, f: int)
    requires
        v.clean(),
        v.add_step_ok(x, f),
    ensures
        v.add_step(x, f).clean(),
        v.add_step(x, f).last_added_frame == f,
        v.add_step(x, f).length == v.length + 1,
        v.add_step(x, f).holds(f),
        v.add_step(x, f).stored(f) == with_frame(x, f as i32),
        forall|g: int| v.holds(g) ==> v.add_step(x, f).holds(g) && v.add_step(x, f).stored(g) == v.stored(g),
{
    let w = v.add_step(x, f);
    let n = INPUT_QUEUE_LENGTH as int;
    assert(v.last_added_frame == NULL_FRAME ==> v.length == 0);
    assert(v.last_added_frame != NULL_FRAME ==> f == v.last_added_frame + 1);
    assert forall|k: int| 0 <= k < w.length implies (#[trigger] w.inputs[(w.tail + k) % n]).frame
        == w.last_added_frame - (w.length - 1 - k) by {
        if k < v.length {
            assert((v.tail + k) % n != v.head as int);
            assert(w.inputs[(w.tail + k) % n] == v.inputs[(v.tail + k) % n]);
        } else {
            assert((w.tail + k) % n == v.head as int);
        }
    }
    assert forall|g: int| v.holds(g) implies w.holds(g) && w.stored(g) == v.stored(g) by {
        let k = g - v.oldest_frame();
        assert(0 <= k < v.length);
        assert((v.tail + k) % n != v.head as int);
    }
    assert((w.tail + (f - w.oldest_frame())) % n == v.head as int);
}

/// Replicating `rep` for the frames `e .. f` keeps a clean queue clean, keeps every held input,
/// and holds a copy of `rep` at each filled frame.
pub proof fn lemma_fill_clean(v: InputQueueView, rep: GameInput, e: int, f: int)
    requires
        v.clean(),
        rep.size == v.prediction.size,
        0 <= e <= f < i32::MAX,
        (v.last_added_frame == NULL_FRAME && e == 0) || e == v.last_added_frame + 1,
        v.length + (f - e) <= INPUT_QUEUE_LENGTH,
    ensures
        v.fill(rep, e, f).clean(),
        v.fill(rep, e, f).length == v.length + (f - e),
        v.fill(rep, e, f).prediction.size == v.prediction.size,
        e < f ==> v.fill(rep, e, f).last_added_frame == f - 1,
        e == f ==> v.fill(rep, e, f) == v,
        forall|g: int| e <= g < f ==> v.fill(rep, e, f).holds(g) && #[trigger] v.fill(rep, e, f).stored(g)
            == with_frame(rep, g as i32),
        forall|g: int| v.holds(g) ==> v.fill(rep, e, f).holds(g) && v.fill(rep, e, f).stored(g) == v.stored(g),
    decreases f - e,
{
    if e < f {
        lemma_fill_clean(v, rep, e, f - 1);
        let u = v.fill(rep, e, f - 1);
        assert(u.add_step_ok(rep, f - 1));
        lemma_add_step_clean(u, rep, f - 1);
        let w = u.add_step(rep, f - 1);
        assert forall|g: int| e <= g < f implies w.holds(g) && #[trigger] w.stored(g) == with_frame(
            rep,
            g as i32,
        ) by {
            if g < f - 1 {
                assert(u.holds(g) && u.stored(g) == with_frame(rep, g as i32));
            }
        }
        assert forall|g: int| v.holds(g) implies w.holds(g) && w.stored(g) == v.stored(g) by {
            assert(u.holds(g) && u.stored(g) == v.stored(g));
        }
    }
}

/// Adding an input to a clean queue keeps it clean. When the input is not dropped, the queue
/// then holds it at its delayed frame, holds copies of the previous input at the frames a grown
/// delay skipped, and still holds every input it held before.
pub proof fn lemma_add_input_clean(v: InputQueueView, x: GameInput)
    requires
        v.clean(),
        v.add_input_ok(x),
    ensures
        v.after_add(x).clean(),
        v.add_result(x) != NULL_FRAME ==> {
            let f = v.add_result(x);
            &&& v.after_add(x).last_added_frame == f
            &&& v.after_add(x).holds(f)
            &&& v.after_add(x).stored(f) == with_frame(x, f as i32)
            &&& forall|g: int| v.expected_frame() <= g < f ==> v.after_add(x).holds(g)
                && #[trigger] v.after_add(x).stored(g) == with_frame(v.inputs[prev_pos(v.head)], g as i32)
        },
        forall|g: int| v.holds(g) ==> v.after_add(x).holds(g) && v.after_add(x).stored(g) == v.stored(g),
{
    let e = v.expected_frame();
    let f = v.delayed(x.frame);
    if e <= f {
        let rep = v.inputs[prev_pos(v.head)];
        lemma_fill_clean(v, rep, e, f);
        let u = v.fill(rep, e, f);
        lemma_add_step_clean(u, x, f);
        let w = u.add_step(x, f);
        assert forall|g: int| e <= g < f implies w.holds(g) && #[trigger] w.stored(g) == with_frame(
            rep,
            g as i32,
        ) by {
            assert(u.holds(g) && u.stored(g) == with_frame(rep, g as i32));
        }
        assert forall|g: int| v.holds(g) implies w.holds(g) && w.stored(g) == v.stored(g) by {
            assert(u.holds(g) && u.stored(g) == v.stored(g));
        }
    }
}

/// In a clean queue that is not predicting, requesting a frame the queue holds returns the
/// input stored for that frame, and the request is served without a prediction.
pub proof fn lemma_input_reads_held(v: InputQueueView, f: int)
    requires
        v.clean(),
        v.prediction.frame == NULL_FRAME,
        v.first_incorrect_frame == NULL_FRAME,
        v.holds(f),
    ensures
        v.input_ok(f),
        v.reads_queue(f),
        v.input_value(f) == v.stored(f),
        v.input_value(f).frame == f,
        v.after_input(f).prediction == v.prediction,
{
    let n = INPUT_QUEUE_LENGTH as int;
    assert(v.inputs[(v.tail + 0) % n].frame == v.last_added_frame - (v.length - 1 - 0));
    assert(v.tail_frame() == v.oldest_frame());
    let k = f - v.oldest_frame();
    assert(v.inputs[(v.tail + k) % n].frame == v.last_added_frame - (v.length - 1 - k));
}

/// In a clean queue that is not predicting, requesting a frame past the last added one starts a
/// prediction: the returned input carries the requested frame and repeats the bytes of the last
/// added input, or is all zeros for frame 0 or before any input; the prediction then runs from
/// the frame after the last added one.
pub proof fn lemma_input_predicts(v: InputQueueView, f: int)
    requires
        v.clean(),
        v.prediction.frame == NULL_FRAME,
        v.first_incorrect_frame == NULL_FRAME,
        v.last_added_frame < f <= i32::MAX,
        v.tail_frame() <= f,
        f - v.tail_frame() <= i32::MAX,
    ensures
        v.input_ok(f),
        !v.reads_queue(f),
        v.input_value(f).frame == f,
        v.input_value(f).size == v.prediction.size,
        (f == 0 || v.last_added_frame == NULL_FRAME) ==> forall|i: int|
            0 <= i < 8 ==> #[trigger] v.input_value(f).buffer[i] == 0,
        (f != 0 && v.last_added_frame != NULL_FRAME) ==> v.input_value(f).buffer == v.stored(
            v.last_added_frame as int,
        ).buffer,
        v.after_input(f).prediction.frame == v.last_added_frame + 1,
        v.after_input(f).last_requested_frame == f,
{
    let n = INPUT_QUEUE_LENGTH as int;
    if v.length > 0 {
        assert(v.inputs[(v.tail + 0) % n].frame == v.last_added_frame - (v.length - 1 - 0));
        assert(v.tail_frame() == v.oldest_frame());
        let k = v.length - 1;
        assert(v.inputs[(v.tail + k) % n].frame == v.last_added_frame - (v.length - 1 - k));
        assert((v.tail + k) % n == prev_pos(v.head));
    }
}

/// While a prediction runs and no wrong prediction is known, the prediction carries the bytes
/// of the newest stored input.
pub open spec fn predicts_last(v: InputQueueView) -> bool {
    v.prediction.frame != NULL_FRAME && v.first_incorrect_frame == NULL_FRAME
        && v.last_added_frame != NULL_FRAME ==> v.prediction.buffer@ == v.inputs[prev_pos(
        v.head,
    )].buffer@
}

/// The running prediction repeats the newest stored input: a prediction started for a frame
/// other than 0 takes the bytes of the newest stored input; storing the predicted frame's input
/// while no wrong prediction is known keeps it so (a matching input has the prediction's
/// bytes, a differing one records the wrong prediction); and requests during a running
/// prediction leave it as it is.
pub proof fn lemma_prediction_repeats_last(v: InputQueueView, req: int, x: GameInput, f: int)
    requires
        v.consistent(),
        predicts_last(v),
    ensures
        req != 0 ==> predicts_last(v.after_input(req)),
        v.add_step_ok(x, f) ==> predicts_last(v.add_step(x, f)),
{
    if v.add_step_ok(x, f) {
        let w = v.add_step(x, f);
        assert(prev_pos(w.head) == v.head as int);
    }
}

/// Once a prediction runs, storing the input for the predicted frame checks it: when its bytes
/// differ from the prediction, that frame becomes the first incorrect frame; when they agree and
/// the frame is the last requested one, prediction mode ends.
pub proof fn lemma_prediction_checked(v: InputQueueView, x: GameInput)
    requires
        v.consistent(),
        v.prediction.frame != NULL_FRAME,
        v.first_incorrect_frame == NULL_FRAME,
        v.add_input_ok(x),
        v.last_added_frame != NULL_FRAME,
    ensures
        v.add_result(x) == v.prediction.frame,
        !same_bytes(v.prediction.buffer, x.buffer) ==> v.after_add(x).first_incorrect_frame
            == v.prediction.frame,
        same_bytes(v.prediction.buffer, x.buffer) && v.prediction.frame == v.last_requested_frame
            ==> v.after_add(x).prediction.frame == NULL_FRAME
            && v.after_add(x).first_incorrect_frame == NULL_FRAME,
{
    let f = v.delayed(x.frame);
    assert(v.expected_frame() == f);
    assert(v.fill(v.inputs[prev_pos(v.head)], f, f) == v);
}

/// Discarding confirmed frames below the last added one keeps a clean queue clean; it keeps
/// every held input from the discard bound on, and holds nothing new.
pub proof fn lemma_discard_clean(v: InputQueueView, frame: int)
    requires
        v.clean(),
        v.discard_bound(frame) < v.last_added_frame,
    ensures
        v.after_discard(frame).clean(),
        forall|g: int| v.holds(g) && g >= v.discard_bound(frame) ==> v.after_discard(frame).holds(g)
            && v.after_discard(frame).stored(g) == v.stored(g),
        forall|g: int| v.after_discard(frame).holds(g) ==> v.holds(g),
        v.after_discard(frame).length > 0 ==> v.after_discard(frame).last_added_frame
            == v.last_added_frame,
{
    let n = INPUT_QUEUE_LENGTH as int;
    let w = v.after_discard(frame);
    let fr = v.discard_bound(frame);
    if v.length == 0 {
        assert(v.tail_frame() >= NULL_FRAME);
        assert(w == v);
    } else {
        assert(v.inputs[(v.tail + 0) % n].frame == v.last_added_frame - (v.length - 1 - 0));
        assert(v.tail_frame() == v.oldest_frame());
        if fr > v.tail_frame() {
            lemma_discard_moves_tail(v, frame);
        } else {
            assert(w == v);
        }
    }
}

#[verifier::rlimit(40)]
proof fn lemma_discard_moves_tail(v: InputQueueView, frame: int)
    requires
        v.clean(),
        v.length > 0,
        v.tail_frame() == v.oldest_frame(),
        v.tail_frame() < v.discard_bound(frame) < v.last_added_frame,
    ensures
        v.after_discard(frame).clean(),
        forall|g: int| v.holds(g) && g >= v.discard_bound(frame) ==> v.after_discard(frame).holds(g)
            && v.after_discard(frame).stored(g) == v.stored(g),
        forall|g: int| v.after_discard(frame).holds(g) ==> v.holds(g),
        v.after_discard(frame).last_added_frame == v.last_added_frame,
{
    let n = INPUT_QUEUE_LENGTH as int;
    let w = v.after_discard(frame);
    let fr = v.discard_bound(frame);
    let offset = fr - v.tail_frame();
    let t2 = if v.tail + offset < n { v.tail + offset } else { v.tail + offset - n };
    assert(0 < offset < v.length);
    assert(w.tail == t2);
    assert(w.length == v.length - offset);
    assert(forall|x: int| #![trigger (x + n) % n] x >= 0 ==> (x + n) % n == x % n);
    assert((w.tail + w.length) % n == (v.tail + v.length) % n);
    assert forall|k: int| 0 <= k < w.length implies (#[trigger] w.inputs[(w.tail + k) % n]).frame
        == w.last_added_frame - (w.length - 1 - k) by {
        assert((w.tail + k) % n == (v.tail + (k + offset)) % n);
        assert(v.inputs[(v.tail + (k + offset)) % n].frame == v.last_added_frame - (v.length - 1 - (k
            + offset)));
    }
    assert forall|g: int| v.holds(g) && g >= fr implies w.holds(g) && w.stored(g) == v.stored(g) by {
        assert((w.tail + (g - w.oldest_frame())) % n == (v.tail + (g - v.oldest_frame())) % n);
    }
}

} // verus!
