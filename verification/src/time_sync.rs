use vstd::prelude::*;

use crate::Frame;

verus! {

/// The number of frames over which frame advantages are averaged.
pub const FRAME_WINDOW_SIZE: usize = 30;

/// Below this many frames of difference no wait is recommended.
pub const MIN_FRAME_ADVANTAGE: i32 = 0;

/// The largest wait ever recommended.
pub const MAX_FRAME_ADVANTAGE: i32 = 8;

/// The sum of a sequence of frame advantages.
pub open spec fn sum(s: Seq<i32>) -> int
    decreases s.len(),
{
    if s.len() == 0 {
        0
    } else {
        sum(s.drop_last()) + s.last()
    }
}

/// Summing `s` from the front in `i32` never overflows.
pub open spec fn sums_fit(s: Seq<i32>) -> bool {
    forall|k: int| 0 <= k <= s.len() ==> i32::MIN <= #[trigger] sum(s.take(k)) <= i32::MAX
}

/// The recommended number of frames to wait: half the difference between the average remote
/// and the average local frame advantage, rounded half up, at most `MAX_FRAME_ADVANTAGE`; zero
/// when the local average is at least the remote one.
pub open spec fn recommended_delay(local: Seq<i32>, remote: Seq<i32>) -> int {
    let l = sum(local);
    let r = sum(remote);
    if l >= r {
        0
    } else {
        let sleep = (r - l + FRAME_WINDOW_SIZE as int) / (2 * FRAME_WINDOW_SIZE as int);
        if sleep < MIN_FRAME_ADVANTAGE {
            0
        } else if sleep > MAX_FRAME_ADVANTAGE {
            MAX_FRAME_ADVANTAGE as int
        } else {
            sleep
        }
    }
}

/// The recommendation is half the gap between the average remote and the average local frame
/// advantage, rounded half up, and capped: with `W` the window size, the averages are the sums
/// over `W`. No wait is recommended while the local average is at least the remote one;
/// otherwise the wait `d` is the whole number with `d <= (avg_remote - avg_local) / 2 + 1/2 <
/// d + 1`, or `MAX_FRAME_ADVANTAGE` when that number is larger.
pub proof fn lemma_delay_halves_the_gap(local: Seq<i32>, remote: Seq<i32>)
    ensures
        sum(local) >= sum(remote) ==> recommended_delay(local, remote) == 0,
        sum(local) < sum(remote) ==> {
            let d = recommended_delay(local, remote);
            let w = FRAME_WINDOW_SIZE as int;
            let gap = sum(remote) - sum(local);
            &&& 0 <= d <= MAX_FRAME_ADVANTAGE
            &&& d < MAX_FRAME_ADVANTAGE ==> 2 * w * d <= gap + w < 2 * w * (d + 1)
            &&& d == MAX_FRAME_ADVANTAGE ==> 2 * w * MAX_FRAME_ADVANTAGE <= gap + w
        },
{
    let x = sum(remote) - sum(local) + FRAME_WINDOW_SIZE as int;
    assert(60 * (x / 60) <= x < 60 * (x / 60 + 1)) by (nonlinear_arith);
}

/// The recommendation depends on the two windows only through the gap between their sums, and
/// a larger gap never recommends a shorter wait.
pub proof fn lemma_delay_follows_the_gap(
    local: Seq<i32>,
    remote: Seq<i32>,
    local2: Seq<i32>,
    remote2: Seq<i32>,
)
    ensures
        sum(remote) - sum(local) == sum(remote2) - sum(local2) ==> recommended_delay(local, remote)
            == recommended_delay(local2, remote2),
        sum(remote) - sum(local) <= sum(remote2) - sum(local2) ==> recommended_delay(local, remote)
            <= recommended_delay(local2, remote2),
{
    let w = FRAME_WINDOW_SIZE as int;
    let g1 = sum(remote) - sum(local);
    let g2 = sum(remote2) - sum(local2);
    if 0 < g1 <= g2 {
        assert((g1 + w) / (2 * w) <= (g2 + w) / (2 * w)) by (nonlinear_arith)
            requires
                0 < g1 <= g2,
                w == 30,
        ;
    }
}

/// The window slot a frame's advantages are recorded in.
pub open spec fn window_slot(frame: Frame) -> int {
    (frame as usize) as int % FRAME_WINDOW_SIZE as int
}

/// Records the local and remote frame advantages of the last frames and recommends how long to
/// wait so that both clients run in step.
#[derive(Debug)]
pub struct TimeSync {
    local: [i32; 30],
    remote: [i32; 30],
}

impl TimeSync {
    /// The recorded local frame advantages, one per window slot.
    pub closed spec fn local_view(&self) -> Seq<i32> {
        self.local@
    }

    /// The recorded remote frame advantages, one per window slot.
    pub closed spec fn remote_view(&self) -> Seq<i32> {
        self.remote@
    }

    /// A time sync with all advantages zero.
    pub fn new() -> (r: Self)
        ensures
            r.local_view() == Seq::new(FRAME_WINDOW_SIZE as nat, |i: int| 0i32),
            r.remote_view() == Seq::new(FRAME_WINDOW_SIZE as nat, |i: int| 0i32),
    {
        let r = TimeSync { local: [0i32; 30], remote: [0i32; 30] };
        assert(r.local@ =~= Seq::new(FRAME_WINDOW_SIZE as nat, |i: int| 0i32));
        assert(r.remote@ =~= Seq::new(FRAME_WINDOW_SIZE as nat, |i: int| 0i32));
        r
    }

    /// Records the advantages measured at `frame` in the frame's window slot.
    pub fn advance_frame(&mut self, frame: Frame, local_adv: i32, remote_adv: i32)
        ensures
            final(self).local_view() == old(self).local_view().update(window_slot(frame), local_adv),
            final(self).remote_view() == old(self).remote_view().update(
                window_slot(frame),
                remote_adv,
            ),
    {
        let slot = (#[verifier::truncate] (frame as usize)) % FRAME_WINDOW_SIZE;
        self.local[slot] = local_adv;
        self.remote[slot] = remote_adv;
        assert(self.local@ =~= old(self).local_view().update(window_slot(frame), local_adv));
        assert(self.remote@ =~= old(self).remote_view().update(window_slot(frame), remote_adv));
    }

    /// Recommends how many frames to wait: half the difference of the average remote and local
    /// frame advantages, rounded, never more than `MAX_FRAME_ADVANTAGE`, and zero when we are
    /// not ahead.
    pub fn recommend_frame_delay(&self) -> (r: u32)
        requires
            sums_fit(self.local_view()),
            sums_fit(self.remote_view()),
        ensures
            r == recommended_delay(self.local_view(), self.remote_view()),
            r <= MAX_FRAME_ADVANTAGE,
            sum(self.local_view()) >= sum(self.remote_view()) ==> r == 0,
    {
        let local_sum = sum_window(&self.local);
        let remote_sum = sum_window(&self.remote);
        if local_sum >= remote_sum {
            return 0;
        }
        let sleep_frames: i64 = (remote_sum as i64 - local_sum as i64 + FRAME_WINDOW_SIZE as i64)
            / (2 * FRAME_WINDOW_SIZE as i64);
        if sleep_frames < MIN_FRAME_ADVANTAGE as i64 {
            return 0;
        }
        if sleep_frames > MAX_FRAME_ADVANTAGE as i64 {
            MAX_FRAME_ADVANTAGE as u32
        } else {
            sleep_frames as u32
        }
    }
}

impl Default for TimeSync {
    fn default() -> (r: Self)
        ensures
            r.local_view() == Seq::new(FRAME_WINDOW_SIZE as nat, |i: int| 0i32),
            r.remote_view() == Seq::new(FRAME_WINDOW_SIZE as nat, |i: int| 0i32),
    {
        Self::new()
    }
}

/// Sums a window of advantages front to back, as `i32`.
fn sum_window(w: &[i32; 30]) -> (r: i32)
    requires
        sums_fit(w@),
    ensures
        r == sum(w@),
{
    let mut acc: i32 = 0;
    let mut i: usize = 0;
    while i < FRAME_WINDOW_SIZE
        invariant
            i <= FRAME_WINDOW_SIZE,
            w@.len() == FRAME_WINDOW_SIZE,
            sums_fit(w@),
            acc == sum(w@.take(i as int)),
        decreases FRAME_WINDOW_SIZE - i,
    {
        proof {
            assert(w@.take(i + 1).drop_last() =~= w@.take(i as int));
            assert(i32::MIN <= sum(w@.take(i + 1)) <= i32::MAX);
        }
        acc = acc + w[i];
        i = i + 1;
    }
    assert(w@.take(FRAME_WINDOW_SIZE as int) =~= w@);
    acc
}

} // verus!
