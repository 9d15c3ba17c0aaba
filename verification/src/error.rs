use vstd::prelude::*;
use vstd::string::StringExecFns;

use crate::Frame;

verus! {

/// All errors this library can return.
#[derive(Debug, Clone, PartialEq, Eq, Hash)]
pub enum GgrsError {
    /// When the prediction threshold has been reached, no more inputs from the local player are
    /// accepted.
    PredictionThreshold,
    /// An invalid request, usually wrong parameters for a function call.
    InvalidRequest {
        /// Further specifies why the request was invalid.
        info: String,
    },
    /// Checksums of resimulated frames do not match the checksums saved the first time.
    MismatchedChecksum {
        /// The frame at which the mismatch occurred.
        current_frame: Frame,
        /// The frames with mismatched checksums (one or more).
        mismatched_frames: Vec<Frame>,
    },
    /// The session is not synchronized yet.
    NotSynchronized,
    /// The spectator got so far behind the host that catching up is impossible.
    SpectatorTooFarBehind,
    /// Not enough data has been collected yet to compute the requested statistics.
    NotEnoughData,
}

impl GgrsError {
    /// The fixed part of the error's description; the data of `InvalidRequest` and
    /// `MismatchedChecksum` follows it when displayed.
    pub fn message(&self) -> (r: &'static str)
        ensures
            r@ == (match *self {
                GgrsError::PredictionThreshold => "Prediction threshold is reached, cannot proceed without catching up."@,
                GgrsError::InvalidRequest { .. } => "Invalid Request: "@,
                GgrsError::NotSynchronized => "The session is not yet synchronized with all remote sessions."@,
                GgrsError::MismatchedChecksum { .. } => "Detected checksum mismatch during rollback on frame "@,
                GgrsError::SpectatorTooFarBehind => "The spectator got so far behind the host that catching up is impossible."@,
                GgrsError::NotEnoughData => "Not enough data has been collected yet. Retry after at least one second."@,
            }),
    {
        match self {
            GgrsError::PredictionThreshold => "Prediction threshold is reached, cannot proceed without catching up.",
            GgrsError::InvalidRequest { .. } => "Invalid Request: ",
            GgrsError::NotSynchronized => "The session is not yet synchronized with all remote sessions.",
            GgrsError::MismatchedChecksum { .. } => "Detected checksum mismatch during rollback on frame ",
            GgrsError::SpectatorTooFarBehind => "The spectator got so far behind the host that catching up is impossible.",
            GgrsError::NotEnoughData => "Not enough data has been collected yet. Retry after at least one second.",
        }
    }
}

/// The decimal digit `d` as a character.
pub open spec fn digit_char(d: int) -> char {
    (48 + d) as char
}

/// The decimal digits of `n`, most significant first.
pub open spec fn nat_digits(n: nat) -> Seq<char>
    decreases n,
{
    if n < 10 {
        seq![digit_char(n as int)]
    } else {
        nat_digits(n / 10) + seq![digit_char((n % 10) as int)]
    }
}

/// `n` in decimal, with a minus sign when negative.
pub open spec fn decimal(n: int) -> Seq<char> {
    if n < 0 {
        seq!['-'] + nat_digits((-n) as nat)
    } else {
        nat_digits(n as nat)
    }
}

/// The numbers `s` in decimal, separated by a comma and a space.
pub open spec fn joined(s: Seq<Frame>) -> Seq<char>
    decreases s.len(),
{
    if s.len() == 0 {
        Seq::empty()
    } else if s.len() == 1 {
        decimal(s[0] as int)
    } else {
        joined(s.drop_last()) + ", "@ + decimal(s.last() as int)
    }
}

/// The full description of an error: its fixed text, followed for `InvalidRequest` by the
/// information and for `MismatchedChecksum` by the frame and the list of mismatched frames.
pub open spec fn description(e: GgrsError) -> Seq<char> {
    match e {
        GgrsError::PredictionThreshold => "Prediction threshold is reached, cannot proceed without catching up."@,
        GgrsError::InvalidRequest { info } => "Invalid Request: "@ + info@,
        GgrsError::NotSynchronized => "The session is not yet synchronized with all remote sessions."@,
        GgrsError::MismatchedChecksum { current_frame, mismatched_frames } =>
            "Detected checksum mismatch during rollback on frame "@ + decimal(current_frame as int)
                + ", mismatched frames: ["@ + joined(mismatched_frames@) + "]"@,
        GgrsError::SpectatorTooFarBehind => "The spectator got so far behind the host that catching up is impossible."@,
        GgrsError::NotEnoughData => "Not enough data has been collected yet. Retry after at least one second."@,
    }
}

/// Appends the decimal digit `d`.
fn push_digit(s: &mut String, d: u64)
    requires
        d < 10,
    ensures
        final(s)@ == old(s)@ + seq![digit_char(d as int)],
{
    let t: &str = match d {
        0 => "0",
        1 => "1",
        2 => "2",
        3 => "3",
        4 => "4",
        5 => "5",
        6 => "6",
        7 => "7",
        8 => "8",
        _ => "9",
    };
    proof {
        reveal_strlit("0");
        reveal_strlit("1");
        reveal_strlit("2");
        reveal_strlit("3");
        reveal_strlit("4");
        reveal_strlit("5");
        reveal_strlit("6");
        reveal_strlit("7");
        reveal_strlit("8");
        reveal_strlit("9");
    }
    s.append(t);
}

/// Appends the decimal digits of `n`.
fn push_digits(s: &mut String, n: u64)
    ensures
        final(s)@ == old(s)@ + nat_digits(n as nat),
    decreases n,
{
    if n >= 10 {
        push_digits(s, n / 10);
        push_digit(s, n % 10);
        assert(final(s)@ =~= old(s)@ + nat_digits(n as nat)) by {
            assert(nat_digits(n as nat) == nat_digits((n / 10) as nat) + seq![digit_char((n % 10) as int)]);
        }
    } else {
        push_digit(s, n);
    }
}

/// Appends `n` in decimal.
fn push_decimal(s: &mut String, n: Frame)
    ensures
        final(s)@ == old(s)@ + decimal(n as int),
{
    if n < 0 {
        proof {
            reveal_strlit("-");
        }
        s.append("-");
        let m: i64 = -(n as i64);
        push_digits(s, m as u64);
        assert(final(s)@ =~= old(s)@ + decimal(n as int));
    } else {
        push_digits(s, n as u64);
    }
}

impl GgrsError {
    /// The full description of the error (see `description`).
    pub fn describe(&self) -> (r: String)
        ensures
            r@ == description(*self),
    {
        let mut r = String::new();
        proof {
            reveal_strlit("Invalid Request: ");
            reveal_strlit("Detected checksum mismatch during rollback on frame ");
            reveal_strlit(", mismatched frames: [");
            reveal_strlit(", ");
            reveal_strlit("]");
        }
        match self {
            GgrsError::InvalidRequest { info } => {
                r.append("Invalid Request: ");
                r.append(info.as_str());
            },
            GgrsError::MismatchedChecksum { current_frame, mismatched_frames } => {
                r.append("Detected checksum mismatch during rollback on frame ");
                push_decimal(&mut r, *current_frame);
                r.append(", mismatched frames: [");
                let ghost start = r@;
                let mut i: usize = 0;
                while i < mismatched_frames.len()
                    invariant
                        i <= mismatched_frames@.len(),
                        r@ == start + joined(mismatched_frames@.take(i as int)),
                    decreases mismatched_frames@.len() - i,
                {
                    let ghost before = r@;
                    if i > 0 {
                        r.append(", ");
                    }
                    push_decimal(&mut r, mismatched_frames[i]);
                    proof {
                        let t = mismatched_frames@.take(i + 1);
                        assert(t.drop_last() =~= mismatched_frames@.take(i as int));
                        assert(t.last() == mismatched_frames@[i as int]);
                        if i == 0 {
                            assert(mismatched_frames@.take(0) =~= Seq::<Frame>::empty());
                        }
                        assert(r@ =~= start + joined(t));
                    }
                    i = i + 1;
                }
                proof {
                    assert(mismatched_frames@.take(mismatched_frames@.len() as int)
                        =~= mismatched_frames@);
                }
                r.append("]");
            },
            _ => {
                r.append(self.message());
            },
        }
        r
    }
}

} // verus!
