//! Tracking the progress of an operation, and sizes in words.
use vstd::arithmetic::power2::pow2;
use vstd::prelude::*;

use crate::float::{float_div, float_fixed, float_floor, float_mod, float_notation, float_of,
    float_to_u64, floor_fits, is_double, quotients_are_cut, remainders_are_whole, seconds,
    seconds_of, units_notation, units_text, whole_units_are_told, DOUBLE, Float, FloatModel};
use crate::number::{decimal, decimal_text};
use crate::operation::{OperationProgress, OperationStatus};
use crate::text::from_chars;

verus! {

/// How many samples of the download are kept.
pub const HISTORY: usize = 10;

/// An operation whose progress is tracked. Times are nanoseconds of a clock that never goes back.
#[derive(Debug)]
pub struct TrackedOperation {
    pub started_at: u64,
    pub last_progress: OperationProgress,
    /// When how many bytes had been downloaded.
    pub history: Vec<(u64, u64)>,
}

/// Tracks the progress of an operation.
#[derive(Debug)]
pub struct ProgressTracker {
    current: Option<TrackedOperation>,
}

/// The samples with one more; the oldest goes where there would be too many.
pub open spec fn with_sample(history: Seq<(u64, u64)>, sample: (u64, u64)) -> Seq<(u64, u64)> {
    let all = history.push(sample);
    if all.len() > HISTORY {
        all.skip(1)
    } else {
        all
    }
}

/// The bytes per second between the first and the last sample, in double precision; none with
/// fewer than two samples or without time between them.
pub open spec fn speed_of(history: Seq<(u64, u64)>) -> Option<u64> {
    if history.len() < 2 {
        None
    } else {
        let (t0, b0) = history[0];
        let (t1, b1) = history.last();
        if t1 <= t0 {
            None
        } else {
            let bytes = if b1 >= b0 {
                b1 - b0
            } else {
                0
            };
            Some(
                float_to_u64(
                    float_div(float_of(bytes as nat, 53), seconds_of((t1 - t0) as nat, 53), 53),
                ),
            )
        }
    }
}

/// The seconds that the rest of a download takes, in double precision.
pub open spec fn remaining_of(total: u64, downloaded: u64, speed: u64) -> FloatModel {
    let rest = if total >= downloaded {
        total - downloaded
    } else {
        0
    };
    float_div(float_of(rest as nat, 53), float_of(speed as nat, 53), 53)
}

impl ProgressTracker {
    /// The operation that is tracked.
    pub closed spec fn followed(self) -> Option<TrackedOperation> {
        self.current
    }

    /// Whether no more samples are kept than allowed.
    #[verifier::type_invariant]
    pub closed spec fn wf(self) -> bool {
        match self.current {
            Some(op) => op.history@.len() <= HISTORY,
            None => true,
        }
    }

    /// No operation is tracked.
    pub fn new() -> (t: ProgressTracker)
        ensures
            t.followed() is None,
    {
        ProgressTracker { current: None }
    }

    /// An operation starts.
    pub fn start(&mut self, total_packages: usize, total_bytes: u64, now: u64)
        ensures
            final(self).followed() matches Some(op) && {
                &&& op.started_at == now
                &&& op.history@.len() == 0
                &&& op.last_progress.status == OperationStatus::Pending
                &&& op.last_progress.current_package is None
                &&& op.last_progress.total_packages == total_packages
                &&& op.last_progress.completed_packages == 0
                &&& op.last_progress.total_bytes == total_bytes
                &&& op.last_progress.downloaded_bytes == 0
                &&& op.last_progress.message@ == Seq::<char>::empty()
            },
    {
        self.current = Some(
            TrackedOperation {
                started_at: now,
                last_progress: OperationProgress::new(total_packages, total_bytes),
                history: Vec::new(),
            },
        );
    }

    /// Takes in progress; while it downloads, a sample is kept.
    pub fn update(&mut self, progress: OperationProgress, now: u64)
        ensures
            match old(self).followed() {
                Some(before) => final(self).followed() matches Some(op) && {
                    &&& op.started_at == before.started_at
                    &&& op.last_progress == progress
                    &&& op.history@ == (if progress.status == OperationStatus::Downloading {
                        with_sample(before.history@, (now, progress.downloaded_bytes))
                    } else {
                        before.history@
                    })
                },
                None => final(self).followed() is None,
            },
    {
        proof {
            use_type_invariant(&*self);
        }
        let mut current: Option<TrackedOperation> = None;
        std::mem::swap(&mut self.current, &mut current);
        if let Some(op) = current {
            let mut history = op.history;
            if progress.status == OperationStatus::Downloading {
                let ghost before = history@;
                history.push((now, progress.downloaded_bytes));
                if history.len() > HISTORY {
                    history.remove(0);
                    proof {
                        assert(history@ =~= before.push((now, progress.downloaded_bytes)).skip(1));
                    }
                }
            }
            self.current = Some(
                TrackedOperation {
                    started_at: op.started_at,
                    last_progress: progress,
                    history,
                },
            );
        }
    }

    /// The last progress that was taken in.
    pub fn current(&self) -> (r: Option<&OperationProgress>)
        ensures
            match self.followed() {
                Some(op) => r matches Some(p) && *p == op.last_progress,
                None => r is None,
            },
    {
        match &self.current {
            Some(op) => Some(&op.last_progress),
            None => None,
        }
    }

    /// The seconds since the start of the operation.
    pub fn elapsed_secs(&self, now: u64) -> (r: Option<Float>)
        ensures
            match self.followed() {
                Some(op) => r matches Some(x) && is_double(x) && x@ == seconds_of(
                    if now >= op.started_at {
                        (now - op.started_at) as nat
                    } else {
                        0
                    },
                    53,
                ),
                None => r is None,
            },
    {
        match &self.current {
            Some(op) => {
                let nanos: u64 = if now >= op.started_at {
                    now - op.started_at
                } else {
                    0
                };
                Some(seconds(nanos, DOUBLE))
            },
            None => None,
        }
    }

    /// The bytes per second of the download.
    pub fn download_speed(&self) -> (r: Option<u64>)
        ensures
            r == (match self.followed() {
                Some(op) => speed_of(op.history@),
                None => None,
            }),
    {
        let op = match &self.current {
            Some(op) => op,
            None => {
                return None;
            },
        };
        let n: usize = op.history.len();
        if n < 2 {
            return None;
        }
        let (t0, b0) = op.history[0];
        let (t1, b1) = op.history[n - 1];
        if t1 <= t0 {
            return None;
        }
        let bytes: u64 = if b1 >= b0 {
            b1 - b0
        } else {
            0
        };
        let secs = seconds(t1 - t0, DOUBLE);
        Some(Float::from_u64(bytes, DOUBLE).div(secs, DOUBLE).to_u64())
    }

    /// The seconds that the rest of the download takes at the current speed.
    pub fn estimated_remaining(&self) -> (r: Option<Float>)
        ensures
            match self.followed() {
                Some(op) => match speed_of(op.history@) {
                    Some(speed) => if speed == 0 {
                        r is None
                    } else {
                        r matches Some(x) && is_double(x) && x@ == remaining_of(
                            op.last_progress.total_bytes,
                            op.last_progress.downloaded_bytes,
                            speed,
                        )
                    },
                    None => r is None,
                },
                None => r is None,
            },
    {
        let speed: u64 = match self.download_speed() {
            Some(s) => s,
            None => {
                return None;
            },
        };
        if speed == 0 {
            return None;
        }
        match &self.current {
            Some(op) => {
                let total: u64 = op.last_progress.total_bytes;
                let downloaded: u64 = op.last_progress.downloaded_bytes;
                let rest: u64 = if total >= downloaded {
                    total - downloaded
                } else {
                    0
                };
                Some(Float::from_u64(rest, DOUBLE).div(Float::from_u64(speed, DOUBLE), DOUBLE))
            },
            None => None,
        }
    }

    /// Forgets the operation.
    pub fn clear(&mut self)
        ensures
            final(self).followed() is None,
    {
        self.current = None;
    }

    /// Whether an operation is tracked.
    pub fn is_active(&self) -> (r: bool)
        ensures
            r == (self.followed() is Some),
    {
        self.current.is_some()
    }
}

impl Default for ProgressTracker {
    fn default() -> (t: ProgressTracker)
        ensures
            t.followed() is None,
    {
        ProgressTracker::new()
    }
}

/// A number of bytes with a unit, with `places` places where the unit is larger than a byte.
pub open spec fn bytes_text(bytes: nat, places: nat) -> Seq<char> {
    if bytes >= 0x4000_0000 {
        units_notation(bytes, 0x4000_0000, places) + " GB"@
    } else if bytes >= 0x10_0000 {
        units_notation(bytes, 0x10_0000, places) + " MB"@
    } else if bytes >= 0x400 {
        units_notation(bytes, 0x400, places) + " KB"@
    } else {
        decimal(bytes) + " B"@
    }
}

fn show_bytes(bytes: u64, places: u8) -> (out: String)
    requires
        places <= 2,
    ensures
        out@ == bytes_text(bytes as nat, places as nat),
{
    if bytes >= 0x4000_0000 {
        let mut out = from_chars(units_text(bytes, 0x4000_0000, places).as_slice());
        out.append(" GB");
        out
    } else if bytes >= 0x10_0000 {
        let mut out = from_chars(units_text(bytes, 0x10_0000, places).as_slice());
        out.append(" MB");
        out
    } else if bytes >= 0x400 {
        let mut out = from_chars(units_text(bytes, 0x400, places).as_slice());
        out.append(" KB");
        out
    } else {
        let mut out = decimal_text(bytes);
        out.append(" B");
        out
    }
}

/// A number of bytes with a unit and two places.
pub fn format_bytes(bytes: u64) -> (out: String)
    ensures
        out@ == bytes_text(bytes as nat, 2),
{
    show_bytes(bytes, 2)
}

/// A number of bytes with a unit and one place.
pub fn format_size(bytes: u64) -> (out: String)
    ensures
        out@ == bytes_text(bytes as nat, 1),
{
    show_bytes(bytes, 1)
}

/// A time span in hours and minutes, minutes and seconds, or seconds, computed in double precision:
/// seconds are rounded, ties to even, and the larger units cut.
pub open spec fn duration_text(x: FloatModel) -> Seq<char> {
    if float_floor(x) < 60 {
        float_notation(x, 0) + "s"@
    } else if float_floor(x) < 3600 {
        decimal(float_floor(float_div(x, float_of(60, 53), 53))) + "m "@ + float_notation(
            float_mod(x, 60),
            0,
        ) + "s"@
    } else {
        decimal(float_floor(float_div(x, float_of(3600, 53), 53))) + "h "@ + decimal(
            float_floor(float_div(float_mod(x, 3600), float_of(60, 53), 53)),
        ) + "m"@
    }
}

/// Whether a time span is one of double precision and short enough for every digit of its hours to
/// be significant: at most 2^53 hours.
pub open spec fn is_time_span(x: Float) -> bool {
    &&& x.mant <= 0x20_0000_0000_0000
    &&& -1_074 <= x.exp <= 12
    &&& float_floor(x@) <= 3600 * 0x20_0000_0000_0000
}

/// A time span in words.
pub fn format_duration(secs: Float) -> (out: String)
    requires
        is_time_span(secs),
    ensures
        out@ == duration_text(secs@),
{
    let whole: u64 = secs.to_u64();
    if whole < 60 {
        let mut out = if secs.exp > 3 {
            proof {
                assert(float_fixed(secs@, 1) == float_floor(secs@)) by {
                    let (m, p) = (secs.mant as int, pow2(secs.exp as nat) as int);
                    assert(m * 1 * p == m * p) by (nonlinear_arith);
                }
            }
            decimal_text(whole)
        } else {
            from_chars(secs.notation(0).as_slice())
        };
        out.append("s");
        out
    } else if whole < 3600 {
        let mins = secs.in_units(60);
        proof {
            floor_fits(mins);
        }
        let mut out = decimal_text(mins.to_u64());
        out.append("m ");
        out.append(from_chars(secs.modulo(60).notation(0).as_slice()).as_str());
        out.append("s");
        out
    } else {
        let hours = secs.in_units(3600);
        let rest = secs.modulo(3600);
        let mins = rest.in_units(60);
        proof {
            floor_fits(hours);
            floor_fits(mins);
        }
        let mut out = decimal_text(hours.to_u64());
        out.append("h ");
        out.append(decimal_text(mins.to_u64()).as_str());
        out.append("m");
        out
    }
}

// ---------------------------------------------------------------------------
// Laws

/// The newest samples are kept, in order, and never more than ten.
pub proof fn newest_samples_are_kept(history: Seq<(u64, u64)>, sample: (u64, u64))
    requires
        history.len() <= HISTORY,
    ensures
        with_sample(history, sample).len() <= HISTORY,
        with_sample(history, sample).last() == sample,
        history.len() < HISTORY ==> with_sample(history, sample) == history.push(sample),
        history.len() == HISTORY ==> with_sample(history, sample) == history.skip(1).push(sample),
{
    if history.len() == HISTORY {
        assert(with_sample(history, sample) =~= history.skip(1).push(sample));
    }
}

/// There is a speed exactly where two samples lie at different times.
pub proof fn speed_needs_two_samples(history: Seq<(u64, u64)>)
    ensures
        speed_of(history) is Some == (history.len() >= 2 && history[0].0 < history.last().0),
{
}

/// A number of bytes is given in the largest unit of which there is at least one.
pub proof fn units_fit_the_size(bytes: nat, places: nat)
    ensures
        bytes < 1024 ==> bytes_text(bytes, places) == decimal(bytes) + " B"@,
        1024 <= bytes < 1024 * 1024 ==> bytes_text(bytes, places) == units_notation(
            bytes,
            1024,
            places,
        ) + " KB"@,
        1024 * 1024 <= bytes < 1024 * 1024 * 1024 ==> bytes_text(bytes, places) == units_notation(
            bytes,
            1024 * 1024,
            places,
        ) + " MB"@,
        1024 * 1024 * 1024 <= bytes ==> bytes_text(bytes, places) == units_notation(
            bytes,
            1024 * 1024 * 1024,
            places,
        ) + " GB"@,
{
}

/// A whole number of seconds is told in seconds below a minute, in minutes and seconds below an hour,
/// and else in hours and minutes.
pub proof fn durations_are_told(n: nat)
    requires
        0 < n < 0x10_0000_0000_0000,
    ensures
        n < 60 ==> duration_text(float_of(n, 53)) == decimal(n) + "s"@,
        60 <= n < 3600 ==> duration_text(float_of(n, 53)) == decimal(n / 60) + "m "@ + decimal(
            n % 60,
        ) + "s"@,
        n >= 3600 ==> duration_text(float_of(n, 53)) == decimal(n / 3600) + "h "@ + decimal(
            n % 3600 / 60,
        ) + "m"@,
{
    whole_units_are_told(n, 1);
    quotients_are_cut(n, 60);
    quotients_are_cut(n, 3600);
    remainders_are_whole(n, 60, 60);
    remainders_are_whole(n, 3600, 60);
}

/// The speed follows from the time and the bytes between the first and the last sample alone.
pub proof fn speed_counts_new_bytes(a: Seq<(u64, u64)>, b: Seq<(u64, u64)>)
    requires
        a.len() >= 2,
        b.len() >= 2,
        a.last().0 - a[0].0 == b.last().0 - b[0].0,
        a.last().1 - a[0].1 == b.last().1 - b[0].1,
    ensures
        speed_of(a) == speed_of(b),
{
}

} // verus!
