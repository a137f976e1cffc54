//! Watermark configuration and the hysteresis rules that gate reading and
//! writing against the bounded record queue.
//!
//! Reading turns off only when the queue is full and back on once it has
//! drained to the low watermark; writing turns on at the high watermark and
//! off only when the queue is empty. The distinct thresholds keep either flag
//! from toggling rapidly when the queue size oscillates near one threshold.

use vstd::prelude::*;

verus! {

/// The validated queue geometry: capacity and the two watermarks, fixed for
/// the life of a run.
#[derive(Clone, Copy, PartialEq, Eq, Structural)]
pub struct Config {
    /// Queue capacity, in records.
    pub buffer_lines: usize,
    /// Writing begins once the queue holds at least this many records.
    pub high_wm: usize,
    /// Reading resumes once the queue has drained to at most this many records.
    pub low_wm: usize,
}

/// A rejected configuration, with the first check that failed.
#[derive(Clone, Copy, Debug, PartialEq, Eq, Structural)]
pub enum ConfigError {
    /// `high_wm` is not strictly less than `buffer_lines`.
    HighWatermarkTooHigh,
    /// `low_wm` is not strictly less than `buffer_lines`.
    LowWatermarkTooHigh,
}

impl ConfigError {
    /// A human-readable description of the failed check.
    pub fn message(&self) -> (m: &'static str)
        ensures
            *self is HighWatermarkTooHigh ==> m@ == "high-wm must be less than buffer-lines"@,
            *self is LowWatermarkTooHigh ==> m@ == "low-wm must be less than buffer-lines"@,
    {
        match self {
            ConfigError::HighWatermarkTooHigh => "high-wm must be less than buffer-lines",
            ConfigError::LowWatermarkTooHigh => "low-wm must be less than buffer-lines",
        }
    }
}

impl Config {
    /// Both watermarks lie strictly below the queue capacity.
    pub open spec fn wf(self) -> bool {
        self.high_wm < self.buffer_lines && self.low_wm < self.buffer_lines
    }

    /// Reject an invalid geometry before any I/O begins: each watermark must
    /// be strictly less than the capacity. The high watermark is checked
    /// first.
    pub fn validate(&self) -> (r: Result<(), ConfigError>)
        ensures
            r is Ok <==> self.wf(),
            self.high_wm >= self.buffer_lines
                ==> r == Result::<(), ConfigError>::Err(ConfigError::HighWatermarkTooHigh),
            self.high_wm < self.buffer_lines && self.low_wm >= self.buffer_lines
                ==> r == Result::<(), ConfigError>::Err(ConfigError::LowWatermarkTooHigh),
    {
        if self.high_wm >= self.buffer_lines {
            Err(ConfigError::HighWatermarkTooHigh)
        } else if self.low_wm >= self.buffer_lines {
            Err(ConfigError::LowWatermarkTooHigh)
        } else {
            Ok(())
        }
    }
}

/// The write-enable flag after the queue reaches `len` records: off when the
/// queue is empty, on from the high watermark up, otherwise unchanged.
pub open spec fn next_writing(cfg: Config, writing: bool, len: nat) -> bool {
    if len == 0 {
        false
    } else if len >= cfg.high_wm {
        true
    } else {
        writing
    }
}

/// The read-enable flag after the queue reaches `len` records: off when the
/// queue is full, on from the low watermark down, otherwise unchanged.
pub open spec fn next_reading(cfg: Config, reading: bool, len: nat) -> bool {
    if len >= cfg.buffer_lines {
        false
    } else if len <= cfg.low_wm {
        true
    } else {
        reading
    }
}

/// Write-side hysteresis: once writing has begun, it continues until the
/// queue is completely empty — it does not re-toggle at any intermediate
/// length, in particular not between the high watermark and zero.
pub proof fn lemma_writing_hysteresis(cfg: Config, writing: bool, len: nat)
    requires
        writing,
        len > 0,
    ensures
        next_writing(cfg, writing, len),
{
}

/// Read-side hysteresis: once reading is enabled, it continues until the
/// queue is completely full — it does not re-toggle at any length short of
/// the capacity.
pub proof fn lemma_reading_hysteresis(cfg: Config, reading: bool, len: nat)
    requires
        reading,
        len < cfg.buffer_lines,
    ensures
        next_reading(cfg, reading, len),
{
}

/// The write gate after a run of queue lengths, each applied in turn.
pub open spec fn writing_after(cfg: Config, writing: bool, lens: Seq<nat>) -> bool
    decreases lens.len(),
{
    if lens.len() == 0 {
        writing
    } else {
        writing_after(cfg, next_writing(cfg, writing, lens[0]), lens.skip(1))
    }
}

/// The read gate after a run of queue lengths, each applied in turn.
pub open spec fn reading_after(cfg: Config, reading: bool, lens: Seq<nat>) -> bool
    decreases lens.len(),
{
    if lens.len() == 0 {
        reading
    } else {
        reading_after(cfg, next_reading(cfg, reading, lens[0]), lens.skip(1))
    }
}

/// Write-side hysteresis over a whole run: once writing is on, it stays on
/// through any sequence of queue lengths that never touches zero — however
/// often the length crosses the high watermark in either direction.
pub proof fn lemma_writing_hysteresis_run(cfg: Config, writing: bool, lens: Seq<nat>)
    requires
        writing,
        forall|i: int| 0 <= i < lens.len() ==> lens[i] > 0,
    ensures
        writing_after(cfg, writing, lens),
    decreases lens.len(),
{
    if lens.len() > 0 {
        lemma_writing_hysteresis(cfg, writing, lens[0]);
        assert(forall|i: int| 0 <= i < lens.skip(1).len() ==> lens.skip(1)[i] > 0);
        lemma_writing_hysteresis_run(cfg, next_writing(cfg, writing, lens[0]), lens.skip(1));
    }
}

/// Read-side hysteresis over a whole run: once reading is on, it stays on
/// through any sequence of queue lengths that never reaches the capacity.
pub proof fn lemma_reading_hysteresis_run(cfg: Config, reading: bool, lens: Seq<nat>)
    requires
        reading,
        forall|i: int| 0 <= i < lens.len() ==> lens[i] < cfg.buffer_lines,
    ensures
        reading_after(cfg, reading, lens),
    decreases lens.len(),
{
    if lens.len() > 0 {
        lemma_reading_hysteresis(cfg, reading, lens[0]);
        assert(forall|i: int| 0 <= i < lens.skip(1).len() ==> lens.skip(1)[i] < cfg.buffer_lines);
        lemma_reading_hysteresis_run(cfg, next_reading(cfg, reading, lens[0]), lens.skip(1));
    }
}

/// The initial flags: the queue starts empty, so the run begins by filling —
/// reading enabled, writing not.
pub proof fn lemma_initial_flags(cfg: Config)
    requires
        cfg.wf(),
    ensures
        next_reading(cfg, true, 0),
        !next_writing(cfg, false, 0),
{
}

} // verus!
