//! Running many reels: how many workers to use, how the automatic mode
//! probes for a good worker count, and the small naming rules of a batch.
use vstd::prelude::*;
use crate::text;
use crate::patterns;
use crate::natural;
use crate::parser;

verus! {

// ---------------------------------------------------------------------------
// Worker counts
// ---------------------------------------------------------------------------

/// A fixed number of parallel workers, or the automatic mode.
#[derive(Debug, Clone, Copy, PartialEq, Eq, Structural)]
pub enum WorkerMode {
    Fixed(usize),
    Auto,
}

/// `auto` (ASCII case ignored, whitespace around it dropped) selects the
/// automatic mode; a number selects that many workers, at least one; any
/// other text selects four.
pub open spec fn worker_mode_of(v: Seq<char>) -> WorkerMode {
    let t = text::trim_ws(v);
    if text::eq_ignore_ascii_case_spec(t, "auto"@) {
        WorkerMode::Auto
    } else {
        WorkerMode::Fixed(
            match natural::parse_unsigned(t, usize::MAX as nat) {
                Some(n) => if n >= 1 {
                    n as usize
                } else {
                    1
                },
                None => 4,
            },
        )
    }
}

pub fn parse_worker_mode(value: &str) -> (m: WorkerMode)
    ensures
        m == worker_mode_of(value@),
{
    let v = text::chars_of(value);
    let t = text::trim(&v);
    if text::eq_ignore_ascii_case(&t, "auto") {
        return WorkerMode::Auto;
    }
    let n: u64 = match natural::parse_unsigned_exec(&t, usize::MAX as u64) {
        Some(n) => if n >= 1 {
            n
        } else {
            1
        },
        None => 4,
    };
    WorkerMode::Fixed(n as usize)
}

/// The most workers the automatic mode uses: the machine's parallelism, at
/// least two, but no more than there are scripts (and at least one).
pub open spec fn auto_limit(available: nat, script_count: nat) -> nat {
    let a: nat = if available >= 2 {
        available
    } else {
        2
    };
    let s: nat = if script_count >= 1 {
        script_count
    } else {
        1
    };
    if a <= s {
        a
    } else {
        s
    }
}

/// `available` is what the machine reports as its parallelism (four when it
/// cannot tell).
pub fn auto_worker_limit(available: usize, script_count: usize) -> (r: usize)
    ensures
        r as nat == auto_limit(available as nat, script_count as nat),
{
    let a = if available >= 2 {
        available
    } else {
        2
    };
    let s = if script_count >= 1 {
        script_count
    } else {
        1
    };
    if a <= s {
        a
    } else {
        s
    }
}

/// A requested worker count clamped to at least one and at most the number
/// of scripts.
pub open spec fn clamped_workers(requested: nat, script_count: nat) -> nat {
    let r: nat = if requested >= 1 {
        requested
    } else {
        1
    };
    if r <= script_count {
        r
    } else {
        script_count
    }
}

pub fn clamp_workers(requested: usize, script_count: usize) -> (r: usize)
    ensures
        r as nat == clamped_workers(requested as nat, script_count as nat),
{
    let r = if requested >= 1 {
        requested
    } else {
        1
    };
    if r <= script_count {
        r
    } else {
        script_count
    }
}

/// How many reels a pass of the automatic mode renders: twice the workers
/// (at least two) while probing, four times (at least four) once settled,
/// never more than remain (but at least one).
pub open spec fn chunk_size_of(workers: nat, remaining: nat, tuning: bool) -> nat {
    let target: nat = if tuning {
        if workers * 2 >= 2 {
            workers * 2
        } else {
            2
        }
    } else {
        if workers * 4 >= 4 {
            workers * 4
        } else {
            4
        }
    };
    let rem: nat = if remaining >= 1 {
        remaining
    } else {
        1
    };
    if target <= rem {
        target
    } else {
        rem
    }
}

pub fn auto_chunk_size(workers: usize, remaining: usize, tuning: bool) -> (r: usize)
    requires
        tuning ==> workers * 2 <= usize::MAX,
        !tuning ==> workers * 4 <= usize::MAX,
    ensures
        r as nat == chunk_size_of(workers as nat, remaining as nat, tuning),
{
    let target = if tuning {
        let t = workers * 2;
        if t >= 2 {
            t
        } else {
            2
        }
    } else {
        let t = workers * 4;
        if t >= 4 {
            t
        } else {
            4
        }
    };
    let rem = if remaining >= 1 {
        remaining
    } else {
        1
    };
    if target <= rem {
        target
    } else {
        rem
    }
}

/// The load seen while a pass ran. CPU and memory use are in hundredths of
/// a percent.
#[derive(Clone, Copy, PartialEq, Eq, Structural)]
pub struct ResourceSnapshot {
    pub peak_cpu_hundredths: u32,
    pub peak_memory_hundredths: u32,
    pub peak_process_memory_mb: u64,
}

/// The machine is under pressure: CPU at 92 % or memory at 88 % or more.
pub open spec fn under_pressure(s: ResourceSnapshot) -> bool {
    s.peak_cpu_hundredths >= 9200 || s.peak_memory_hundredths >= 8800
}

pub fn auto_should_back_off(snapshot: ResourceSnapshot) -> (b: bool)
    ensures
        b == under_pressure(snapshot),
{
    snapshot.peak_cpu_hundredths >= 9200 || snapshot.peak_memory_hundredths >= 8800
}


// ---------------------------------------------------------------------------
// The automatic worker count
// ---------------------------------------------------------------------------

/// Reels rendered in a pass and the time the pass took, in milliseconds
/// (never counted as less than a tenth of a second).
#[derive(Clone, Copy, PartialEq, Eq, Structural)]
pub struct Throughput {
    pub reels: usize,
    pub elapsed_ms: u32,
}

/// `a` renders more than 5 % more reels per second than `b`.
pub open spec fn clearly_faster(a: Throughput, b: Throughput) -> bool {
    100 * a.reels * b.elapsed_ms > 105 * b.reels * a.elapsed_ms
}

fn clearly_faster_exec(a: Throughput, b: Throughput) -> (r: bool)
    ensures
        r == clearly_faster(a, b),
{
    let ar = a.reels as u128;
    let be = b.elapsed_ms as u128;
    let br = b.reels as u128;
    let ae = a.elapsed_ms as u128;
    assert(ar * be <= 18446744073709551615 * 4294967295) by (nonlinear_arith)
        requires
            ar <= 18446744073709551615,
            be <= 4294967295,
    ;
    assert(br * ae <= 18446744073709551615 * 4294967295) by (nonlinear_arith)
        requires
            br <= 18446744073709551615,
            ae <= 4294967295,
    ;
    let x: u128 = ar * be;
    let y: u128 = br * ae;
    assert(100 * a.reels * b.elapsed_ms == 100 * x) by (nonlinear_arith)
        requires
            x == a.reels * b.elapsed_ms,
    ;
    assert(105 * b.reels * a.elapsed_ms == 105 * y) by (nonlinear_arith)
        requires
            y == b.reels * a.elapsed_ms,
    ;
    100 * x > 105 * y
}

/// The state of the automatic mode over the scripts of one file.
#[derive(Clone, Copy, PartialEq, Eq, Structural)]
pub struct AutoTuner {
    /// How many scripts the file holds.
    pub total: usize,
    /// The most workers to try.
    pub max_workers: usize,
    /// The worker count of the next probing pass.
    pub next_worker: usize,
    /// The settled worker count, once there is one.
    pub chosen_workers: Option<usize>,
    /// The worker count of the best pass so far.
    pub best_workers: usize,
    /// The best throughput so far, none before the first probing pass.
    pub best_score: Option<Throughput>,
    /// The first script that no pass has rendered yet.
    pub next_index: usize,
}

/// One pass: render `chunk_size` scripts from `start` with `workers` workers;
/// `tuning` while the worker count is still being probed.
#[derive(Clone, Copy, PartialEq, Eq, Structural)]
pub struct Pass {
    pub start: usize,
    pub chunk_size: usize,
    pub workers: usize,
    pub tuning: bool,
}

/// What a pass taught the automatic mode.
#[derive(Clone, Copy, PartialEq, Eq, Structural)]
pub enum TunerOutcome {
    /// The count was already settled.
    Unchanged,
    /// Settled on this count because the machine was under pressure.
    SettledUnderPressure(usize),
    /// Settled on this count after the largest count or the last script.
    SettledAfterRamp(usize),
    /// Settled on this count because throughput stopped improving.
    SettledOnPlateau(usize),
    /// The next pass probes this many workers.
    Increased(usize),
}

pub open spec fn at_least_one(n: usize) -> usize {
    if n >= 1 {
        n
    } else {
        1
    }
}

pub open spec fn min_usize(a: usize, b: usize) -> usize {
    if a <= b {
        a
    } else {
        b
    }
}

pub open spec fn cap(t: AutoTuner) -> usize {
    at_least_one(t.max_workers)
}

/// Worker counts stay between one and the cap; the cap leaves room to
/// multiply by four; passes never run past the last script.
pub open spec fn tuner_ok(t: AutoTuner) -> bool {
    &&& t.max_workers <= usize::MAX / 4
    &&& t.next_worker <= cap(t)
    &&& t.best_workers <= cap(t)
    &&& (t.chosen_workers matches Some(c) ==> 1 <= c <= cap(t))
    &&& t.next_index <= t.total
}

/// The start of the automatic mode. A count settled on an earlier file is
/// reused (clamped to the limit); otherwise probing starts at two workers.
pub open spec fn tuner_start(total: usize, max_workers: usize, locked: Option<usize>) -> AutoTuner {
    let locked_start = match locked {
        Some(w) => Some(at_least_one(min_usize(w, max_workers))),
        None => None,
    };
    let first = match locked_start {
        Some(w) => w,
        None => at_least_one(min_usize(2, max_workers)),
    };
    AutoTuner {
        total,
        max_workers,
        next_worker: first,
        chosen_workers: locked_start,
        best_workers: first,
        best_score: None,
        next_index: 0,
    }
}

/// The next pass, if scripts remain.
pub open spec fn next_pass_of(t: AutoTuner) -> Option<Pass> {
    if t.next_index >= t.total {
        None
    } else {
        let tuning = t.chosen_workers is None;
        let base = match t.chosen_workers {
            Some(c) => c,
            None => t.next_worker,
        };
        let remaining = (t.total - t.next_index) as usize;
        let workers = at_least_one(min_usize(base, remaining));
        Some(
            Pass {
                start: t.next_index,
                chunk_size: chunk_size_of(workers as nat, remaining as nat, tuning) as usize,
                workers,
                tuning,
            },
        )
    }
}

/// The state after a pass `p` that took `elapsed_ms` under `load`, and what
/// it taught.
pub open spec fn after_pass(t: AutoTuner, p: Pass, elapsed_ms: u32, load: ResourceSnapshot) -> (AutoTuner, TunerOutcome) {
    let t1 = AutoTuner { next_index: (t.next_index + p.chunk_size) as usize, ..t };
    if !p.tuning {
        (t1, TunerOutcome::Unchanged)
    } else {
        let score = Throughput {
            reels: p.chunk_size,
            elapsed_ms: if elapsed_ms >= 100 {
                elapsed_ms
            } else {
                100
            },
        };
        let overloaded = under_pressure(load);
        let improved = match t.best_score {
            None => true,
            Some(b) => clearly_faster(score, b),
        };
        let t2 = if improved && !overloaded {
            AutoTuner { best_score: Some(score), best_workers: p.workers, ..t1 }
        } else {
            t1
        };
        let settle = at_least_one(t2.best_workers);
        if overloaded {
            (AutoTuner { chosen_workers: Some(settle), ..t2 }, TunerOutcome::SettledUnderPressure(settle))
        } else if p.workers >= t.max_workers || t.next_index + p.chunk_size >= t.total {
            (AutoTuner { chosen_workers: Some(settle), ..t2 }, TunerOutcome::SettledAfterRamp(settle))
        } else if !improved && p.workers > 2 {
            (AutoTuner { chosen_workers: Some(settle), ..t2 }, TunerOutcome::SettledOnPlateau(settle))
        } else {
            let next = min_usize((p.workers + 2) as usize, t.max_workers);
            (AutoTuner { next_worker: next, ..t2 }, TunerOutcome::Increased(next))
        }
    }
}

impl AutoTuner {
    pub fn new(total: usize, max_workers: usize, locked_workers: Option<usize>) -> (t: AutoTuner)
        requires
            max_workers <= usize::MAX / 4,
        ensures
            t == tuner_start(total, max_workers, locked_workers),
            tuner_ok(t),
    {
        let locked_start = match locked_workers {
            Some(w) => {
                let m = if w <= max_workers {
                    w
                } else {
                    max_workers
                };
                Some(
                    if m >= 1 {
                        m
                    } else {
                        1
                    },
                )
            },
            None => None,
        };
        let first = match locked_start {
            Some(w) => w,
            None => {
                let m = if 2 <= max_workers {
                    2
                } else {
                    max_workers
                };
                if m >= 1 {
                    m
                } else {
                    1
                }
            },
        };
        AutoTuner {
            total,
            max_workers,
            next_worker: first,
            chosen_workers: locked_start,
            best_workers: first,
            best_score: None,
            next_index: 0,
        }
    }

    /// The next pass to run, if any scripts remain.
    pub fn next_pass(&self) -> (p: Option<Pass>)
        requires
            tuner_ok(*self),
        ensures
            p == next_pass_of(*self),
            p matches Some(q) ==> {
                &&& q.start == self.next_index
                &&& 1 <= q.chunk_size
                &&& q.start + q.chunk_size <= self.total
                &&& 1 <= q.workers <= cap(*self)
            },
    {
        if self.next_index >= self.total {
            return None;
        }
        let tuning = self.chosen_workers.is_none();
        let base = match self.chosen_workers {
            Some(c) => c,
            None => self.next_worker,
        };
        let remaining = self.total - self.next_index;
        let m = if base <= remaining {
            base
        } else {
            remaining
        };
        let workers = if m >= 1 {
            m
        } else {
            1
        };
        let chunk_size = auto_chunk_size(workers, remaining, tuning);
        Some(Pass { start: self.next_index, chunk_size, workers, tuning })
    }

    /// Records the pass that `next_pass` gave, which took `elapsed_ms` under
    /// `load`.
    pub fn finish_pass(&mut self, elapsed_ms: u32, load: ResourceSnapshot) -> (o: TunerOutcome)
        requires
            tuner_ok(*old(self)),
            old(self).next_index < old(self).total,
        ensures
            next_pass_of(*old(self)) matches Some(p) && (*final(self), o) == after_pass(
                *old(self),
                p,
                elapsed_ms,
                load,
            ),
            tuner_ok(*final(self)),
            final(self).next_index > old(self).next_index,
            old(self).chosen_workers is Some ==> final(self).chosen_workers == old(self).chosen_workers,
    {
        let p = match self.next_pass() {
            Some(p) => p,
            None => {
                return TunerOutcome::Unchanged;
            },
        };
        let before = *self;
        self.next_index = self.next_index + p.chunk_size;
        if !p.tuning {
            return TunerOutcome::Unchanged;
        }
        let score = Throughput {
            reels: p.chunk_size,
            elapsed_ms: if elapsed_ms >= 100 {
                elapsed_ms
            } else {
                100
            },
        };
        let overloaded = auto_should_back_off(load);
        let improved = match self.best_score {
            None => true,
            Some(b) => clearly_faster_exec(score, b),
        };
        if improved && !overloaded {
            self.best_score = Some(score);
            self.best_workers = p.workers;
        }
        let settle = if self.best_workers >= 1 {
            self.best_workers
        } else {
            1
        };
        if overloaded {
            self.chosen_workers = Some(settle);
            TunerOutcome::SettledUnderPressure(settle)
        } else if p.workers >= before.max_workers || before.next_index + p.chunk_size >= before.total {
            self.chosen_workers = Some(settle);
            TunerOutcome::SettledAfterRamp(settle)
        } else if !improved && p.workers > 2 {
            self.chosen_workers = Some(settle);
            TunerOutcome::SettledOnPlateau(settle)
        } else {
            let next = if p.workers + 2 <= before.max_workers {
                p.workers + 2
            } else {
                before.max_workers
            };
            self.next_worker = next;
            TunerOutcome::Increased(next)
        }
    }
}


// ---------------------------------------------------------------------------
// Going through the script files of a batch
// ---------------------------------------------------------------------------

/// The reels rendered so far over the script files of a run, and how many
/// the files held.
#[derive(Clone, Copy, PartialEq, Eq, Structural)]
pub struct BatchTally {
    pub succeeded: usize,
    pub total: usize,
}

/// A file goes into the completion ledger when it held reels and every one
/// of them rendered.
pub open spec fn file_completed(succeeded: nat, total: nat) -> bool {
    succeeded == total && total > 0
}

impl BatchTally {
    pub fn new() -> (t: BatchTally)
        ensures
            t.succeeded == 0,
            t.total == 0,
    {
        BatchTally { succeeded: 0, total: 0 }
    }

    /// Adds the outcome of one script file; tells whether that file goes into
    /// the completion ledger.
    pub fn record_file(&mut self, succeeded: usize, total: usize) -> (ledger: bool)
        requires
            old(self).succeeded + succeeded <= usize::MAX,
            old(self).total + total <= usize::MAX,
        ensures
            final(self).succeeded == old(self).succeeded + succeeded,
            final(self).total == old(self).total + total,
            ledger == file_completed(succeeded as nat, total as nat),
    {
        self.succeeded = self.succeeded + succeeded;
        self.total = self.total + total;
        succeeded == total && total > 0
    }
}

/// The output sub-folder of a script file: in a batch, the slug of the
/// file's stem (`scripts` when it has none); otherwise none.
pub open spec fn file_folder_of(batch_mode: bool, stem: Option<Seq<char>>) -> Option<Seq<char>> {
    if batch_mode {
        Some(parser::slug_of(
            match stem {
                Some(s) => s,
                None => "scripts"@,
            },
        ))
    } else {
        None
    }
}

pub fn file_folder(batch_mode: bool, stem: Option<&str>) -> (r: Option<String>)
    ensures
        match r {
            Some(f) => file_folder_of(
                batch_mode,
                match stem {
                    Some(s) => Some(s@),
                    None => None,
                },
            ) == Some(f@),
            None => !batch_mode,
        },
{
    if batch_mode {
        let s = match stem {
            Some(s) => s,
            None => "scripts",
        };
        Some(parser::slugify(s))
    } else {
        None
    }
}

/// What a finished run reports, as its status and its log line: a run that
/// was asked to stop reports that it stopped, any other that it is done.
pub open spec fn finish_report_of(was_stopping: bool) -> (Seq<char>, Seq<char>) {
    if was_stopping {
        ("Stopped"@, "\u{23f9} Render stopped."@)
    } else {
        ("Done \u{2705}"@, "\u{1f389} Process finished!"@)
    }
}

pub fn finish_report(was_stopping: bool) -> (r: (String, String))
    ensures
        (r.0@, r.1@) == finish_report_of(was_stopping),
{
    if was_stopping {
        (
            text::string_of(&text::chars_of("Stopped")),
            text::string_of(&text::chars_of("\u{23f9} Render stopped.")),
        )
    } else {
        (
            text::string_of(&text::chars_of("Done \u{2705}")),
            text::string_of(&text::chars_of("\u{1f389} Process finished!")),
        )
    }
}

// ---------------------------------------------------------------------------
// Names in a batch
// ---------------------------------------------------------------------------

/// The stamp that tells apart the overlays of one run: the last eight
/// decimal digits of the time in milliseconds.
pub open spec fn stamp_of(ms: nat) -> Seq<char> {
    let d = text::decimal(ms);
    if d.len() > 8 {
        d.skip(d.len() - 8)
    } else {
        d
    }
}

/// `now_ms` is the time since the Unix epoch, in milliseconds.
pub fn millisecond_stamp(now_ms: u128) -> (r: String)
    ensures
        r@ == stamp_of(now_ms as nat),
{
    let mut d: Vec<char> = Vec::new();
    text::push_decimal(&mut d, now_ms);
    assert(d@ =~= text::decimal(now_ms as nat));
    let s = if d.len() > 8 {
        text::slice(&d, d.len() - 8, d.len())
    } else {
        d
    };
    text::string_of(&s)
}

/// The line that records a finished script file: its stem and the name of
/// its folder, `scripts` and `root` standing in for a missing one.
pub open spec fn ledger_line_of(stem: Option<Seq<char>>, folder: Option<Seq<char>>) -> Seq<char> {
    (match stem {
        Some(s) => s,
        None => "scripts"@,
    }) + ":"@ + (match folder {
        Some(f) => f,
        None => "root"@,
    })
}

pub fn ledger_line(stem: Option<&str>, folder: Option<&str>) -> (r: String)
    ensures
        r@ == ledger_line_of(
            match stem {
                Some(s) => Some(s@),
                None => None,
            },
            match folder {
                Some(f) => Some(f@),
                None => None,
            },
        ),
{
    let mut v = match stem {
        Some(s) => text::chars_of(s),
        None => text::chars_of("scripts"),
    };
    text::push_str(&mut v, ":");
    match folder {
        Some(f) => text::push_str(&mut v, f),
        None => text::push_str(&mut v, "root"),
    }
    text::string_of(&v)
}

/// A file extension is one of the wanted ones once lower-cased.
pub open spec fn extension_wanted(ext: Seq<char>, wanted: Seq<Seq<char>>) -> bool {
    wanted.contains(text::unicode_lowercase(ext))
}

pub fn extension_matches(ext: &str, wanted: &Vec<String>) -> (b: bool)
    ensures
        b == extension_wanted(ext@, patterns::strings(wanted@)),
{
    let v = text::chars_of(ext);
    let lower = text::lowercase(&v);
    let ghost ws = patterns::strings(wanted@);
    let mut i: usize = 0;
    while i < wanted.len()
        invariant
            i <= wanted.len(),
            ws == patterns::strings(wanted@),
            lower@ == text::unicode_lowercase(ext@),
            forall|j: int| 0 <= j < i ==> ws[j] != lower@,
        decreases wanted.len() - i,
    {
        let w = text::chars_of(wanted[i].as_str());
        if text::eq_chars(&w, &lower) {
            assert(ws[i as int] == lower@);
            assert(ws.contains(lower@));
            return true;
        }
        i += 1;
    }
    false
}

} // verus!
