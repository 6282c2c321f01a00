//! The render loop's decisions: which line to draw for each reading of the
//! elapsed-seconds counter, and when a countdown is over.

use vstd::prelude::*;
use vstd::string::StrSliceExecFns;
use crate::pretty::{pretty, Timerange};

verus! {

/// Whether the timer counts up from zero or down from a target.
#[derive(Debug, Clone, Copy, PartialEq, Eq, Structural)]
pub enum Counter {
    CountUp,
    CountDown(u64),
}

/// The number of seconds shown after `seen` seconds have elapsed: the
/// elapsed time when counting up, the time left (never below zero) when
/// counting down.
pub open spec fn shown(mode: Counter, seen: nat) -> nat {
    match mode {
        Counter::CountUp => seen,
        Counter::CountDown(target) => if seen >= target {
            0
        } else {
            (target - seen) as nat
        },
    }
}

pub open spec fn suffix(mode: Counter) -> Seq<char> {
    match mode {
        Counter::CountUp => " passed"@,
        Counter::CountDown(_) => " left"@,
    }
}

/// The text shown for `n` seconds.
pub open spec fn frame_text(mode: Counter, n: nat) -> Seq<char> {
    pretty(n) + suffix(mode)
}

/// `n` spaces.
pub open spec fn spaces(n: nat) -> Seq<char>
    decreases n,
{
    if n == 0 {
        Seq::empty()
    } else {
        spaces((n - 1) as nat) + " "@
    }
}

/// Whether a run in `mode` is over once `seen` seconds have elapsed.
pub open spec fn is_over(mode: Counter, seen: nat) -> bool {
    match mode {
        Counter::CountUp => false,
        Counter::CountDown(target) => seen >= target,
    }
}

/// The engine's state: the mode, the largest counter value seen, the length
/// of the text last drawn, and whether the run is over.
pub struct EngineView {
    pub mode: Counter,
    pub seen: nat,
    pub drawn: nat,
    pub done: bool,
}

impl EngineView {
    pub open spec fn shown(self) -> nat {
        shown(self.mode, self.seen)
    }

    /// A reading that is no larger than what was already seen, or one that
    /// comes once the run is over, changes nothing.
    pub open spec fn changes_on(self, count: nat) -> bool {
        !self.done && count > self.seen
    }

    /// The state after reading `count` from the counter.
    pub open spec fn step(self, count: nat) -> EngineView {
        if self.changes_on(count) {
            EngineView {
                mode: self.mode,
                seen: count,
                drawn: frame_text(self.mode, shown(self.mode, count)).len(),
                done: is_over(self.mode, count),
            }
        } else {
            self
        }
    }

    /// The line to draw after reading `count`, if any: the new text, padded
    /// with spaces to cover a longer previous one.
    pub open spec fn frame(self, count: nat) -> Option<Seq<char>> {
        if self.changes_on(count) {
            let text = frame_text(self.mode, shown(self.mode, count));
            let pad: nat = if self.drawn > text.len() {
                (self.drawn - text.len()) as nat
            } else {
                0
            };
            Some(text + spaces(pad))
        } else {
            None
        }
    }
}

/// The state right after starting in `mode`, with nothing elapsed.
pub open spec fn started(mode: Counter) -> EngineView {
    EngineView {
        mode,
        seen: 0,
        drawn: frame_text(mode, shown(mode, 0)).len(),
        done: is_over(mode, 0),
    }
}

/// The state after reading each of `reads` in turn.
pub open spec fn after_reads(v: EngineView, reads: Seq<u64>) -> EngineView
    decreases reads.len(),
{
    if reads.len() == 0 {
        v
    } else {
        after_reads(v, reads.drop_last()).step(reads.last() as nat)
    }
}

/// Reading the counter never changes the mode and never lowers the largest
/// value seen.
pub proof fn lemma_step_keeps_mode(v: EngineView, count: nat)
    ensures
        v.step(count).mode == v.mode,
        v.seen <= v.step(count).seen,
{
}

/// No sequence of readings changes the mode.
pub proof fn lemma_after_reads_keeps_mode(v: EngineView, reads: Seq<u64>)
    ensures
        after_reads(v, reads).mode == v.mode,
    decreases reads.len(),
{
    if reads.len() > 0 {
        lemma_after_reads_keeps_mode(v, reads.drop_last());
    }
}

/// Over any sequence of counter readings, what is shown never goes back: it
/// never decreases while counting up and never increases while counting
/// down, whatever order the readings come in.
pub proof fn lemma_shown_monotone(v: EngineView, reads: Seq<u64>, i: nat, j: nat)
    requires
        i <= j <= reads.len(),
    ensures
        after_reads(v, reads.take(j as int)).mode == v.mode,
        after_reads(v, reads.take(i as int)).seen <= after_reads(v, reads.take(j as int)).seen,
        v.mode is CountUp ==> after_reads(v, reads.take(i as int)).shown() <= after_reads(
            v,
            reads.take(j as int),
        ).shown(),
        v.mode is CountDown ==> after_reads(v, reads.take(j as int)).shown() <= after_reads(
            v,
            reads.take(i as int),
        ).shown(),
    decreases j,
{
    if j == i {
        lemma_after_reads_keeps_mode(v, reads.take(j as int));
    } else {
        lemma_shown_monotone(v, reads, i, (j - 1) as nat);
        assert(reads.take(j as int).drop_last() =~= reads.take(j - 1));
        lemma_step_keeps_mode(after_reads(v, reads.take(j - 1)), reads[j - 1] as nat);
    }
}

/// A countdown from `target` is over exactly when it shows zero, never shows
/// more than `target`, and is over once any reading reaches `target`.
pub proof fn lemma_countdown_finishes(target: u64, reads: Seq<u64>)
    ensures
        after_reads(started(Counter::CountDown(target)), reads).mode == Counter::CountDown(target),
        after_reads(started(Counter::CountDown(target)), reads).done <==> after_reads(
            started(Counter::CountDown(target)),
            reads,
        ).shown() == 0,
        after_reads(started(Counter::CountDown(target)), reads).shown() <= target,
        (exists|k: int| 0 <= k < reads.len() && reads[k] >= target) ==> after_reads(
            started(Counter::CountDown(target)),
            reads,
        ).done,
    decreases reads.len(),
{
    let v0 = started(Counter::CountDown(target));
    if reads.len() > 0 {
        let front = reads.drop_last();
        lemma_countdown_finishes(target, front);
        let prev = after_reads(v0, front);
        assert(prev.done == (prev.seen >= target));
        if exists|k: int| 0 <= k < reads.len() && reads[k] >= target {
            let k = choose|k: int| 0 <= k < reads.len() && reads[k] >= target;
            if k < reads.len() - 1 {
                assert(front[k] >= target);
            }
        }
    }
}

/// Appends the mode's suffix ("passed" or "left") to a rendered duration.
pub fn prep_pretty(left: String, count_request: &Counter) -> (r: String)
    ensures
        r@ == left@ + suffix(*count_request),
{
    let mut out = left;
    match count_request {
        Counter::CountUp => out.append(" passed"),
        Counter::CountDown(_) => out.append(" left"),
    }
    out
}

fn shown_value(mode: Counter, seen: u64) -> (r: u64)
    ensures
        r == shown(mode, seen as nat),
{
    match mode {
        Counter::CountUp => seen,
        Counter::CountDown(target) => if seen >= target {
            0
        } else {
            target - seen
        },
    }
}

fn render(mode: Counter, seen: u64) -> (r: String)
    ensures
        r@ == frame_text(mode, shown(mode, seen as nat)),
{
    prep_pretty(Timerange::new(shown_value(mode, seen)).print(), &mode)
}

/// The render loop's state.
pub struct Engine {
    mode: Counter,
    seen: u64,
    drawn: usize,
    done: bool,
}

impl View for Engine {
    type V = EngineView;

    closed spec fn view(&self) -> EngineView {
        EngineView { mode: self.mode, seen: self.seen as nat, drawn: self.drawn as nat, done: self.done }
    }
}

impl Engine {
    /// Starts a run: the engine and the first line to draw.
    pub fn start(mode: Counter) -> (r: (Engine, String))
        ensures
            r.0@ == started(mode),
            r.1@ == frame_text(mode, shown(mode, 0)),
    {
        let text = render(mode, 0);
        let drawn = text.as_str().unicode_len();
        let done = match mode {
            Counter::CountUp => false,
            Counter::CountDown(target) => target == 0,
        };
        (Engine { mode, seen: 0, drawn, done }, text)
    }

    /// Takes a reading of the elapsed-seconds counter and returns the line
    /// to draw, or `None` when nothing changed.
    pub fn observe(&mut self, count: u64) -> (r: Option<String>)
        ensures
            final(self)@ == old(self)@.step(count as nat),
            r is None <==> old(self)@.frame(count as nat) is None,
            r matches Some(line) ==> old(self)@.frame(count as nat) == Some(line@),
    {
        if self.done || count <= self.seen {
            return None;
        }
        let text = render(self.mode, count);
        let len = text.as_str().unicode_len();
        let pad: usize = if self.drawn > len {
            self.drawn - len
        } else {
            0
        };
        let mut line = text;
        let mut k: usize = 0;
        while k < pad
            invariant
                k <= pad,
                line@ == frame_text(self.mode, shown(self.mode, count as nat)) + spaces(k as nat),
            decreases pad - k,
        {
            line.append(" ");
            k = k + 1;
            assert(line@ =~= frame_text(self.mode, shown(self.mode, count as nat)) + spaces(
                k as nat,
            ));
        }
        self.seen = count;
        self.drawn = len;
        self.done = match self.mode {
            Counter::CountUp => false,
            Counter::CountDown(target) => count >= target,
        };
        Some(line)
    }

    /// Whether the run is over (a countdown that reached zero).
    pub fn is_finished(&self) -> (r: bool)
        ensures
            r == self@.done,
    {
        self.done
    }

    /// The number of seconds currently shown.
    pub fn shown(&self) -> (r: u64)
        ensures
            r == self@.shown(),
    {
        shown_value(self.mode, self.seen)
    }

    pub fn mode(&self) -> (r: Counter)
        ensures
            r == self@.mode,
    {
        self.mode
    }
}

} // verus!
