//! The task that runs in the background: what the user sees of it, when the
//! watch over its script ends, and what follows.

use vstd::prelude::*;
use std::collections::VecDeque;
use crate::game::GameType;
use crate::script_engine::StopReason;
use crate::text::{text_of, texts, two_digit_text, two_digits};

verus! {

/// The number of log lines that are kept.
pub const MAX_LOGS: usize = 200;

// ---------------------------------------------------------------------------
// Watching a script
// ---------------------------------------------------------------------------

/// The number of nanoseconds in a second.
pub const NANOS: u128 = 1_000_000_000;

/// Why the watch over a script ends now, if it does: the script has finished,
/// or else the user wants to leave, or else to start over, or else the time is
/// over.
pub open spec fn verdict(
    finished: bool,
    exit: bool,
    reset: bool,
    timeout: u64,
    elapsed: u128,
) -> Option<StopReason> {
    if finished {
        Some(StopReason::Finished)
    } else if exit {
        Some(StopReason::Exit)
    } else if reset {
        Some(StopReason::Reset)
    } else if elapsed > timeout * NANOS {
        Some(StopReason::Timeout)
    } else {
        None
    }
}

/// Looks whether the watch over a script ends. `timeout` is in seconds,
/// `elapsed` in nanoseconds. A wish to start over that is granted is taken
/// back, and a script that has not finished is told to stop.
pub fn check(
    finished: bool,
    exit: bool,
    reset: &mut bool,
    stop: &mut bool,
    timeout: u64,
    elapsed: u128,
) -> (r: Option<StopReason>)
    ensures
        r == verdict(finished, exit, *old(reset), timeout, elapsed),
        *final(reset) == (*old(reset) && (finished || exit)),
        *final(stop) == (*old(stop) || (r is Some && !finished)),
{
    if finished {
        return Some(StopReason::Finished);
    }
    if exit {
        *stop = true;
        return Some(StopReason::Exit);
    }
    if *reset {
        *reset = false;
        *stop = true;
        return Some(StopReason::Reset);
    }
    assert((timeout as u128) * 1_000_000_000 <= u128::MAX) by (nonlinear_arith)
        requires
            timeout <= u64::MAX,
    ;
    if elapsed > (timeout as u128) * 1_000_000_000 {
        *stop = true;
        return Some(StopReason::Timeout);
    }
    None
}

/// What to do next with a watched script.
#[derive(Debug, Clone, Copy, PartialEq, Eq)]
pub enum Watch {
    /// Wait that many microseconds and look again.
    Rest(u64),
    /// Wait for the script to return, and take the request to stop back.
    Join,
}

/// One look at a script that nothing but its end, the user or the clock stops,
/// with the given time between two looks.
pub fn watch(
    interval: u64,
    finished: bool,
    exit: bool,
    reset: &mut bool,
    stop: &mut bool,
    timeout: u64,
    elapsed: u128,
) -> (r: Watch)
    ensures
        r == (if verdict(finished, exit, *old(reset), timeout, elapsed) is Some {
            Watch::Join
        } else {
            Watch::Rest(interval)
        }),
        *final(reset) == (*old(reset) && (finished || exit)),
        *final(stop) == (*old(stop) || (r is Join && !finished)),
{
    match check(finished, exit, reset, stop, timeout, elapsed) {
        Some(_) => Watch::Join,
        None => Watch::Rest(interval),
    }
}

/// The time that a task may take, in seconds: what the user said, and else
/// what the script says.
pub fn effective_timeout(asked: u64, scripted: u64) -> (r: u64)
    ensures
        r == (if asked > 0 {
            asked
        } else {
            scripted
        }),
{
    if asked > 0 {
        asked
    } else {
        scripted
    }
}

/// Whether the gamepad and the pictures that were loaded for the last task
/// serve the next one.
pub fn is_reusable(cached: Option<GameType>, game: GameType) -> (yes: bool)
    ensures
        yes == (cached == Some(game)),
{
    match cached {
        Some(g) => g == game,
        None => false,
    }
}

// ---------------------------------------------------------------------------
// What the user sees
// ---------------------------------------------------------------------------

/// What the user sees of a task.
pub struct SharedState {
    pub running: bool,
    pub logs: VecDeque<String>,
    pub error: Option<String>,
}

/// The last lines of a log, as many as are kept.
pub open spec fn kept(lines: Seq<Seq<char>>) -> Seq<Seq<char>> {
    if lines.len() > MAX_LOGS {
        lines.skip(lines.len() - MAX_LOGS)
    } else {
        lines
    }
}

/// A number of seconds as hours, minutes and seconds.
pub open spec fn clock(secs: nat) -> Seq<char> {
    two_digits(secs / 3600) + seq![':'] + two_digits(secs / 60 % 60) + seq![':'] + two_digits(
        secs % 60,
    )
}

/// A line of the log: the time since the start and the message.
pub open spec fn log_line(secs: nat, msg: Seq<char>) -> Seq<char> {
    seq!['['] + clock(secs) + seq![']', ' '] + msg
}

/// Writes a line of the log.
fn write_log_line(secs: u64, msg: &str) -> (s: String)
    ensures
        s@ == log_line(secs as nat, msg@),
{
    let mut s: String = String::new();
    let h: String = two_digit_text(secs / 60 / 60);
    let m: String = two_digit_text(secs / 60 % 60);
    let t: String = two_digit_text(secs % 60);
    s.push('[');
    s.append(h.as_str());
    s.push(':');
    s.append(m.as_str());
    s.push(':');
    s.append(t.as_str());
    s.push(']');
    s.push(' ');
    s.append(msg);
    proof {
        assert(secs / 60 / 60 == secs / 3600);
        assert(s@ =~= log_line(secs as nat, msg@));
    }
    s
}

impl SharedState {
    /// The lines of the log.
    pub open spec fn lines(self) -> Seq<Seq<char>> {
        texts(self.logs@)
    }

    /// Only as many lines are in the log as are kept.
    pub open spec fn wf(self) -> bool {
        self.logs@.len() <= MAX_LOGS
    }

    pub fn new() -> (s: Self)
        ensures
            s.wf(),
            !s.running,
            s.lines() == Seq::<Seq<char>>::empty(),
            s.error is None,
    {
        let s = SharedState { running: false, logs: VecDeque::new(), error: None };
        assert(s.lines() =~= Seq::<Seq<char>>::empty());
        s
    }

    /// Adds a message to the log, `elapsed` seconds behind the start.
    pub fn push_log(&mut self, elapsed: u64, msg: &str)
        ensures
            final(self).wf(),
            final(self).lines() == kept(old(self).lines().push(log_line(elapsed as nat, msg@))),
            final(self).running == old(self).running,
            final(self).error == old(self).error,
    {
        let line: String = write_log_line(elapsed, msg);
        let ghost all = old(self).lines().push(line@);
        self.logs.push_back(line);
        assert(self.lines() =~= all);
        assert(all.skip(0) =~= all);
        while self.logs.len() > MAX_LOGS
            invariant
                self.logs@.len() <= all.len(),
                all.len() > MAX_LOGS ==> self.logs@.len() >= MAX_LOGS,
                all.len() <= MAX_LOGS ==> self.logs@.len() == all.len(),
                self.lines() == all.skip(all.len() - self.logs@.len()),
                self.running == old(self).running,
                self.error == old(self).error,
            decreases self.logs@.len(),
        {
            let ghost before = self.lines();
            self.logs.pop_front();
            assert(self.lines() =~= before.skip(1));
            assert(before.skip(1) =~= all.skip(all.len() - self.logs@.len()));
        }
    }

    /// The task has failed.
    pub fn set_error(&mut self, msg: String)
        ensures
            text_of(final(self).error) == Some(msg@),
            !final(self).running,
            final(self).lines() == old(self).lines(),
            old(self).wf() ==> final(self).wf(),
    {
        self.error = Some(msg);
        self.running = false;
    }

    /// The task runs.
    pub fn set_running(&mut self)
        ensures
            final(self).running,
            final(self).lines() == old(self).lines(),
            final(self).error == old(self).error,
            old(self).wf() ==> final(self).wf(),
    {
        self.running = true;
    }

    /// A task has ended, by itself or with a failure that is written down.
    pub fn end_task(&mut self, elapsed: u64, failure: Option<&str>)
        ensures
            final(self).wf(),
            !final(self).running,
            final(self).error == old(self).error,
            final(self).lines() == kept(
                (match failure {
                    Some(e) => kept(
                        old(self).lines().push(log_line(elapsed as nat, "任务出错："@ + e@)),
                    ),
                    None => old(self).lines(),
                }).push(log_line(elapsed as nat, "任务已停止"@)),
            ),
    {
        match failure {
            Some(e) => {
                let mut line: String = "任务出错：".to_owned();
                line.append(e);
                self.push_log(elapsed, line.as_str());
            },
            None => {},
        }
        self.running = false;
        self.push_log(elapsed, "任务已停止");
    }

    /// A script of the user's own has ended.
    pub fn end_custom(&mut self, elapsed: u64)
        ensures
            final(self).wf(),
            !final(self).running,
            final(self).error == old(self).error,
            final(self).lines() == kept(
                old(self).lines().push(log_line(elapsed as nat, "脚本执行结束"@)),
            ),
    {
        self.running = false;
        self.push_log(elapsed, "脚本执行结束");
    }
}

// ---------------------------------------------------------------------------
// Laws
// ---------------------------------------------------------------------------

/// The newest message is always in the log.
pub proof fn law_newest_line_kept(lines: Seq<Seq<char>>, line: Seq<char>)
    ensures
        kept(lines.push(line)).len() > 0,
        kept(lines.push(line)).last() == line,
        kept(lines.push(line)).len() <= MAX_LOGS,
{
}

/// To keep the last lines after every message is to keep the last lines of all
/// messages.
pub proof fn law_kept_of_kept(lines: Seq<Seq<char>>, line: Seq<char>)
    ensures
        kept(kept(lines).push(line)) == kept(lines.push(line)),
{
    assert(kept(kept(lines).push(line)) =~= kept(lines.push(line)));
}

/// A script that has finished has finished, whatever else is asked for, and
/// the wish to leave goes before the wish to start over.
pub proof fn law_verdict_order(exit: bool, reset: bool, timeout: u64, elapsed: u128)
    ensures
        verdict(true, exit, reset, timeout, elapsed) == Some(StopReason::Finished),
        verdict(false, true, reset, timeout, elapsed) == Some(StopReason::Exit),
        verdict(false, false, true, timeout, elapsed) == Some(StopReason::Reset),
{
}

/// Once the time is over, it stays over.
pub proof fn law_timeout_stays(timeout: u64, earlier: u128, later: u128)
    requires
        earlier <= later,
        verdict(false, false, false, timeout, earlier) is Some,
    ensures
        verdict(false, false, false, timeout, later) == Some(StopReason::Timeout),
{
}

/// The watch ends for exactly one reason: the script has finished; or it has not,
/// and the user wants to leave; or neither, and the user wants to start over; or
/// none of these, and more than the allowed seconds have passed.
pub proof fn law_reasons_to_end(
    finished: bool,
    exit: bool,
    reset: bool,
    timeout: u64,
    elapsed: u128,
)
    ensures
        ({
            let v = verdict(finished, exit, reset, timeout, elapsed);
            &&& v == Some(StopReason::Finished) <==> finished
            &&& v == Some(StopReason::Exit) <==> !finished && exit
            &&& v == Some(StopReason::Reset) <==> !finished && !exit && reset
            &&& v == Some(StopReason::Timeout) <==> !finished && !exit && !reset && elapsed
                > timeout * 1_000_000_000
            &&& v != Some(StopReason::TaskEnded)
        }),
{
}

/// The log keeps the last lines in their order: all of them up to 200, and else
/// the last 200.
pub proof fn law_last_lines_are_kept(lines: Seq<Seq<char>>, i: int)
    ensures
        kept(lines).len() == (if lines.len() < 200 {
            lines.len() as int
        } else {
            200
        }),
        0 <= i < kept(lines).len() ==> kept(lines)[i] == lines[lines.len() - kept(lines).len() + i],
{
}

/// The time in the log is that since the start: so many hours, minutes and
/// seconds, the last two below sixty, with colons between them.
pub proof fn law_clock_tells_the_time(secs: nat, msg: Seq<char>)
    ensures
        exists|h: nat, m: nat, s: nat|
            {
                &&& #[trigger] told(secs, h, m, s)
                &&& clock(secs) == two_digits(h) + seq![':'] + two_digits(m) + seq![':']
                    + two_digits(s)
            },
        forall|h: nat, m: nat, s: nat| #[trigger]
            told(secs, h, m, s) <==> secs == 3600 * h + 60 * m + s && m < 60 && s < 60,
        log_line(secs, msg).len() == clock(secs).len() + msg.len() + 3,
        log_line(secs, msg)[0] == '[',
        log_line(secs, msg).subrange(1, 1 + clock(secs).len() as int) == clock(secs),
        log_line(secs, msg)[1 + clock(secs).len() as int] == ']',
        log_line(secs, msg)[2 + clock(secs).len() as int] == ' ',
        log_line(secs, msg).skip(3 + clock(secs).len() as int) == msg,
{
    let (h, m, s) = (secs / 3600, secs / 60 % 60, secs % 60);
    assert(secs == 3600 * h + 60 * m + s) by {
        assert(secs / 60 == 60 * (secs / 60 / 60) + secs / 60 % 60);
        assert(secs / 60 / 60 == secs / 3600);
    }
    assert(told(secs, h, m, s));
    let l = log_line(secs, msg);
    assert(l.subrange(1, 1 + clock(secs).len() as int) =~= clock(secs));
    assert(l.skip(3 + clock(secs).len() as int) =~= msg);
}

/// Whether a number of seconds is so many hours, minutes and seconds.
pub open spec fn told(secs: nat, h: nat, m: nat, s: nat) -> bool {
    secs == 3600 * h + 60 * m + s && m < 60 && s < 60
}

/// The log is seen line by line as it is.
pub proof fn law_log_is_seen_as_it_is(s: SharedState, i: int)
    ensures
        s.lines().len() == s.logs@.len(),
        0 <= i < s.lines().len() ==> s.lines()[i] == s.logs@[i]@,
        s.wf() <==> s.logs@.len() <= 200,
{
}

} // verus!
