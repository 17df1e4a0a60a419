//! The game `dna`: what its screens look like, and the loop in which its tasks
//! run.

use vstd::prelude::*;
use crate::input::{after_all, neutral, PadCommand, XGamepad, A, START, X};
use crate::script_engine::StopReason;
use crate::text::{is_listed, texts};
use crate::vision::{
    both, either, opposite, see_both, see_either, see_equal, see_like, see_opposite, seen_equal,
    seen_like, Image, Seen,
};
use crate::worker::{check, verdict};

verus! {

/// The title of the window of the game.
pub const WINDOW_TITLE: &'static str = "二重螺旋  ";

// ---------------------------------------------------------------------------
// Screens
// ---------------------------------------------------------------------------

/// Whether one of three neighbouring pixels is black.
pub open spec fn black_near(img: Image, x: int, y: int) -> Seen {
    either(
        either(seen_equal(img, x - 1, y, 0, 0, 0), seen_equal(img, x, y, 0, 0, 0)),
        seen_equal(img, x + 1, y, 0, 0, 0),
    )
}

/// Whether a row of the screen has the two marks of a task that has ended.
pub open spec fn row_ended(img: Image, y: int) -> Seen {
    both(black_near(img, 880, y), black_near(img, 1124, y))
}

/// Whether the screen is that of a task that has ended: the marks are in one of
/// three rows, and not in the row below. Nothing if the frame does not reach as
/// far as the look has to.
pub open spec fn shows_end(img: Image) -> Seen {
    both(
        either(either(row_ended(img, 654), row_ended(img, 663)), row_ended(img, 672)),
        opposite(seen_equal(img, 900, 681, 0, 0, 0)),
    )
}

/// Whether the screen is that of a task that has started.
pub open spec fn shows_start(img: Image) -> Seen {
    both(
        both(
            seen_like(img, 115, 690, 143, 209, 158, 5),
            seen_like(img, 225, 690, 143, 209, 158, 5),
        ),
        opposite(seen_like(img, 115, 695, 143, 209, 158, 5)),
    )
}

fn see_black(img: &Image, x: u32, y: u32) -> (s: Seen)
    requires
        img.wf(),
        0 < x < u32::MAX,
    ensures
        s == black_near(*img, x as int, y as int),
{
    see_either(
        see_either(see_equal(img, x - 1, y, 0, 0, 0), see_equal(img, x, y, 0, 0, 0)),
        see_equal(img, x + 1, y, 0, 0, 0),
    )
}

fn see_row(img: &Image, y: u32) -> (s: Seen)
    requires
        img.wf(),
    ensures
        s == row_ended(*img, y as int),
{
    see_both(see_black(img, 880, y), see_black(img, 1124, y))
}

/// Whether the screen is that of a task that has ended.
pub fn task_ended(img: &Image) -> (s: Seen)
    requires
        img.wf(),
    ensures
        s == shows_end(*img),
{
    see_both(
        see_either(see_either(see_row(img, 654), see_row(img, 663)), see_row(img, 672)),
        see_opposite(see_equal(img, 900, 681, 0, 0, 0)),
    )
}

/// Whether the screen is that of a task that has started.
pub fn task_started(img: &Image) -> (s: Seen)
    requires
        img.wf(),
    ensures
        s == shows_start(*img),
{
    see_both(
        see_both(
            see_like(img, 115, 690, 143, 209, 158, 5),
            see_like(img, 225, 690, 143, 209, 158, 5),
        ),
        see_opposite(see_like(img, 115, 695, 143, 209, 158, 5)),
    )
}

/// A frame of the expected size is looked at to the end.
pub proof fn law_full_frame_is_seen(img: Image)
    requires
        img.width >= 1280,
        img.height >= 720,
    ensures
        shows_end(img) is Some,
        shows_start(img) is Some,
{
}

/// A task has ended exactly when one of three rows has a black pixel at either
/// mark, one column to the side or not, and the row below them is not black there,
/// by the bytes of the frame.
pub proof fn law_end_by_its_marks(img: Image)
    requires
        img.width >= 1126,
        img.height >= 682,
    ensures
        ({
            let black = |x: int, y: int|
                {
                    let at = 3 * (y * img.width + x);
                    img.data@[at] == 0 && img.data@[at + 1] == 0 && img.data@[at + 2] == 0
                };
            let marks = |y: int|
                {
                    &&& black(879, y) || black(880, y) || black(881, y)
                    &&& black(1123, y) || black(1124, y) || black(1125, y)
                };
            shows_end(img) == Some(
                (marks(654) || marks(663) || marks(672)) && !black(900, 681),
            )
        }),
{
}

/// A task has started exactly when the bar is green at two places and not below
/// the first, by the bytes of the frame.
pub proof fn law_start_by_its_marks(img: Image)
    requires
        img.width >= 226,
        img.height >= 696,
    ensures
        ({
            let green = |x: int, y: int|
                {
                    let at = 3 * (y * img.width + x);
                    &&& 138 < img.data@[at] < 148
                    &&& 204 < img.data@[at + 1] < 214
                    &&& 153 < img.data@[at + 2] < 163
                };
            shows_start(img) == Some(green(115, 690) && green(225, 690) && !green(115, 695))
        }),
{
}

/// What a smaller frame shows, a larger frame with the same pixels shows too; and
/// a frame that does not reach to the first mark shows nothing.
pub proof fn law_larger_frame_agrees(img: Image, larger: Image)
    requires
        img.width <= larger.width,
        img.height <= larger.height,
        forall|x: int, y: int, c: int|
            img.has(x, y) && 0 <= c < 3 ==> #[trigger] img.channel(x, y, c) == larger.channel(
                x,
                y,
                c,
            ),
    ensures
        shows_end(img) is Some ==> shows_end(larger) == shows_end(img),
        shows_start(img) is Some ==> shows_start(larger) == shows_start(img),
        img.width < 880 || img.height < 655 ==> shows_end(img) is None,
        img.width < 116 || img.height < 691 ==> shows_start(img) is None,
{
    assert forall|x: int, y: int, r: u8, g: u8, b: u8|
        img.has(x, y) implies #[trigger] seen_equal(img, x, y, r, g, b) == seen_equal(
        larger,
        x,
        y,
        r,
        g,
        b,
    ) by {
        assert(img.channel(x, y, 0) == larger.channel(x, y, 0));
        assert(img.channel(x, y, 1) == larger.channel(x, y, 1));
        assert(img.channel(x, y, 2) == larger.channel(x, y, 2));
    }
    assert forall|x: int, y: int, r: u8, g: u8, b: u8, v: u8|
        img.has(x, y) implies #[trigger] seen_like(img, x, y, r, g, b, v) == seen_like(
        larger,
        x,
        y,
        r,
        g,
        b,
        v,
    ) by {
        assert(img.channel(x, y, 0) == larger.channel(x, y, 0));
        assert(img.channel(x, y, 1) == larger.channel(x, y, 1));
        assert(img.channel(x, y, 2) == larger.channel(x, y, 2));
    }
    lemma_row_agrees(img, larger, 654);
    lemma_row_agrees(img, larger, 663);
    lemma_row_agrees(img, larger, 672);
}

proof fn lemma_row_agrees(img: Image, larger: Image, y: int)
    requires
        forall|x: int, y: int, r: u8, g: u8, b: u8|
            img.has(x, y) ==> #[trigger] seen_equal(img, x, y, r, g, b) == seen_equal(
                larger,
                x,
                y,
                r,
                g,
                b,
            ),
    ensures
        row_ended(img, y) is Some ==> row_ended(larger, y) == row_ended(img, y),
{
}

/// What a black frame shows is no end of a task.
pub proof fn law_black_frame_shows_no_end(img: Image)
    requires
        img.width >= 1280,
        img.height >= 720,
        forall|x: int, y: int, c: int|
            img.has(x, y) && 0 <= c < 3 ==> #[trigger] img.channel(x, y, c) == 0,
    ensures
        shows_end(img) == Some(false),
{
    assert(img.channel(900, 681, 0) == 0);
    assert(img.channel(900, 681, 1) == 0);
    assert(img.channel(900, 681, 2) == 0);
}

// ---------------------------------------------------------------------------
// Operations
// ---------------------------------------------------------------------------

/// How a task is given up and begun anew.
pub open spec fn reset_commands() -> Seq<PadCommand> {
    seq![
        PadCommand::Reset,
        PadCommand::Pause { duration: 1_000_000 },
        PadCommand::Click { button: START, hold: 100_000, post: 300_000 },
        PadCommand::Click { button: X, hold: 100_000, post: 300_000 },
        PadCommand::Click { button: A, hold: 100_000, post: 300_000 },
    ]
}

/// To give a task up lets go of everything first, waits a second, and then clicks
/// `START`, `X` and `A`, each for a tenth of a second with a rest behind it;
/// nothing is touched in the end.
pub proof fn law_reset_goes_through_the_menu(s: XGamepad)
    ensures
        reset_commands().len() == 5,
        reset_commands()[0] is Reset,
        reset_commands()[1] == (PadCommand::Pause { duration: 1_000_000 }),
        forall|i: int|
            2 <= i < 5 ==> (#[trigger] reset_commands()[i] matches PadCommand::Click {
                button,
                hold,
                post,
            } && hold == 100_000 && post == 300_000 && button == (if i == 2 {
                START
            } else if i == 3 {
                X
            } else {
                A
            })),
        after_all(s, reset_commands()) == neutral(),
{
    let l = reset_commands();
    assert((0u16 | 0x0010u16) & !0x0010u16 == 0) by (bit_vector);
    assert((0u16 | 0x4000u16) & !0x4000u16 == 0) by (bit_vector);
    assert((0u16 | 0x1000u16) & !0x1000u16 == 0) by (bit_vector);
    assert(l.drop_last() =~= l.take(4));
    assert(l.take(4).drop_last() =~= l.take(3));
    assert(l.take(3).drop_last() =~= l.take(2));
    assert(l.take(2).drop_last() =~= l.take(1));
    assert(l.take(1).drop_last() =~= seq![]);
    reveal_with_fuel(after_all, 6);
}

/// How a task is given up and begun anew.
pub fn reset_task() -> (r: Vec<PadCommand>)
    ensures
        r@ == reset_commands(),
{
    let r: Vec<PadCommand> = vec![
        PadCommand::Reset,
        PadCommand::Pause { duration: 1_000_000 },
        PadCommand::Click { button: START, hold: 100_000, post: 300_000 },
        PadCommand::Click { button: X, hold: 100_000, post: 300_000 },
        PadCommand::Click { button: A, hold: 100_000, post: 300_000 },
    ];
    assert(r@ =~= reset_commands());
    r
}

// ---------------------------------------------------------------------------
// Running tasks
// ---------------------------------------------------------------------------

/// How long the end of a task is not looked for behind its start, in
/// nanoseconds.
pub const SETTLE: u128 = 5_000_000_000;

/// The time between two looks, in microseconds.
pub const LOOK: u64 = 500_000;

/// Where the loop of a task stands: what it has asked for last.
#[derive(Debug, Clone, Copy, PartialEq, Eq, Structural)]
pub enum Phase {
    /// Whether the user wants to leave, before a script is started.
    Begin,
    /// Whether the task before has ended.
    Await,
    /// Whether the user wants to leave, while the task before goes on.
    AwaitExit,
    /// How long the script has been running.
    Clock,
    /// Whether the task has ended.
    First,
    /// Whether it really has.
    Second,
    /// Whether anything else ends the watch over the script.
    Flags,
    /// Nothing: it is over.
    Over,
}

/// The loop of a task: where it stands, whether the task is repeated, how many
/// seconds a script may take, and whether the end of the task is looked for
/// already.
#[derive(Debug, Clone, Copy, PartialEq, Eq)]
pub struct RunLoop {
    pub phase: Phase,
    pub looped: bool,
    pub timeout: u64,
    pub settled: bool,
}

/// What is answered to the loop of a task.
#[derive(Debug, Clone, Copy, PartialEq, Eq)]
pub enum RunEvent {
    /// Whether the user wants to leave.
    Exit(bool),
    /// Whether the screen shows the end of a task, if that could be found out.
    Detected(Option<bool>),
    /// How long the script has been running, in nanoseconds.
    Elapsed(u128),
    /// Whether the script has finished, whether the user wants to leave or to
    /// start over, and how long the script has been running, in nanoseconds.
    Flags { finished: bool, exit: bool, reset: bool, elapsed: u128 },
}

/// What the loop of a task does.
#[derive(Debug, Clone, Copy, PartialEq, Eq, Structural)]
pub enum Effect {
    /// Take the request to stop back.
    ClearStop,
    /// Request that the script stops.
    RaiseStop,
    /// Take the wish to start over back.
    ClearReset,
    /// Say that the end of the task before is waited for.
    SayWaiting,
    /// Say that the user starts over.
    SayReset,
    /// Say that the time is over.
    SayTimeout,
    /// Wait, unless the program wants to stop.
    Rest,
    /// End the pause of the task.
    Unpause,
    /// Start the script, and its clock.
    Spawn,
    /// Wait for the script to return.
    Join,
    /// End the combo that is played in the background.
    StopCombo,
    /// Give the task up and begin anew.
    ResetTask,
}

/// What the loop of a task asks for.
#[derive(Debug, Clone, Copy, PartialEq, Eq, Structural)]
pub enum Request {
    /// Whether the user wants to leave.
    Exit,
    /// Whether the screen shows the end of a task.
    Detect,
    /// How long the script has been running.
    Clock,
    /// All that can end the watch over the script.
    Flags,
    /// Nothing: it returns, and says whether all went well.
    Return(bool),
}

/// What a phase asks for.
pub open spec fn asks(p: Phase, well: bool) -> Request {
    match p {
        Phase::Begin => Request::Exit,
        Phase::Await => Request::Detect,
        Phase::AwaitExit => Request::Exit,
        Phase::Clock => Request::Clock,
        Phase::First => Request::Detect,
        Phase::Second => Request::Detect,
        Phase::Flags => Request::Flags,
        Phase::Over => Request::Return(well),
    }
}

/// A step of the loop: where it stands then, whether all went well, and what it
/// does on the way.
pub struct Turn {
    pub next: RunLoop,
    pub well: bool,
    pub effects: Seq<Effect>,
}

/// Whether a script is running in a phase.
pub open spec fn runs(p: Phase) -> bool {
    p is Clock || p is First || p is Second || p is Flags
}

/// A step to another phase.
pub open spec fn to(s: RunLoop, phase: Phase, effects: Seq<Effect>) -> Turn {
    Turn { next: RunLoop { phase, ..s }, well: true, effects }
}

/// A step that ends the loop because something failed.
pub open spec fn fail(s: RunLoop) -> Turn {
    Turn { next: RunLoop { phase: Phase::Over, ..s }, well: false, effects: seq![] }
}

/// The start of a script.
pub open spec fn launched(s: RunLoop, before: Seq<Effect>) -> Turn {
    to(
        RunLoop { settled: false, ..s },
        Phase::Clock,
        before + seq![Effect::Unpause, Effect::Spawn],
    )
}

/// The end of the watch over a script: the script is waited for, and the loop
/// goes on or ends as the reason has it.
pub open spec fn ended(s: RunLoop, before: Seq<Effect>, reason: StopReason) -> Turn {
    let e = before + seq![Effect::Join, Effect::StopCombo, Effect::ClearStop];
    match reason {
        StopReason::Reset => to(s, Phase::Begin, e + seq![Effect::SayReset, Effect::ResetTask]),
        StopReason::Timeout => to(
            s,
            if s.looped {
                Phase::Begin
            } else {
                Phase::Over
            },
            e + seq![Effect::SayTimeout, Effect::ResetTask],
        ),
        StopReason::Exit => to(s, Phase::Over, e),
        StopReason::Finished => to(
            s,
            if s.looped {
                Phase::Begin
            } else {
                Phase::Over
            },
            e,
        ),
        StopReason::TaskEnded => to(s, Phase::Begin, e),
    }
}

/// What is done on the spot when the watch over a script ends for a reason.
pub open spec fn at_once(reason: StopReason) -> Seq<Effect> {
    match reason {
        StopReason::Finished => seq![],
        StopReason::Reset => seq![Effect::ClearReset, Effect::RaiseStop],
        _ => seq![Effect::RaiseStop],
    }
}

/// The step of the loop on an answer; nothing if the answer is not to what was
/// asked.
pub open spec fn turned(s: RunLoop, event: RunEvent) -> Option<Turn> {
    match (s.phase, event) {
        (Phase::Begin, RunEvent::Exit(exit)) => Some(
            if exit {
                to(s, Phase::Over, seq![])
            } else if s.looped {
                to(s, Phase::Await, seq![Effect::ClearStop, Effect::SayWaiting])
            } else {
                launched(s, seq![Effect::ClearStop])
            },
        ),
        (Phase::Await, RunEvent::Detected(d)) => Some(
            match d {
                None => fail(s),
                Some(true) => launched(s, seq![]),
                Some(false) => to(s, Phase::AwaitExit, seq![]),
            },
        ),
        (Phase::AwaitExit, RunEvent::Exit(exit)) => Some(
            if exit {
                to(s, Phase::Over, seq![])
            } else {
                to(s, Phase::Await, seq![Effect::Rest])
            },
        ),
        (Phase::Clock, RunEvent::Elapsed(t)) => Some(
            {
                let settled = s.settled || (s.looped && t >= SETTLE);
                to(
                    RunLoop { settled, ..s },
                    if s.looped && settled {
                        Phase::First
                    } else {
                        Phase::Flags
                    },
                    seq![],
                )
            },
        ),
        (Phase::First, RunEvent::Detected(d)) => Some(
            match d {
                None => fail(s),
                Some(true) => to(s, Phase::Second, seq![Effect::Rest]),
                Some(false) => to(s, Phase::Flags, seq![]),
            },
        ),
        (Phase::Second, RunEvent::Detected(d)) => Some(
            match d {
                None => fail(s),
                Some(true) => ended(s, seq![Effect::RaiseStop], StopReason::TaskEnded),
                Some(false) => to(s, Phase::Flags, seq![]),
            },
        ),
        (Phase::Flags, RunEvent::Flags { finished, exit, reset, elapsed }) => Some(
            match verdict(finished, exit, reset, s.timeout, elapsed) {
                Some(reason) => ended(s, at_once(reason), reason),
                None => to(s, Phase::Clock, seq![Effect::Rest]),
            },
        ),
        _ => None,
    }
}

/// A step of the loop: what it does, and what it asks for then.
pub struct RunStep {
    pub effects: Vec<Effect>,
    pub request: Request,
}

/// The loop at its beginning.
pub open spec fn begun(looped: bool, timeout: u64) -> RunLoop {
    RunLoop { phase: Phase::Begin, looped, timeout, settled: false }
}

impl RunLoop {
    /// Begins the loop of a task; it asks whether the user wants to leave.
    pub fn new(looped: bool, timeout: u64) -> (s: Self)
        ensures
            s == begun(looped, timeout),
    {
        RunLoop { phase: Phase::Begin, looped, timeout, settled: false }
    }

    fn request(&self, well: bool) -> (r: Request)
        ensures
            r == asks(self.phase, well),
    {
        match self.phase {
            Phase::Begin => Request::Exit,
            Phase::Await => Request::Detect,
            Phase::AwaitExit => Request::Exit,
            Phase::Clock => Request::Clock,
            Phase::First => Request::Detect,
            Phase::Second => Request::Detect,
            Phase::Flags => Request::Flags,
            Phase::Over => Request::Return(well),
        }
    }

    /// The effects and the phase behind the end of the watch over a script.
    fn end(&mut self, effects: &mut Vec<Effect>, reason: StopReason)
        ensures
            *final(self) == ended(*old(self), old(effects)@, reason).next,
            final(effects)@ == ended(*old(self), old(effects)@, reason).effects,
    {
        effects.push(Effect::Join);
        effects.push(Effect::StopCombo);
        effects.push(Effect::ClearStop);
        self.phase = Phase::Begin;
        match reason {
            StopReason::Reset => {
                effects.push(Effect::SayReset);
                effects.push(Effect::ResetTask);
            },
            StopReason::Timeout => {
                effects.push(Effect::SayTimeout);
                effects.push(Effect::ResetTask);
                if !self.looped {
                    self.phase = Phase::Over;
                }
            },
            StopReason::Exit => {
                self.phase = Phase::Over;
            },
            StopReason::Finished => {
                if !self.looped {
                    self.phase = Phase::Over;
                }
            },
            StopReason::TaskEnded => {},
        }
        assert(effects@ =~= ended(*old(self), old(effects)@, reason).effects);
    }

    /// Takes an answer. Nothing happens if it is not to what was asked.
    pub fn turn(&mut self, event: RunEvent) -> (r: Option<RunStep>)
        ensures
            match turned(*old(self), event) {
                Some(t) => {
                    &&& *final(self) == t.next
                    &&& r matches Some(step) && step.effects@ == t.effects && step.request == asks(
                        t.next.phase,
                        t.well,
                    )
                },
                None => *final(self) == *old(self) && r is None,
            },
    {
        let ghost s = *self;
        let mut effects: Vec<Effect> = Vec::new();
        let mut well: bool = true;
        match (self.phase, event) {
            (Phase::Begin, RunEvent::Exit(exit)) => {
                if exit {
                    self.phase = Phase::Over;
                } else if self.looped {
                    effects.push(Effect::ClearStop);
                    effects.push(Effect::SayWaiting);
                    self.phase = Phase::Await;
                } else {
                    effects.push(Effect::ClearStop);
                    effects.push(Effect::Unpause);
                    effects.push(Effect::Spawn);
                    self.settled = false;
                    self.phase = Phase::Clock;
                }
            },
            (Phase::Await, RunEvent::Detected(d)) => {
                match d {
                    None => {
                        well = false;
                        self.phase = Phase::Over;
                    },
                    Some(true) => {
                        effects.push(Effect::Unpause);
                        effects.push(Effect::Spawn);
                        self.settled = false;
                        self.phase = Phase::Clock;
                    },
                    Some(false) => {
                        self.phase = Phase::AwaitExit;
                    },
                }
            },
            (Phase::AwaitExit, RunEvent::Exit(exit)) => {
                if exit {
                    self.phase = Phase::Over;
                } else {
                    effects.push(Effect::Rest);
                    self.phase = Phase::Await;
                }
            },
            (Phase::Clock, RunEvent::Elapsed(t)) => {
                if self.looped && t >= SETTLE {
                    self.settled = true;
                }
                if self.looped && self.settled {
                    self.phase = Phase::First;
                } else {
                    self.phase = Phase::Flags;
                }
            },
            (Phase::First, RunEvent::Detected(d)) => {
                match d {
                    None => {
                        well = false;
                        self.phase = Phase::Over;
                    },
                    Some(true) => {
                        effects.push(Effect::Rest);
                        self.phase = Phase::Second;
                    },
                    Some(false) => {
                        self.phase = Phase::Flags;
                    },
                }
            },
            (Phase::Second, RunEvent::Detected(d)) => {
                match d {
                    None => {
                        well = false;
                        self.phase = Phase::Over;
                    },
                    Some(true) => {
                        effects.push(Effect::RaiseStop);
                        assert(effects@ =~= seq![Effect::RaiseStop]);
                        self.end(&mut effects, StopReason::TaskEnded);
                    },
                    Some(false) => {
                        self.phase = Phase::Flags;
                    },
                }
            },
            (Phase::Flags, RunEvent::Flags { finished, exit, reset, elapsed }) => {
                let mut wish: bool = reset;
                let mut stop: bool = false;
                match check(finished, exit, &mut wish, &mut stop, self.timeout, elapsed) {
                    Some(reason) => {
                        if reset && !wish {
                            effects.push(Effect::ClearReset);
                        }
                        if stop {
                            effects.push(Effect::RaiseStop);
                        }
                        assert(effects@ =~= at_once(reason));
                        self.end(&mut effects, reason);
                    },
                    None => {
                        effects.push(Effect::Rest);
                        self.phase = Phase::Clock;
                    },
                }
            },
            _ => {
                return None;
            },
        }
        proof {
            assert(effects@ =~= turned(s, event)->0.effects);
        }
        let request: Request = self.request(well);
        Some(RunStep { effects, request })
    }
}

impl Effect {
    /// What is said in the log.
    pub open spec fn text(self) -> Option<Seq<char>> {
        match self {
            Effect::SayWaiting => Some("等待任务结束"@),
            Effect::SayReset => Some("手动重置"@),
            Effect::SayTimeout => Some("任务超时，正在重置"@),
            _ => None,
        }
    }

    /// What is said in the log.
    pub fn message(&self) -> (s: Option<&'static str>)
        ensures
            self.text() == match s {
                Some(s) => Some(s@),
                None => None,
            },
    {
        match self {
            Effect::SayWaiting => Some("等待任务结束"),
            Effect::SayReset => Some("手动重置"),
            Effect::SayTimeout => Some("任务超时，正在重置"),
            _ => None,
        }
    }
}

/// Whether a script tells by itself when its task has ended: it has a function
/// for it.
pub fn has_script_ended(functions: &Vec<String>) -> (yes: bool)
    ensures
        yes == texts(functions@).contains("task_ended"@),
{
    is_listed(functions, "task_ended")
}

// ---------------------------------------------------------------------------
// Laws of the loop
// ---------------------------------------------------------------------------

/// A script is started only when none is running, and one is running behind
/// the start.
pub proof fn law_one_script_at_a_time(s: RunLoop, event: RunEvent)
    requires
        turned(s, event) is Some,
    ensures
        turned(s, event)->0.effects.contains(Effect::Spawn) <==> !runs(s.phase) && runs(
            turned(s, event)->0.next.phase,
        ),
{
    let t = turned(s, event)->0;
    if !runs(s.phase) && runs(t.next.phase) {
        assert(t.effects.last() == Effect::Spawn);
        assert(t.effects[t.effects.len() - 1] == Effect::Spawn);
    }
    if t.effects.contains(Effect::Spawn) {
        let i = choose|i: int| 0 <= i < t.effects.len() && t.effects[i] == Effect::Spawn;
        assert(t.effects[i] == Effect::Spawn);
        lemma_ended_effects(s, seq![Effect::RaiseStop], StopReason::TaskEnded);
        assert forall|r: StopReason| !(#[trigger] ended(s, at_once(r), r)).effects.contains(
            Effect::Spawn,
        ) by {
            lemma_ended_effects(s, at_once(r), r);
        }
    }
}

proof fn lemma_ended_effects(s: RunLoop, before: Seq<Effect>, reason: StopReason)
    requires
        !before.contains(Effect::Spawn),
    ensures
        !ended(s, before, reason).effects.contains(Effect::Spawn),
        ended(s, before, reason).effects.contains(Effect::Join),
{
    let e = ended(s, before, reason).effects;
    assert(e[before.len() as int] == Effect::Join);
    if e.contains(Effect::Spawn) {
        let i = choose|i: int| 0 <= i < e.len() && e[i] == Effect::Spawn;
        if i < before.len() {
            assert(before[i] == Effect::Spawn);
        }
    }
}

/// A script that was started is waited for before the next one starts or the
/// loop ends, unless the loop fails.
pub proof fn law_scripts_are_joined(s: RunLoop, event: RunEvent)
    requires
        turned(s, event) is Some,
        runs(s.phase),
        !runs(turned(s, event)->0.next.phase),
        turned(s, event)->0.well,
    ensures
        turned(s, event)->0.effects.contains(Effect::Join),
{
    lemma_ended_effects(s, seq![Effect::RaiseStop], StopReason::TaskEnded);
    assert forall|r: StopReason| (#[trigger] ended(s, at_once(r), r)).effects.contains(
        Effect::Join,
    ) by {
        lemma_ended_effects(s, at_once(r), r);
    }
}

/// How often an effect is in a list.
pub open spec fn times(list: Seq<Effect>, e: Effect) -> int
    decreases list.len(),
{
    if list.len() == 0 {
        0
    } else {
        times(list.drop_last(), e) + (if list.last() == e {
            1int
        } else {
            0
        })
    }
}

/// What a loop does on a list of answers, up to the first that is not to what was
/// asked or that makes it fail: where it stands then, and all that it does.
pub open spec fn run_all(s: RunLoop, events: Seq<RunEvent>) -> (RunLoop, Seq<Effect>)
    decreases events.len(),
{
    if events.len() == 0 {
        (s, seq![])
    } else {
        match turned(s, events[0]) {
            Some(t) => if t.well {
                let (end, rest) = run_all(t.next, events.drop_first());
                (end, t.effects + rest)
            } else {
                (s, seq![])
            },
            None => (s, seq![]),
        }
    }
}

proof fn lemma_times_joined(a: Seq<Effect>, b: Seq<Effect>, e: Effect)
    ensures
        times(a + b, e) == times(a, e) + times(b, e),
    decreases b.len(),
{
    if b.len() == 0 {
        assert(a + b =~= a);
    } else {
        assert((a + b).drop_last() =~= a + b.drop_last());
        lemma_times_joined(a, b.drop_last(), e);
    }
}

proof fn lemma_times_one(e: Effect, f: Effect)
    ensures
        times(seq![e], f) == (if e == f {
            1int
        } else {
            0
        }),
{
    assert(seq![e].drop_last() =~= seq![]);
    assert(times(seq![e].drop_last(), f) == 0);
}

proof fn lemma_times_two(a: Effect, b: Effect, f: Effect)
    ensures
        times(seq![a, b], f) == times(seq![a], f) + times(seq![b], f),
{
    assert(seq![a, b] =~= seq![a] + seq![b]);
    lemma_times_joined(seq![a], seq![b], f);
}

proof fn lemma_times_ended(s: RunLoop, before: Seq<Effect>, reason: StopReason, f: Effect)
    requires
        times(before, f) == 0,
    ensures
        f == Effect::Spawn ==> times(ended(s, before, reason).effects, f) == 0,
        f == Effect::Join ==> times(ended(s, before, reason).effects, f) == 1,
{
    let mid = seq![Effect::Join, Effect::StopCombo, Effect::ClearStop];
    assert(mid =~= seq![Effect::Join, Effect::StopCombo] + seq![Effect::ClearStop]);
    lemma_times_joined(seq![Effect::Join, Effect::StopCombo], seq![Effect::ClearStop], f);
    lemma_times_two(Effect::Join, Effect::StopCombo, f);
    lemma_times_one(Effect::Join, f);
    lemma_times_one(Effect::StopCombo, f);
    lemma_times_one(Effect::ClearStop, f);
    lemma_times_joined(before, mid, f);
    lemma_times_two(Effect::SayReset, Effect::ResetTask, f);
    lemma_times_two(Effect::SayTimeout, Effect::ResetTask, f);
    lemma_times_one(Effect::SayReset, f);
    lemma_times_one(Effect::SayTimeout, f);
    lemma_times_one(Effect::ResetTask, f);
    lemma_times_joined(before + mid, seq![Effect::SayReset, Effect::ResetTask], f);
    lemma_times_joined(before + mid, seq![Effect::SayTimeout, Effect::ResetTask], f);
}

proof fn lemma_turn_balance(s: RunLoop, event: RunEvent)
    requires
        turned(s, event) is Some,
        turned(s, event)->0.well,
    ensures
        times(turned(s, event)->0.effects, Effect::Spawn) - times(
            turned(s, event)->0.effects,
            Effect::Join,
        ) == (runs(turned(s, event)->0.next.phase) as int) - (runs(s.phase) as int),
{
    let t = turned(s, event)->0;
    assert forall|e: Effect, f: Effect| #[trigger] times(seq![e], f) == (if e == f {
        1int
    } else {
        0
    }) by {
        lemma_times_one(e, f);
    }
    assert forall|f: Effect| #[trigger] times(Seq::<Effect>::empty(), f) == 0 by {}
    let start = seq![Effect::Unpause, Effect::Spawn];
    assert forall|f: Effect| f == Effect::Spawn || f == Effect::Join implies #[trigger] times(
        start,
        f,
    ) == times(seq![Effect::Spawn], f) by {
        lemma_times_two(Effect::Unpause, Effect::Spawn, f);
    }
    lemma_times_joined(seq![Effect::ClearStop], start, Effect::Spawn);
    lemma_times_joined(seq![Effect::ClearStop], start, Effect::Join);
    assert(Seq::<Effect>::empty() + start =~= start);
    lemma_times_two(Effect::ClearStop, Effect::SayWaiting, Effect::Spawn);
    lemma_times_two(Effect::ClearStop, Effect::SayWaiting, Effect::Join);
    lemma_times_two(Effect::ClearReset, Effect::RaiseStop, Effect::Spawn);
    lemma_times_two(Effect::ClearReset, Effect::RaiseStop, Effect::Join);
    match event {
        RunEvent::Flags { finished, exit, reset, elapsed } => {
            match verdict(finished, exit, reset, s.timeout, elapsed) {
                Some(r) => {
                    assert(times(at_once(r), Effect::Spawn) == 0);
                    assert(times(at_once(r), Effect::Join) == 0);
                    lemma_times_ended(s, at_once(r), r, Effect::Spawn);
                    lemma_times_ended(s, at_once(r), r, Effect::Join);
                },
                None => {},
            }
        },
        RunEvent::Detected(_) => {
            let raised = seq![Effect::RaiseStop];
            lemma_times_ended(s, raised, StopReason::TaskEnded, Effect::Spawn);
            lemma_times_ended(s, raised, StopReason::TaskEnded, Effect::Join);
        },
        _ => {},
    }
}

/// On whatever answers, every script that the loop has started was waited for,
/// but for the one that runs: there is never more than one.
pub proof fn law_scripts_balance(looped: bool, timeout: u64, events: Seq<RunEvent>)
    ensures
        ({
            let (end, effects) = run_all(begun(looped, timeout), events);
            times(effects, Effect::Spawn) == times(effects, Effect::Join) + (runs(
                end.phase,
            ) as int)
        }),
{
    lemma_balance(begun(looped, timeout), events);
}

proof fn lemma_balance(s: RunLoop, events: Seq<RunEvent>)
    ensures
        ({
            let (end, effects) = run_all(s, events);
            times(effects, Effect::Spawn) - times(effects, Effect::Join) == (runs(
                end.phase,
            ) as int) - (runs(s.phase) as int)
        }),
    decreases events.len(),
{
    if events.len() > 0 && turned(s, events[0]) is Some && turned(s, events[0])->0.well {
        let t = turned(s, events[0])->0;
        lemma_turn_balance(s, events[0]);
        lemma_balance(t.next, events.drop_first());
        let rest = run_all(t.next, events.drop_first()).1;
        lemma_times_joined(t.effects, rest, Effect::Spawn);
        lemma_times_joined(t.effects, rest, Effect::Join);
    }
}

/// The end of a task counts only when it is seen twice in a row, with a rest
/// between the looks.
pub proof fn law_end_is_seen_twice(s: RunLoop, event: RunEvent)
    requires
        turned(s, event) is Some,
        turned(s, event)->0.next.phase is Second,
    ensures
        s.phase is First,
        event == RunEvent::Detected(Some(true)),
        turned(s, event)->0.effects == seq![Effect::Rest],
{
}

/// A task that is not repeated is over when its script has finished, when its
/// time is over, and when the user wants to leave.
pub proof fn law_single_task_ends(s: RunLoop, exit: bool, reset: bool, elapsed: u128)
    requires
        s.phase is Flags,
        !s.looped,
    ensures
        turned(s, RunEvent::Flags { finished: true, exit, reset, elapsed })->0.next.phase is Over,
        turned(
            s,
            RunEvent::Flags { finished: false, exit: true, reset, elapsed },
        )->0.next.phase is Over,
        elapsed > s.timeout * 1_000_000_000 ==> turned(
            s,
            RunEvent::Flags { finished: false, exit: false, reset: false, elapsed },
        )->0.next.phase is Over,
{
}

/// A repeated task goes on until the user wants to leave or a look fails.
pub proof fn law_repeated_task_goes_on(s: RunLoop, event: RunEvent)
    requires
        s.looped,
        turned(s, event) is Some,
        turned(s, event)->0.next.phase is Over,
    ensures
        !turned(s, event)->0.well || event == RunEvent::Exit(true) || (event matches RunEvent::Flags {
            finished,
            exit,
            ..
        } && !finished && exit),
{
}

/// The end of a task is not looked for in the first seconds of a script.
pub proof fn law_settles_first(s: RunLoop, t: u128)
    requires
        s.phase is Clock,
        !s.settled,
        t < SETTLE,
    ensures
        turned(s, RunEvent::Elapsed(t))->0.next.phase is Flags,
{
}

// ---------------------------------------------------------------------------
// Laws of the steps
// ---------------------------------------------------------------------------

/// What a look at the flags leads to. The watch over the script ends when the
/// script has finished, when the user wants to leave or to start over, or when
/// more time has passed than it may take; else the loop rests and goes on.
pub proof fn law_watch_ends_for_a_reason(
    s: RunLoop,
    finished: bool,
    exit: bool,
    reset: bool,
    elapsed: u128,
)
    requires
        s.phase is Flags,
    ensures
        ({
            let t = turned(s, RunEvent::Flags { finished, exit, reset, elapsed })->0;
            let late = elapsed > s.timeout * 1_000_000_000;
            let ends = finished || exit || reset || late;
            let again = !finished && !exit && (reset || late);
            &&& turned(s, RunEvent::Flags { finished, exit, reset, elapsed }) is Some
            &&& t.well
            &&& t.next.looped == s.looped
            &&& t.next.timeout == s.timeout
            &&& t.next.settled == s.settled
            &&& !ends ==> t.next.phase is Clock && t.effects == seq![Effect::Rest]
            &&& ends ==> t.effects.contains(Effect::Join)
            &&& ends ==> t.effects.contains(Effect::StopCombo)
            &&& ends ==> t.effects.contains(Effect::ClearStop)
            &&& ends ==> !t.effects.contains(Effect::Rest)
            &&& t.effects.contains(Effect::RaiseStop) <==> ends && !finished
            &&& t.effects.contains(Effect::ClearReset) <==> !finished && !exit && reset
            &&& t.effects.contains(Effect::SayReset) <==> !finished && !exit && reset
            &&& t.effects.contains(Effect::SayTimeout) <==> again && !reset
            &&& t.effects.contains(Effect::ResetTask) <==> again
            &&& !t.effects.contains(Effect::Spawn)
            &&& !t.effects.contains(Effect::Unpause)
            &&& !t.effects.contains(Effect::SayWaiting)
            &&& t.effects.no_duplicates()
            &&& ends ==> t.next.phase == (if !finished && exit {
                Phase::Over
            } else if again && reset {
                Phase::Begin
            } else if s.looped {
                Phase::Begin
            } else {
                Phase::Over
            })
        }),
{
    let t = turned(s, RunEvent::Flags { finished, exit, reset, elapsed })->0;
    match verdict(finished, exit, reset, s.timeout, elapsed) {
        Some(reason) => {
            lemma_effects_of_an_end(s, at_once(reason), reason);
        },
        None => {
            assert(t.effects =~= seq![Effect::Rest]);
        },
    }
}

/// A task whose end was seen twice is stopped and waited for, and the loop begins
/// anew without giving the task up; seen only once it goes on, and if it could not
/// be seen the loop fails.
pub proof fn law_seen_end_begins_anew(s: RunLoop, d: Option<bool>)
    requires
        s.phase is Second,
    ensures
        ({
            let t = turned(s, RunEvent::Detected(d))->0;
            &&& turned(s, RunEvent::Detected(d)) is Some
            &&& t.well <==> d is Some
            &&& d is None ==> t.next.phase is Over && t.effects.len() == 0
            &&& d == Some(false) ==> t.next.phase is Flags && t.effects.len() == 0
            &&& d == Some(true) ==> {
                &&& t.next.phase is Begin
                &&& t.effects.len() == 4
                &&& t.effects[0] == Effect::RaiseStop
                &&& t.effects[1] == Effect::Join
                &&& t.effects[2] == Effect::StopCombo
                &&& t.effects[3] == Effect::ClearStop
            }
            &&& t.next.looped == s.looped
            &&& t.next.timeout == s.timeout
        }),
{
}

/// The first sight of the end is followed by a rest and a second look; without it
/// the flags are looked at, and if nothing could be seen the loop fails.
pub proof fn law_first_sight_is_looked_at_again(s: RunLoop, d: Option<bool>)
    requires
        s.phase is First,
    ensures
        ({
            let t = turned(s, RunEvent::Detected(d))->0;
            &&& turned(s, RunEvent::Detected(d)) is Some
            &&& t.well <==> d is Some
            &&& t.next.phase == (match d {
                None => Phase::Over,
                Some(true) => Phase::Second,
                Some(false) => Phase::Flags,
            })
            &&& t.effects.len() == (if d == Some(true) {
                1int
            } else {
                0
            })
            &&& d == Some(true) ==> t.effects[0] == Effect::Rest
        }),
{
}

/// Before a script is started, the request to stop is taken back, and a repeated
/// task waits for the one before; who wants to leave leaves without anything else.
pub proof fn law_beginning(s: RunLoop, exit: bool)
    requires
        s.phase is Begin,
    ensures
        ({
            let t = turned(s, RunEvent::Exit(exit))->0;
            &&& turned(s, RunEvent::Exit(exit)) is Some
            &&& t.well
            &&& exit ==> t.next.phase is Over && t.effects.len() == 0
            &&& !exit ==> t.effects.len() > 0 && t.effects[0] == Effect::ClearStop
            &&& !exit && s.looped ==> t.next.phase is Await && t.effects.len() == 2 && t.effects[1]
                == Effect::SayWaiting
            &&& !exit && !s.looped ==> {
                &&& t.next.phase is Clock
                &&& t.effects.len() == 3
                &&& t.effects[1] == Effect::Unpause
                &&& t.effects[2] == Effect::Spawn
            }
        }),
{
}

/// While the task before goes on, the loop looks for its end and asks whether the
/// user wants to leave, in turn and with a rest between; behind its end the script
/// is started, with the pause ended and the clock at its beginning.
pub proof fn law_task_before_is_waited_for(s: RunLoop, d: Option<bool>, exit: bool)
    ensures
        s.phase is Await ==> {
            let t = turned(s, RunEvent::Detected(d))->0;
            &&& turned(s, RunEvent::Detected(d)) is Some
            &&& t.well <==> d is Some
            &&& d is None ==> t.next.phase is Over && t.effects.len() == 0
            &&& d == Some(false) ==> t.next.phase is AwaitExit && t.effects.len() == 0
            &&& d == Some(true) ==> {
                &&& t.next.phase is Clock
                &&& !t.next.settled
                &&& t.effects.len() == 2
                &&& t.effects[0] == Effect::Unpause
                &&& t.effects[1] == Effect::Spawn
            }
        },
        s.phase is AwaitExit ==> {
            let t = turned(s, RunEvent::Exit(exit))->0;
            &&& turned(s, RunEvent::Exit(exit)) is Some
            &&& t.well
            &&& exit ==> t.next.phase is Over && t.effects.len() == 0
            &&& !exit ==> t.next.phase is Await && t.effects.len() == 1 && t.effects[0]
                == Effect::Rest
        },
{
}

/// The end of a task is looked for only when the task is repeated, and from five
/// seconds behind the start of its script on; once it is, it always is.
pub proof fn law_end_is_looked_for_in_time(s: RunLoop, t: u128)
    requires
        s.phase is Clock,
    ensures
        ({
            let n = turned(s, RunEvent::Elapsed(t))->0;
            &&& turned(s, RunEvent::Elapsed(t)) is Some
            &&& n.well
            &&& n.effects.len() == 0
            &&& n.next.phase is First || n.next.phase is Flags
            &&& n.next.phase is First <==> s.looped && (s.settled || t >= 5_000_000_000)
            &&& s.looped ==> n.next.settled == (s.settled || t >= 5_000_000_000)
        }),
{
}

/// An answer is taken exactly when it is to what was asked; a loop that is over
/// takes none, and says whether all went well.
pub proof fn law_answers_fit_the_questions(s: RunLoop, event: RunEvent, well: bool)
    ensures
        turned(s, event) is Some <==> match asks(s.phase, well) {
            Request::Exit => event is Exit,
            Request::Detect => event is Detected,
            Request::Clock => event is Elapsed,
            Request::Flags => event is Flags,
            Request::Return(_) => false,
        },
        s.phase is Over <==> asks(s.phase, well) == Request::Return(well),
        turned(s, event) is Some ==> turned(s, event)->0.next.looped == s.looped && turned(
            s,
            event,
        )->0.next.timeout == s.timeout,
        turned(s, event) is Some && !turned(s, event)->0.well ==> event == RunEvent::Detected(None),
{
}

/// A new loop asks first whether the user wants to leave.
pub proof fn law_loop_begins(looped: bool, timeout: u64, well: bool)
    ensures
        asks(begun(looped, timeout).phase, well) == Request::Exit,
        begun(looped, timeout).looped == looped,
        begun(looped, timeout).timeout == timeout,
        !begun(looped, timeout).settled,
        !runs(begun(looped, timeout).phase),
{
}

/// The end of the watch is done in order: the script is stopped and waited for,
/// then the combo is ended and the request to stop is taken back, and only then is
/// something said and the task given up.
pub proof fn law_end_is_done_in_order(s: RunLoop, event: RunEvent, i: int, j: int)
    requires
        turned(s, event) is Some,
        runs(s.phase),
        0 <= i < turned(s, event)->0.effects.len(),
        0 <= j < turned(s, event)->0.effects.len(),
        turned(s, event)->0.effects[i] == Effect::Join,
    ensures
        ({
            let e = turned(s, event)->0.effects[j];
            &&& e is RaiseStop || e is ClearReset ==> j < i
            &&& e is StopCombo ==> i < j
            &&& e is ClearStop ==> i + 1 < j
            &&& e is SayReset || e is SayTimeout ==> i + 2 < j
            &&& e is ResetTask ==> i + 3 < j
        }),
{
    let t = turned(s, event)->0;
    if let RunEvent::Flags { finished, exit, reset, elapsed } = event {
        match verdict(finished, exit, reset, s.timeout, elapsed) {
            Some(reason) => {
                lemma_effects_of_an_end(s, at_once(reason), reason);
            },
            None => {},
        }
    } else {
        lemma_effects_of_an_end(s, seq![Effect::RaiseStop], StopReason::TaskEnded);
    }
}

proof fn lemma_effects_of_an_end(s: RunLoop, before: Seq<Effect>, reason: StopReason)
    requires
        before == (if reason is TaskEnded {
            seq![Effect::RaiseStop]
        } else {
            at_once(reason)
        }),
    ensures
        ended(s, before, reason).effects == match reason {
            StopReason::Finished => seq![Effect::Join, Effect::StopCombo, Effect::ClearStop],
            StopReason::Reset => seq![
                Effect::ClearReset,
                Effect::RaiseStop,
                Effect::Join,
                Effect::StopCombo,
                Effect::ClearStop,
                Effect::SayReset,
                Effect::ResetTask,
            ],
            StopReason::Timeout => seq![
                Effect::RaiseStop,
                Effect::Join,
                Effect::StopCombo,
                Effect::ClearStop,
                Effect::SayTimeout,
                Effect::ResetTask,
            ],
            _ => seq![Effect::RaiseStop, Effect::Join, Effect::StopCombo, Effect::ClearStop],
        },
{
    assert(ended(s, before, reason).effects =~= match reason {
        StopReason::Finished => seq![Effect::Join, Effect::StopCombo, Effect::ClearStop],
        StopReason::Reset => seq![
            Effect::ClearReset,
            Effect::RaiseStop,
            Effect::Join,
            Effect::StopCombo,
            Effect::ClearStop,
            Effect::SayReset,
            Effect::ResetTask,
        ],
        StopReason::Timeout => seq![
            Effect::RaiseStop,
            Effect::Join,
            Effect::StopCombo,
            Effect::ClearStop,
            Effect::SayTimeout,
            Effect::ResetTask,
        ],
        _ => seq![Effect::RaiseStop, Effect::Join, Effect::StopCombo, Effect::ClearStop],
    });
}

/// The loop says something exactly for its three announcements, each different.
pub proof fn law_announcements(a: Effect, b: Effect)
    ensures
        a.text() is Some <==> a is SayWaiting || a is SayReset || a is SayTimeout,
        a.text() is Some && a.text() == b.text() ==> a == b,
        Effect::SayWaiting.text() == Some("等待任务结束"@),
        Effect::SayReset.text() == Some("手动重置"@),
        Effect::SayTimeout.text() == Some("任务超时，正在重置"@),
{
    reveal_strlit("等待任务结束");
    reveal_strlit("手动重置");
    reveal_strlit("任务超时，正在重置");
    assert("等待任务结束"@.len() == 6);
    assert("手动重置"@.len() == 4);
    assert("任务超时，正在重置"@.len() == 9);
}

/// The screen is looked at twice in a second.
pub proof fn law_screen_is_looked_at()
    ensures
        2 * LOOK == 1_000_000,
{
}

} // verus!
