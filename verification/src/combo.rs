//! Combos: short texts of letters and digits that are played on the gamepad,
//! once or again and again. Times are in microseconds.

use vstd::prelude::*;
use crate::input::{after, after_all, neutral, PadCommand, XButtons, B, LB, LS, RT, X, Y};
use crate::text::{chars_of, digit_value, is_digit, same, text_of, value_of_digit};

verus! {

// ---------------------------------------------------------------------------
// Letters
// ---------------------------------------------------------------------------

/// The number of seconds `num`, less `less` microseconds, but at least a tenth
/// of a second.
pub open spec fn span(num: int, less: int) -> u64 {
    if num * 1_000_000 - less < 100_000 {
        100_000
    } else {
        (num * 1_000_000 - less) as u64
    }
}

/// The left stick held in a direction for some seconds and let go.
pub open spec fn walk(x: int, y: int, num: int) -> Seq<PadCommand> {
    seq![
        PadCommand::LStick { x: x as i16, y: y as i16, duration: span(num, 0) },
        PadCommand::LStick { x: 0, y: 0, duration: 0 },
    ]
}

/// A button clicked while the left shoulder button is down.
pub open spec fn skill(button: XButtons, hold: u64, num: int, less: int) -> Seq<PadCommand> {
    seq![
        PadCommand::Press { button: LB, hold: 100_000 },
        PadCommand::Click { button, hold, post: 100_000 },
        PadCommand::Release { button: LB, post: span(num, less) },
    ]
}

/// A click, a number of times.
pub open spec fn repeated(c: PadCommand, n: int) -> Seq<PadCommand> {
    Seq::new(n as nat, |i: int| c)
}

/// The operations of one letter of a combo with its number.
pub open spec fn combo_commands(ch: char, num: int) -> Seq<PadCommand> {
    match ch {
        'j' => repeated(PadCommand::Click { button: LS, hold: 100_000, post: 1_100_000 }, num),
        'l' => repeated(PadCommand::Click { button: X, hold: 100_000, post: 100_000 }, num),
        'L' => seq![PadCommand::Click { button: X, hold: 600_000, post: span(num, 600_000) }],
        'r' => seq![PadCommand::Click { button: RT, hold: span(num, 100_000), post: 100_000 }],
        'w' => walk(0, 10000, num),
        's' => walk(0, -10000, num),
        'a' => walk(-10000, 0, num),
        'd' => walk(10000, 0, num),
        'q' => skill(Y, 100_000, num, 300_000),
        'Q' => skill(Y, 600_000, num, 800_000),
        'e' => skill(X, 100_000, num, 300_000),
        'E' => skill(X, 600_000, num, 800_000),
        'z' => skill(B, 100_000, num, 300_000),
        'p' => seq![PadCommand::Rest { duration: (num * 1_000_000) as u64 }],
        _ => seq![],
    }
}

fn span_of(num: u64, less: u64) -> (r: u64)
    requires
        num < 10,
        less <= 1_000_000,
    ensures
        r == span(num as int, less as int),
{
    let all: u64 = num * 1_000_000;
    if all < less + 100_000 {
        100_000
    } else {
        all - less
    }
}

fn walk_of(x: i16, y: i16, num: u64) -> (r: Vec<PadCommand>)
    requires
        num < 10,
    ensures
        r@ == walk(x as int, y as int, num as int),
{
    let r: Vec<PadCommand> = vec![
        PadCommand::LStick { x, y, duration: span_of(num, 0) },
        PadCommand::LStick { x: 0, y: 0, duration: 0 },
    ];
    assert(r@ =~= walk(x as int, y as int, num as int));
    r
}

fn skill_of(button: XButtons, hold: u64, num: u64, less: u64) -> (r: Vec<PadCommand>)
    requires
        num < 10,
        less <= 1_000_000,
    ensures
        r@ == skill(button, hold, num as int, less as int),
{
    let r: Vec<PadCommand> = vec![
        PadCommand::Press { button: LB, hold: 100_000 },
        PadCommand::Click { button, hold, post: 100_000 },
        PadCommand::Release { button: LB, post: span_of(num, less) },
    ];
    assert(r@ =~= skill(button, hold, num as int, less as int));
    r
}

fn repeated_of(c: PadCommand, n: u64) -> (r: Vec<PadCommand>)
    ensures
        r@ == repeated(c, n as int),
{
    let mut r: Vec<PadCommand> = Vec::new();
    let mut i: u64 = 0;
    while i < n
        invariant
            i <= n,
            r@ == repeated(c, i as int),
        decreases n - i,
    {
        r.push(c);
        assert(r@ =~= repeated(c, i + 1));
        i += 1;
    }
    r
}

/// The operations of one letter of a combo with its number.
pub fn combo_step(ch: char, num: u64) -> (r: Vec<PadCommand>)
    requires
        num < 10,
    ensures
        r@ == combo_commands(ch, num as int),
{
    let r: Vec<PadCommand> = match ch {
        'j' => repeated_of(PadCommand::Click { button: LS, hold: 100_000, post: 1_100_000 }, num),
        'l' => repeated_of(PadCommand::Click { button: X, hold: 100_000, post: 100_000 }, num),
        'L' => vec![PadCommand::Click { button: X, hold: 600_000, post: span_of(num, 600_000) }],
        'r' => vec![PadCommand::Click { button: RT, hold: span_of(num, 100_000), post: 100_000 }],
        'w' => walk_of(0, 10000, num),
        's' => walk_of(0, -10000, num),
        'a' => walk_of(-10000, 0, num),
        'd' => walk_of(10000, 0, num),
        'q' => skill_of(Y, 100_000, num, 300_000),
        'Q' => skill_of(Y, 600_000, num, 800_000),
        'e' => skill_of(X, 100_000, num, 300_000),
        'E' => skill_of(X, 600_000, num, 800_000),
        'z' => skill_of(B, 100_000, num, 300_000),
        'p' => vec![PadCommand::Rest { duration: num * 1_000_000 }],
        _ => Vec::new(),
    };
    assert(r@ =~= combo_commands(ch, num as int));
    r
}

/// A letter of a combo leaves the gamepad untouched in the end.
pub proof fn law_combo_lets_go(ch: char, num: int)
    requires
        0 <= num < 10,
    ensures
        after_all(neutral(), combo_commands(ch, num)) == neutral(),
{
    let list = combo_commands(ch, num);
    assert((0u16 | 0x0040) & !0x0040u16 == 0 && (0u16 | 0x4000) & !0x4000u16 == 0) by (bit_vector);
    if ch == 'j' {
        lemma_clicks_let_go(PadCommand::Click { button: LS, hold: 100_000, post: 1_100_000 }, num);
    } else if ch == 'l' {
        lemma_clicks_let_go(PadCommand::Click { button: X, hold: 100_000, post: 100_000 }, num);
    } else {
        assert((((0u16 | 0x0100) | 0x8000) & !0x8000u16) & !0x0100u16 == 0) by (bit_vector);
        assert((((0u16 | 0x0100) | 0x4000) & !0x4000u16) & !0x0100u16 == 0) by (bit_vector);
        assert((((0u16 | 0x0100) | 0x2000) & !0x2000u16) & !0x0100u16 == 0) by (bit_vector);
        reveal_with_fuel(after_all, 4);
        assert(list.len() == 3 ==> list.drop_last() =~= seq![list[0], list[1]]);
        assert(list.len() == 2 ==> list.drop_last() =~= seq![list[0]]);
        assert(list.len() == 1 ==> list.drop_last() =~= seq![]);
        if list.len() == 3 {
            assert(seq![list[0], list[1]].drop_last() =~= seq![list[0]]);
            assert(seq![list[0]].drop_last() =~= seq![]);
        } else if list.len() == 2 {
            assert(seq![list[0]].drop_last() =~= seq![]);
        }
    }
}

proof fn lemma_clicks_let_go(c: PadCommand, n: int)
    requires
        n >= 0,
        after(neutral(), c) == neutral(),
    ensures
        after_all(neutral(), repeated(c, n)) == neutral(),
    decreases n,
{
    if n > 0 {
        assert(repeated(c, n).drop_last() =~= repeated(c, n - 1));
        lemma_clicks_let_go(c, n - 1);
    }
}

// ---------------------------------------------------------------------------
// Texts
// ---------------------------------------------------------------------------

/// Whether a text has only ASCII characters, as a combo must.
pub open spec fn is_plain(s: Seq<char>) -> bool {
    forall|i: int| 0 <= i < s.len() ==> (#[trigger] s[i] as u32) < 128
}

/// Whether a text has only ASCII characters.
pub fn plain(s: &str) -> (yes: bool)
    ensures
        yes == is_plain(s@),
{
    let v: Vec<char> = chars_of(s);
    let mut i: usize = 0;
    while i < v.len()
        invariant
            i <= v@.len(),
            v@ == s@,
            forall|k: int| 0 <= k < i ==> (#[trigger] v@[k] as u32) < 128,
        decreases v@.len() - i,
    {
        if v[i] as u32 >= 128 {
            assert(s@[i as int] as u32 >= 128);
            return false;
        }
        i += 1;
    }
    true
}

/// The number that a character of a combo stands for: that of a digit, and
/// else none.
pub open spec fn number_of(c: char) -> int {
    if is_digit(c) {
        digit_value(c)
    } else {
        0
    }
}

fn read_number(c: char) -> (n: u64)
    ensures
        n == number_of(c),
        n < 10,
{
    if '0' <= c && c <= '9' {
        value_of_digit(c)
    } else {
        0
    }
}

/// What to do next in a combo.
#[derive(Debug, Clone, Copy, PartialEq, Eq)]
pub enum ComboMove {
    /// It is over.
    Quit,
    /// Another combo is wanted.
    Switch,
    /// Wait that many microseconds.
    Rest(u64),
    /// Play a letter with its number.
    Play(char, u64),
    /// Nothing, again and again: there is no pair to play.
    Spin,
}

/// How long a paused combo waits before it looks again.
pub const PAUSE_LOOK: u64 = 100_000;

/// A combo that is being played: the place of the next pair, and whether it
/// waits for the end of a pause.
pub struct ComboRun {
    pub combo: String,
    pub chars: Vec<char>,
    pub at: usize,
    pub paused: bool,
}

/// A combo that is being played, as mathematical values.
pub struct RunView {
    pub combo: Seq<char>,
    pub at: int,
    pub paused: bool,
}

impl View for ComboRun {
    type V = RunView;

    open spec fn view(&self) -> RunView {
        RunView { combo: self.combo@, at: self.at as int, paused: self.paused }
    }
}

/// The state of a combo before its first letter.
pub open spec fn beginning(combo: Seq<char>) -> RunView {
    RunView { combo, at: 0, paused: false }
}

/// One step of a combo that is played once.
pub open spec fn once(r: RunView, stop: bool, pause: bool) -> (RunView, ComboMove) {
    if !r.paused && (r.at + 1 >= r.combo.len() || stop) {
        (r, ComboMove::Quit)
    } else if pause {
        (RunView { paused: true, ..r }, ComboMove::Rest(PAUSE_LOOK))
    } else {
        (
            RunView { at: r.at + 2, paused: false, ..r },
            ComboMove::Play(r.combo[r.at], number_of(r.combo[r.at + 1]) as u64),
        )
    }
}

/// One step of a combo that is played again and again. `dead` says that its
/// time is over, `wanted` is the combo that is asked for.
pub open spec fn again(
    r: RunView,
    dead: bool,
    pause: bool,
    wanted: Option<Seq<char>>,
) -> (RunView, ComboMove) {
    let at = if r.at + 1 < r.combo.len() {
        r.at
    } else {
        0
    };
    if r.combo.len() < 2 {
        (r, ComboMove::Spin)
    } else if dead && (pause || !r.paused) {
        (r, ComboMove::Quit)
    } else if pause {
        (RunView { at, paused: true, ..r }, ComboMove::Rest(PAUSE_LOOK))
    } else if wanted != Some(r.combo) {
        (RunView { at, paused: false, ..r }, ComboMove::Switch)
    } else {
        (
            RunView { at: at + 2, paused: false, ..r },
            ComboMove::Play(r.combo[at], number_of(r.combo[at + 1]) as u64),
        )
    }
}

impl ComboRun {
    /// The next pair begins inside the combo or at its end, and whoever waits
    /// for the end of a pause has a pair to play.
    pub open spec fn wf(self) -> bool {
        &&& self.chars@ == self.combo@
        &&& is_plain(self.combo@)
        &&& self.at <= self.combo@.len()
        &&& self.paused ==> self.at + 1 < self.combo@.len()
    }

    /// Begins a combo.
    pub fn new(combo: String) -> (r: Self)
        requires
            is_plain(combo@),
        ensures
            r.wf(),
            r@ == beginning(combo@),
    {
        let chars: Vec<char> = chars_of(combo.as_str());
        ComboRun { combo, chars, at: 0, paused: false }
    }

    /// One step of a combo that is played once. `stop` says that the program
    /// wants to stop, `pause` that the task is paused.
    pub fn run_combo(&mut self, stop: bool, pause: bool) -> (m: ComboMove)
        requires
            old(self).wf(),
        ensures
            final(self).wf(),
            (final(self)@, m) == once(old(self)@, stop, pause),
    {
        let n: usize = self.chars.len();
        assert(self.chars.len() == self.chars@.len());
        if !self.paused && (n == 0 || self.at >= n - 1 || stop) {
            return ComboMove::Quit;
        }
        if pause {
            self.paused = true;
            return ComboMove::Rest(PAUSE_LOOK);
        }
        let ch: char = self.chars[self.at];
        let num: u64 = read_number(self.chars[self.at + 1]);
        self.at = self.at + 2;
        self.paused = false;
        ComboMove::Play(ch, num)
    }
}

// ---------------------------------------------------------------------------
// The combo that is played in the background
// ---------------------------------------------------------------------------

/// What is known of the combo that is played in the background: whether it may
/// be played, the generation of the player, the combo that is wanted, and
/// whether the player can be woken.
pub struct ComboCtrl {
    pub alive: bool,
    pub epoch: u64,
    pub slot: Option<String>,
    pub wake: bool,
}

/// The control as mathematical values.
pub struct CtrlView {
    pub alive: bool,
    pub epoch: u64,
    pub slot: Option<Seq<char>>,
    pub wake: bool,
}

impl View for ComboCtrl {
    type V = CtrlView;

    open spec fn view(&self) -> CtrlView {
        CtrlView {
            alive: self.alive,
            epoch: self.epoch,
            slot: text_of(self.slot),
            wake: self.wake,
        }
    }
}

/// What follows from a request: the generation of the player to start, and
/// whether the player is to be woken.
#[derive(Debug, Clone, Copy, PartialEq, Eq)]
pub struct Started {
    pub spawn: Option<u64>,
    pub notify: bool,
}

/// The control behind a request, and what follows from it: a player is started
/// if there is none, and woken if the combo is a new one.
pub open spec fn started(c: CtrlView, combo: Seq<char>) -> (CtrlView, Started) {
    let gen = (c.epoch + 1) as u64;
    let spawn = if c.alive {
        None
    } else {
        Some(gen)
    };
    let changed = c.slot != Some(combo);
    (
        CtrlView {
            alive: true,
            epoch: if c.alive {
                c.epoch
            } else {
                gen
            },
            slot: Some(combo),
            wake: c.wake || !c.alive,
        },
        Started { spawn, notify: changed && (c.wake || !c.alive) },
    )
}

/// Whether the time of a player is over.
pub open spec fn is_dead(c: CtrlView, gen: u64, stop: bool) -> bool {
    !c.alive || c.epoch != gen || stop
}

/// What a player without a combo does.
pub enum Await {
    /// It ends.
    Quit,
    /// It plays a combo.
    Run(String),
    /// It waits to be woken, but no longer than that many microseconds.
    Wait(u64),
}

/// How long a player waits to be woken.
pub const WAKE_LOOK: u64 = 200_000;

impl ComboCtrl {
    pub fn new() -> (c: Self)
        ensures
            c@ == (CtrlView { alive: false, epoch: 0, slot: None, wake: false }),
    {
        ComboCtrl { alive: false, epoch: 0, slot: None, wake: false }
    }

    /// Asks for a combo.
    pub fn start(&mut self, combo: String) -> (r: Started)
        requires
            old(self).epoch < u64::MAX,
        ensures
            (final(self)@, r) == started(old(self)@, combo@),
    {
        let mut spawn: Option<u64> = None;
        if !self.alive {
            self.alive = true;
            self.epoch = self.epoch + 1;
            spawn = Some(self.epoch);
            self.wake = true;
        }
        if !self.slot_changed(combo.as_str()) {
            return Started { spawn, notify: false };
        }
        self.slot = Some(combo);
        Started { spawn, notify: self.wake }
    }

    /// Whether another combo is wanted, or none.
    pub fn slot_changed(&self, combo: &str) -> (yes: bool)
        ensures
            yes == (self@.slot != Some(combo@)),
    {
        match &self.slot {
            Some(s) => !same(s.as_str(), combo),
            None => true,
        }
    }

    /// Takes a combo back, unless another one is wanted by now.
    pub fn clear_if_current(&mut self, combo: &str)
        ensures
            final(self)@ == (CtrlView {
                slot: if old(self)@.slot == Some(combo@) {
                    None
                } else {
                    old(self)@.slot
                },
                ..old(self)@
            }),
    {
        if !self.slot_changed(combo) {
            self.slot = None;
        }
    }

    /// One step of the player of the given generation in a combo. A player
    /// that quits takes its combo back.
    pub fn run_request(&mut self, run: &mut ComboRun, gen: u64, stop: bool, pause: bool) -> (m:
        ComboMove)
        requires
            old(run).wf(),
        ensures
            final(run).wf(),
            (final(run)@, m) == again(
                old(run)@,
                is_dead(old(self)@, gen, stop),
                pause,
                old(self)@.slot,
            ),
            final(self)@ == (CtrlView {
                slot: if m is Quit && old(self)@.slot == Some(old(run)@.combo) {
                    None
                } else {
                    old(self)@.slot
                },
                ..old(self)@
            }),
    {
        let n: usize = run.chars.len();
        assert(run.chars.len() == run.chars@.len());
        if n < 2 {
            return ComboMove::Spin;
        }
        let dead: bool = !self.alive || self.epoch != gen || stop;
        if dead && (pause || !run.paused) {
            self.clear_if_current(run.combo.as_str());
            return ComboMove::Quit;
        }
        if run.at >= n - 1 {
            run.at = 0;
        }
        if pause {
            run.paused = true;
            return ComboMove::Rest(PAUSE_LOOK);
        }
        run.paused = false;
        if self.slot_changed(run.combo.as_str()) {
            return ComboMove::Switch;
        }
        let ch: char = run.chars[run.at];
        let num: u64 = read_number(run.chars[run.at + 1]);
        run.at = run.at + 2;
        ComboMove::Play(ch, num)
    }

    /// What the player of the given generation does that has no combo.
    /// `disconnected` says that nobody can wake it any more.
    pub fn combo_worker(&self, gen: u64, disconnected: bool) -> (r: Await)
        ensures
            r is Quit <==> disconnected || is_dead(self@, gen, false),
            r matches Await::Run(combo) ==> self@.slot == Some(combo@),
            r matches Await::Wait(t) ==> self@.slot is None && t == WAKE_LOOK,
    {
        if disconnected || !self.alive || self.epoch != gen {
            return Await::Quit;
        }
        match &self.slot {
            Some(combo) => Await::Run(combo.clone()),
            None => Await::Wait(WAKE_LOOK),
        }
    }
}

/// Ends the combo that is played in the background.
pub fn stop_combo(ctrl: &mut ComboCtrl)
    ensures
        final(ctrl)@ == (CtrlView { alive: false, ..old(ctrl)@ }),
{
    ctrl.alive = false;
}

// ---------------------------------------------------------------------------
// Laws
// ---------------------------------------------------------------------------

/// To ask again for the combo that is being played changes nothing.
pub proof fn law_start_twice(c: CtrlView, combo: Seq<char>)
    ensures
        started(started(c, combo).0, combo) == (
            started(c, combo).0,
            Started { spawn: None, notify: false },
        ),
{
}

/// A new player outdates every player before it.
pub proof fn law_new_player_outdates(c: CtrlView, combo: Seq<char>, gen: u64)
    requires
        c.epoch < u64::MAX,
        gen <= c.epoch,
        started(c, combo).1.spawn is Some,
    ensures
        is_dead(started(c, combo).0, gen, false),
        !is_dead(started(c, combo).0, started(c, combo).1.spawn->0, false),
{
}

/// A stopped combo ends at its next step, unless it is just behind a pause.
pub proof fn law_stopped_combo_quits(c: CtrlView, r: RunView, gen: u64, pause: bool)
    requires
        r.combo.len() >= 2,
        !r.paused,
    ensures
        again(r, is_dead(CtrlView { alive: false, ..c }, gen, false), pause, c.slot).1 is Quit,
{
}

/// While the task is paused, nothing is played.
pub proof fn law_paused_plays_nothing(r: RunView, dead: bool, stop: bool, wanted: Option<Seq<char>>)
    ensures
        !(again(r, dead, true, wanted).1 is Play),
        !(once(r, stop, true).1 is Play),
{
}

/// What is played of a combo that nothing disturbs, from a state on.
pub open spec fn played(r: RunView) -> Seq<(char, int)>
    decreases r.combo.len() - r.at,
{
    if r.at < 0 || r.at + 1 >= r.combo.len() {
        seq![]
    } else {
        seq![(r.combo[r.at], number_of(r.combo[r.at + 1]))] + played(
            RunView { at: r.at + 2, ..r },
        )
    }
}

/// A combo that is played once is played pair by pair to its end: what is played
/// are the steps of `once`, one behind the other.
pub proof fn law_combo_played_once(combo: Seq<char>, k: int)
    requires
        0 <= k,
        2 * k <= combo.len(),
    ensures
        ({
            let r = RunView { combo, at: 2 * k, paused: false };
            let pairs = Seq::new(
                (combo.len() / 2 - k) as nat,
                |i: int| (combo[2 * (k + i)], number_of(combo[2 * (k + i) + 1])),
            );
            &&& played(r) == pairs
            &&& once(r, false, false).1 is Quit <==> pairs.len() == 0
            &&& pairs.len() > 0 ==> once(r, false, false) == (
                RunView { at: r.at + 2, ..r },
                ComboMove::Play(pairs[0].0, pairs[0].1 as u64),
            )
        }),
    decreases combo.len() - 2 * k,
{
    let r = RunView { combo, at: 2 * k, paused: false };
    let pairs = Seq::new(
        (combo.len() / 2 - k) as nat,
        |i: int| (combo[2 * (k + i)], number_of(combo[2 * (k + i) + 1])),
    );
    if 2 * k + 1 < combo.len() {
        law_combo_played_once(combo, k + 1);
        let rest = Seq::new(
            (combo.len() / 2 - (k + 1)) as nat,
            |i: int| (combo[2 * (k + 1 + i)], number_of(combo[2 * (k + 1 + i) + 1])),
        );
        assert(RunView { at: r.at + 2, ..r } == RunView { combo, at: 2 * (k + 1), paused: false });
        assert(pairs =~= seq![pairs[0]] + rest) by {
            assert forall|i: int| 0 <= i < rest.len() implies rest[i] == pairs[i + 1] by {
                assert(2 * (k + 1 + i) == 2 * (k + (i + 1)));
            }
        }
    } else {
        assert(pairs =~= seq![]);
    }
}

/// At most one player is alive.
pub proof fn law_one_player(c: CtrlView, a: u64, b: u64, stop: bool)
    requires
        !is_dead(c, a, stop),
        !is_dead(c, b, stop),
    ensures
        a == b,
{
}

/// A combo that is played again and again begins anew behind its last pair.
pub proof fn law_combo_begins_anew(r: RunView)
    requires
        r.combo.len() >= 2,
        r.at + 1 >= r.combo.len(),
    ensures
        again(r, false, false, Some(r.combo)).1 == ComboMove::Play(
            r.combo[0],
            number_of(r.combo[1]) as u64,
        ),
        again(r, false, false, Some(r.combo)).0.at == 2,
{
}

/// The letters that click: `j` and `l` so many times, `L` and `r` once, held or
/// waited for as many seconds as the number says.
pub proof fn law_letters_that_click(num: int, i: int)
    requires
        0 <= num < 10,
    ensures
        combo_commands('j', num).len() == num,
        combo_commands('l', num).len() == num,
        0 <= i < num ==> combo_commands('j', num)[i] == (PadCommand::Click {
            button: LS,
            hold: 100_000,
            post: 1_100_000,
        }),
        0 <= i < num ==> combo_commands('l', num)[i] == (PadCommand::Click {
            button: X,
            hold: 100_000,
            post: 100_000,
        }),
        combo_commands('L', num).len() == 1,
        combo_commands('L', num)[0] matches PadCommand::Click { button, hold, post } && button == X
            && hold == 600_000 && post >= 100_000 && (hold + post == num * 1_000_000 || num == 0
            && post == 100_000),
        combo_commands('r', num).len() == 1,
        combo_commands('r', num)[0] matches PadCommand::Click { button, hold, post } && button
            == RT && post == 100_000 && hold >= 100_000 && (hold + post == num * 1_000_000 || num
            == 0 && hold == 100_000),
{
}

/// The letters that walk hold the left stick in their direction for as many seconds
/// as the number says, a tenth of one at least, and let it go.
pub proof fn law_letters_that_walk(num: int)
    requires
        0 <= num < 10,
    ensures
        forall|ch: char|
            #![trigger combo_commands(ch, num)]
            ch == 'w' || ch == 's' || ch == 'a' || ch == 'd' ==> {
                let l = combo_commands(ch, num);
                &&& l.len() == 2
                &&& l[0] matches PadCommand::LStick { x, y, duration } && x == (if ch == 'a' {
                    -10000int
                } else if ch == 'd' {
                    10000
                } else {
                    0
                }) && y == (if ch == 's' {
                    -10000int
                } else if ch == 'w' {
                    10000
                } else {
                    0
                }) && duration == (if num == 0 {
                    100_000
                } else {
                    num * 1_000_000
                })
                &&& l[1] == (PadCommand::LStick { x: 0, y: 0, duration: 0 })
            },
{
}

/// The letters that use a skill click its button while the left shoulder button is
/// down; all of it takes as many seconds as the number says, and the last wait a
/// tenth of one at least. A capital letter holds the button longer.
pub proof fn law_letters_that_use_a_skill(num: int)
    requires
        0 <= num < 10,
    ensures
        forall|ch: char|
            #![trigger combo_commands(ch, num)]
            ch == 'q' || ch == 'Q' || ch == 'e' || ch == 'E' || ch == 'z' ==> {
                let l = combo_commands(ch, num);
                let long: int = if ch == 'Q' || ch == 'E' {
                    600_000
                } else {
                    100_000
                };
                &&& l.len() == 3
                &&& l[0] == (PadCommand::Press { button: LB, hold: 100_000 })
                &&& l[1] matches PadCommand::Click { button, hold, post } && hold == long && post
                    == 100_000 && button == (if ch == 'q' || ch == 'Q' {
                    Y
                } else if ch == 'z' {
                    B
                } else {
                    X
                })
                &&& l[2] matches PadCommand::Release { button, post } && button == LB && (if num
                    == 0 {
                    post == 100_000
                } else {
                    100_000 + long + 100_000 + post == num * 1_000_000
                })
            },
{
}

/// `p` waits as many seconds as the number says; no other letter does anything.
pub proof fn law_letters_that_wait(ch: char, num: int)
    requires
        0 <= num < 10,
    ensures
        combo_commands('p', num).len() == 1,
        combo_commands('p', num)[0] matches PadCommand::Rest { duration } && duration == num
            * 1_000_000,
        !(seq!['j', 'l', 'L', 'r', 'w', 's', 'a', 'd', 'q', 'Q', 'e', 'E', 'z', 'p'].contains(ch))
            ==> combo_commands(ch, num).len() == 0,
{
    let l = seq!['j', 'l', 'L', 'r', 'w', 's', 'a', 'd', 'q', 'Q', 'e', 'E', 'z', 'p'];
    assert(l[0] == 'j' && l[1] == 'l' && l[2] == 'L' && l[3] == 'r' && l[4] == 'w' && l[5] == 's');
    assert(l[6] == 'a' && l[7] == 'd' && l[8] == 'q' && l[9] == 'Q' && l[10] == 'e');
    assert(l[11] == 'E' && l[12] == 'z' && l[13] == 'p');
}

/// The number of a letter is that of the digit behind it, and none for anything
/// else; a combo is plain when each of its characters is of one byte.
pub proof fn law_numbers_of_letters(c: char, s: Seq<char>)
    ensures
        '0' <= c <= '9' ==> number_of(c) == c as int - '0' as int,
        !('0' <= c <= '9') ==> number_of(c) == 0,
        0 <= number_of(c) <= 9,
        is_plain(s) <==> forall|i: int| 0 <= i < s.len() ==> (#[trigger] s[i] as u32) <= 127,
{
}

/// A step of a combo that is played once: it ends when no pair is left or a stop is
/// wanted, waits while the task is paused, and else plays the next pair. Behind a
/// pause the pair that was waited for is played.
pub proof fn law_step_of_a_combo_played_once(r: RunView, stop: bool, pause: bool)
    requires
        r.at >= 0,
        r.paused ==> r.at + 1 < r.combo.len(),
    ensures
        ({
            let (n, m) = once(r, stop, pause);
            let left = r.at + 1 < r.combo.len();
            let ends = !r.paused && (stop || !left);
            &&& n.combo == r.combo
            &&& m is Quit <==> ends
            &&& m == ComboMove::Rest(100_000) <==> !ends && pause
            &&& m is Rest ==> n.at == r.at && n.paused
            &&& m is Quit ==> n == r
            &&& m is Play <==> !ends && !pause
            &&& m matches ComboMove::Play(ch, num) ==> ch == r.combo[r.at] && num == number_of(
                r.combo[r.at + 1],
            ) && n.at == r.at + 2 && !n.paused
        }),
{
}

/// A step of a combo that is played again and again: a player whose time is over
/// ends, a paused one waits, one whose combo is not wanted any more takes another,
/// and else the next pair is played, or the first one behind the last.
pub proof fn law_step_of_a_combo_played_again(
    r: RunView,
    dead: bool,
    pause: bool,
    wanted: Option<Seq<char>>,
)
    requires
        r.combo.len() >= 2,
        r.at >= 0,
    ensures
        ({
            let (n, m) = again(r, dead, pause, wanted);
            let at = if r.at + 1 < r.combo.len() {
                r.at
            } else {
                0
            };
            let ends = dead && (pause || !r.paused);
            &&& n.combo == r.combo
            &&& m is Quit <==> ends
            &&& m is Rest <==> !ends && pause
            &&& m is Rest ==> m == ComboMove::Rest(100_000) && n.paused && n.at == at
            &&& m is Switch <==> !ends && !pause && wanted != Some(r.combo)
            &&& m is Play <==> !ends && !pause && wanted == Some(r.combo)
            &&& m matches ComboMove::Play(ch, num) ==> ch == r.combo[at] && num == number_of(
                r.combo[at + 1],
            ) && n.at == at + 2 && !n.paused
        }),
        again(RunView { combo: r.combo.take(1), ..r }, dead, pause, wanted).1 is Spin,
{
}

/// A request for a combo starts a player exactly when none is alive, wants the
/// combo, and wakes the player exactly when another combo or none was wanted before
/// and somebody can be woken.
pub proof fn law_request_for_a_combo(c: CtrlView, combo: Seq<char>)
    requires
        c.epoch < u64::MAX,
    ensures
        ({
            let (n, s) = started(c, combo);
            &&& n.alive
            &&& n.slot == Some(combo)
            &&& s.spawn is Some <==> !c.alive
            &&& s.spawn matches Some(gen) ==> gen == c.epoch + 1 && n.epoch == gen
            &&& c.alive ==> n.epoch == c.epoch
            &&& s.notify <==> c.slot != Some(combo) && (c.wake || !c.alive)
            &&& n.wake <==> c.wake || !c.alive
        }),
{
}

/// The time of a player is over when nothing may be played, when another player was
/// started, or when the program wants to stop.
pub proof fn law_time_of_a_player(c: CtrlView, gen: u64, stop: bool)
    ensures
        is_dead(c, gen, stop) <==> !(c.alive && c.epoch == gen && !stop),
        beginning(c.slot->0).at == 0,
        beginning(c.slot->0).combo == c.slot->0,
        !beginning(c.slot->0).paused,
{
}

/// What a combo and its control are seen as is what they hold.
pub proof fn law_combos_are_seen_as_they_are(r: ComboRun, c: ComboCtrl)
    ensures
        r@.combo == r.combo@,
        r@.at == r.at,
        r@.paused == r.paused,
        c@.alive == c.alive,
        c@.epoch == c.epoch,
        c@.slot is Some <==> c.slot is Some,
        c.slot matches Some(s) ==> c@.slot == Some(s@),
        c@.wake == c.wake,
{
}

/// A player without a combo looks for one every fifth of a second, and a paused
/// combo every tenth.
pub proof fn law_how_often_is_looked()
    ensures
        5 * WAKE_LOOK == 1_000_000,
        10 * PAUSE_LOOK == 1_000_000,
{
}

} // verus!
