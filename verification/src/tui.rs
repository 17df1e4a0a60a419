//! The user interface: what it shows, and what follows from keys and clicks.

use vstd::prelude::*;
use crate::game::{Args, ArgsView, GameType};
use crate::layout::{config_areas, covers, is_config_layout, Area, ConfigAreas};
use crate::script_engine::{MetaView, ScriptMeta};
use crate::text::{
    decimal, decimal_text, is_digit, is_listed, number, parse_number, same, stem, stem_of, text_of,
    texts, two_digit_text, two_digits,
};

verus! {

// ---------------------------------------------------------------------------
// Tasks
// ---------------------------------------------------------------------------

/// The name of the task whose script is in a file, if the file is a script.
pub open spec fn task_of(file: Seq<char>) -> Option<Seq<char>> {
    stem(file, "rhai"@)
}

/// The tasks whose scripts are in files, each once, in the order in which they
/// are met.
pub open spec fn tasks_in(files: Seq<Seq<char>>) -> Seq<Seq<char>>
    decreases files.len(),
{
    if files.len() == 0 {
        seq![]
    } else {
        let before = tasks_in(files.drop_last());
        match task_of(files.last()) {
            Some(t) => if before.contains(t) {
                before
            } else {
                before.push(t)
            },
            None => before,
        }
    }
}

/// The tasks whose scripts are in files.
pub fn scan_tasks(files: &Vec<String>) -> (r: Vec<String>)
    ensures
        texts(r@) == tasks_in(texts(files@)),
{
    let mut r: Vec<String> = Vec::new();
    let mut i: usize = 0;
    let ghost all = texts(files@);
    assert(all.take(0) =~= seq![]);
    assert(texts(r@) =~= seq![]);
    while i < files.len()
        invariant
            i <= files@.len(),
            all == texts(files@),
            texts(r@) == tasks_in(all.take(i as int)),
        decreases files@.len() - i,
    {
        let ghost had = texts(r@);
        proof {
            assert(all.take(i + 1).drop_last() =~= all.take(i as int));
            assert(all.take(i + 1).last() == files@[i as int]@);
        }
        match stem_of(files[i].as_str(), "rhai") {
            Some(t) => {
                if !is_listed(&r, t.as_str()) {
                    r.push(t);
                    assert(texts(r@) =~= had.push(t@));
                }
            },
            None => {},
        }
        i += 1;
    }
    assert(all.take(i as int) =~= all);
    r
}

/// No task is listed twice.
pub proof fn law_tasks_differ(files: Seq<Seq<char>>)
    ensures
        tasks_in(files).no_duplicates(),
    decreases files.len(),
{
    if files.len() > 0 {
        law_tasks_differ(files.drop_last());
        let before = tasks_in(files.drop_last());
        match task_of(files.last()) {
            Some(t) => if !before.contains(t) {
                assert forall|i: int, j: int|
                    0 <= i < before.push(t).len() && 0 <= j < before.push(t).len() && i
                        != j implies before.push(t)[i] != before.push(t)[j] by {
                    if i < before.len() && j < before.len() {
                        assert(before[i] != before[j]);
                    } else if i < before.len() {
                        assert(before.contains(before[i]));
                    } else if j < before.len() {
                        assert(before.contains(before[j]));
                    }
                }
            },
            None => {},
        }
    }
}

/// Every script gives a task.
pub proof fn law_every_script_is_listed(files: Seq<Seq<char>>, i: int)
    requires
        0 <= i < files.len(),
        task_of(files[i]) is Some,
    ensures
        tasks_in(files).contains(task_of(files[i])->0),
    decreases files.len(),
{
    let before = tasks_in(files.drop_last());
    let t = task_of(files[i])->0;
    if i < files.len() - 1 {
        law_every_script_is_listed(files.drop_last(), i);
        let k = choose|k: int| 0 <= k < before.len() && before[k] == t;
        match task_of(files.last()) {
            Some(u) => {
                assert(before.push(u)[k] == t);
            },
            None => {},
        }
    } else if !before.contains(t) {
        assert(before.push(t)[before.len() as int] == t);
    }
}

// ---------------------------------------------------------------------------
// The state of the interface
// ---------------------------------------------------------------------------

/// The number of parameters.
pub const PARAMS: usize = 5;

/// The column that keys go to.
#[derive(Debug, Clone, Copy, PartialEq, Eq, Structural)]
pub enum Focus {
    Game,
    Task,
    Param,
}

/// The page that is shown.
#[derive(Debug, Clone, Copy, PartialEq, Eq, Structural)]
pub enum Page {
    Config,
    Custom,
    Running,
}

/// A key.
#[derive(Debug, Clone, Copy, PartialEq, Eq, Structural)]
pub enum Key {
    Esc,
    Up,
    Down,
    Left,
    Right,
    Tab,
    Backspace,
    Enter,
    F(u8),
    Char(char),
    Other,
}

/// What is to be done outside of the interface.
#[derive(Debug, Clone, Copy, PartialEq, Eq, Structural)]
pub enum UiAction {
    Nothing,
    /// Look which scripts there are for the selected game.
    Scan,
    /// Read the header of the script of the selected task.
    LoadMeta,
    /// Start the selected task.
    Start,
    /// Start the script that the user has written.
    StartCustom,
    /// Tell the task to leave.
    Exit,
    /// Pause the task, or go on with it.
    TogglePause,
    /// Tell the task to start over.
    Reset,
}

/// The interface.
pub struct App {
    pub page: Page,
    pub games: Vec<GameType>,
    pub selected_game: usize,
    pub tasks: Vec<String>,
    pub selected_task: usize,
    pub focus: Focus,
    pub param_idx: usize,
    pub boost: String,
    pub turn: String,
    pub timeout: String,
    pub combo: String,
    pub strategy: String,
    pub default_boost: String,
    pub default_turn: String,
    pub default_timeout: String,
    pub game_rect: Option<Area>,
    pub task_rect: Option<Area>,
    pub param_rect: Option<Area>,
    pub custom_rect: Option<Area>,
    pub log_scroll: usize,
    pub notice: Option<String>,
    pub script_meta: Option<ScriptMeta>,
    pub custom: bool,
    pub custom_script: String,
    pub working: bool,
    pub quit: bool,
}

/// The interface as mathematical values.
pub struct AppView {
    pub page: Page,
    pub games: Seq<GameType>,
    pub selected_game: int,
    pub tasks: Seq<Seq<char>>,
    pub selected_task: int,
    pub focus: Focus,
    pub param_idx: int,
    pub boost: Seq<char>,
    pub turn: Seq<char>,
    pub timeout: Seq<char>,
    pub combo: Seq<char>,
    pub strategy: Seq<char>,
    pub default_boost: Seq<char>,
    pub default_turn: Seq<char>,
    pub default_timeout: Seq<char>,
    pub game_rect: Option<Area>,
    pub task_rect: Option<Area>,
    pub param_rect: Option<Area>,
    pub custom_rect: Option<Area>,
    pub log_scroll: int,
    pub notice: Option<Seq<char>>,
    pub script_meta: Option<MetaView>,
    pub custom: bool,
    pub custom_script: Seq<char>,
    pub working: bool,
    pub quit: bool,
}

/// A header that may be missing.
pub open spec fn meta_of(m: Option<ScriptMeta>) -> Option<MetaView> {
    match m {
        Some(m) => Some(m@),
        None => None,
    }
}

impl View for App {
    type V = AppView;

    open spec fn view(&self) -> AppView {
        AppView {
            page: self.page,
            games: self.games@,
            selected_game: self.selected_game as int,
            tasks: texts(self.tasks@),
            selected_task: self.selected_task as int,
            focus: self.focus,
            param_idx: self.param_idx as int,
            boost: self.boost@,
            turn: self.turn@,
            timeout: self.timeout@,
            combo: self.combo@,
            strategy: self.strategy@,
            default_boost: self.default_boost@,
            default_turn: self.default_turn@,
            default_timeout: self.default_timeout@,
            game_rect: self.game_rect,
            task_rect: self.task_rect,
            param_rect: self.param_rect,
            custom_rect: self.custom_rect,
            log_scroll: self.log_scroll as int,
            notice: text_of(self.notice),
            script_meta: meta_of(self.script_meta),
            custom: self.custom,
            custom_script: self.custom_script@,
            working: self.working,
            quit: self.quit,
        }
    }
}

/// What is selected is there.
pub open spec fn sound(a: AppView) -> bool {
    &&& 0 <= a.selected_game < a.games.len()
    &&& 0 <= a.selected_task
    &&& a.selected_task < a.tasks.len() || (a.tasks.len() == 0 && a.selected_task == 0)
    &&& 0 <= a.param_idx < PARAMS
}

/// The interface at its beginning, before the tasks are known.
pub open spec fn opened(args: ArgsView) -> AppView {
    AppView {
        page: Page::Config,
        games: seq![GameType::Dna, GameType::Nte],
        selected_game: 0,
        tasks: seq![],
        selected_task: 0,
        focus: Focus::Game,
        param_idx: 0,
        boost: decimal(args.boost as nat),
        turn: decimal(args.turn as nat),
        timeout: decimal(args.timeout as nat),
        combo: args.combo,
        strategy: args.strategy,
        default_boost: decimal(args.boost as nat),
        default_turn: decimal(args.turn as nat),
        default_timeout: decimal(args.timeout as nat),
        game_rect: None,
        task_rect: None,
        param_rect: None,
        custom_rect: None,
        log_scroll: 0,
        notice: None,
        script_meta: None,
        custom: false,
        custom_script: seq![],
        working: false,
        quit: false,
    }
}

// ---------------------------------------------------------------------------
// Keys
// ---------------------------------------------------------------------------

/// One less, but not less than zero.
pub open spec fn one_less(n: int) -> int {
    if n > 0 {
        n - 1
    } else {
        0
    }
}

/// The interface behind the key `Up` on the first page.
pub open spec fn up(a: AppView) -> (AppView, UiAction) {
    match a.focus {
        Focus::Game => if a.selected_game > 0 {
            (AppView { selected_game: a.selected_game - 1, ..a }, UiAction::Scan)
        } else {
            (a, UiAction::Nothing)
        },
        Focus::Task => if a.tasks.len() > 0 {
            (AppView { selected_task: one_less(a.selected_task), ..a }, UiAction::LoadMeta)
        } else {
            (a, UiAction::Nothing)
        },
        Focus::Param => (AppView { param_idx: one_less(a.param_idx), ..a }, UiAction::Nothing),
    }
}

/// The interface behind the key `Down` on the first page.
pub open spec fn down(a: AppView) -> (AppView, UiAction) {
    match a.focus {
        Focus::Game => if a.selected_game + 1 < a.games.len() {
            (AppView { selected_game: a.selected_game + 1, ..a }, UiAction::Scan)
        } else {
            (a, UiAction::Nothing)
        },
        Focus::Task => if a.selected_task + 1 < a.tasks.len() {
            (AppView { selected_task: a.selected_task + 1, ..a }, UiAction::LoadMeta)
        } else {
            (a, UiAction::Nothing)
        },
        Focus::Param => if a.param_idx + 1 < PARAMS {
            (AppView { param_idx: a.param_idx + 1, ..a }, UiAction::Nothing)
        } else {
            (a, UiAction::Nothing)
        },
    }
}

/// The column to the left.
pub open spec fn leftward(f: Focus) -> Focus {
    match f {
        Focus::Game => Focus::Game,
        Focus::Task => Focus::Game,
        Focus::Param => Focus::Task,
    }
}

/// The column to the right.
pub open spec fn rightward(f: Focus) -> Focus {
    match f {
        Focus::Game => Focus::Task,
        Focus::Task => Focus::Param,
        Focus::Param => Focus::Param,
    }
}

/// The next column; the first comes behind the last.
pub open spec fn onward(f: Focus) -> Focus {
    match f {
        Focus::Game => Focus::Task,
        Focus::Task => Focus::Param,
        Focus::Param => Focus::Game,
    }
}

/// A text without its last character.
pub open spec fn shortened(s: Seq<char>) -> Seq<char> {
    if s.len() > 0 {
        s.drop_last()
    } else {
        s
    }
}

/// The interface without the last character of the selected parameter.
pub open spec fn erased(a: AppView) -> AppView {
    if a.param_idx == 0 {
        AppView { strategy: shortened(a.strategy), ..a }
    } else if a.param_idx == 1 {
        AppView { combo: shortened(a.combo), ..a }
    } else if a.param_idx == 2 {
        AppView { timeout: shortened(a.timeout), ..a }
    } else if a.param_idx == 3 {
        AppView { boost: shortened(a.boost), ..a }
    } else {
        AppView { turn: shortened(a.turn), ..a }
    }
}

/// A number with one more digit; the first digit replaces the number that was
/// there at the beginning.
pub open spec fn extended(s: Seq<char>, first: Seq<char>, c: char) -> Seq<char> {
    if s == first {
        seq![c]
    } else {
        s.push(c)
    }
}

/// The interface with one more character in the selected parameter. The numbers
/// take digits only.
pub open spec fn typed(a: AppView, c: char) -> AppView {
    if a.param_idx == 0 {
        AppView { strategy: a.strategy.push(c), ..a }
    } else if a.param_idx == 1 {
        AppView { combo: a.combo.push(c), ..a }
    } else if a.param_idx == 2 && is_digit(c) {
        AppView { timeout: extended(a.timeout, a.default_timeout, c), ..a }
    } else if a.param_idx == 3 && is_digit(c) {
        AppView { boost: extended(a.boost, a.default_boost, c), ..a }
    } else if a.param_idx == 4 && is_digit(c) {
        AppView { turn: extended(a.turn, a.default_turn, c), ..a }
    } else {
        a
    }
}

/// The interface behind a key on the first page.
pub open spec fn config_key(a: AppView, key: Key) -> (AppView, UiAction) {
    match key {
        Key::Esc => (AppView { quit: true, ..a }, UiAction::Nothing),
        Key::Up => up(a),
        Key::Down => down(a),
        Key::Left => (AppView { focus: leftward(a.focus), ..a }, UiAction::Nothing),
        Key::Right => (AppView { focus: rightward(a.focus), ..a }, UiAction::Nothing),
        Key::Tab => (AppView { focus: onward(a.focus), ..a }, UiAction::Nothing),
        Key::Backspace => (erased(a), UiAction::Nothing),
        Key::Enter => (
            AppView { notice: None, ..a },
            if a.tasks.len() > 0 {
                UiAction::Start
            } else {
                UiAction::Nothing
            },
        ),
        Key::Char(c) => if c == '\u{1b}' {
            (AppView { quit: true, ..a }, UiAction::Nothing)
        } else if a.focus is Param {
            (typed(a, c), UiAction::Nothing)
        } else {
            (a, UiAction::Nothing)
        },
        _ => (a, UiAction::Nothing),
    }
}

/// The interface behind a key on the page with the user's own script.
pub open spec fn custom_key(a: AppView, key: Key) -> (AppView, UiAction) {
    match key {
        Key::Esc => (AppView { page: Page::Config, ..a }, UiAction::Nothing),
        Key::F(n) => if n == 5 && a.custom_script.len() > 0 {
            (a, UiAction::StartCustom)
        } else if n == 6 {
            (AppView { custom_script: seq![], ..a }, UiAction::Nothing)
        } else {
            (a, UiAction::Nothing)
        },
        Key::Enter => (
            AppView { custom_script: a.custom_script.push('\n'), ..a },
            UiAction::Nothing,
        ),
        Key::Backspace => (
            AppView { custom_script: shortened(a.custom_script), ..a },
            UiAction::Nothing,
        ),
        Key::Char(c) => if c == '\u{1b}' {
            (AppView { page: Page::Config, ..a }, UiAction::Nothing)
        } else {
            (AppView { custom_script: a.custom_script.push(c), ..a }, UiAction::Nothing)
        },
        _ => (a, UiAction::Nothing),
    }
}

/// What follows from a key while a task runs.
pub open spec fn running_key(a: AppView, key: Key) -> UiAction {
    if !a.working {
        UiAction::Nothing
    } else if key == Key::Esc || key == Key::Char('\u{1b}') {
        UiAction::Exit
    } else if key == Key::Char('p') {
        UiAction::TogglePause
    } else if key == Key::Char('r') {
        UiAction::Reset
    } else {
        UiAction::Nothing
    }
}

/// The interface behind a key. The key `c` with the control key ends the
/// program.
pub open spec fn key_pressed(a: AppView, key: Key, control: bool) -> (AppView, UiAction) {
    if control && key == Key::Char('c') {
        (AppView { quit: true, ..a }, UiAction::Nothing)
    } else {
        match a.page {
            Page::Config => config_key(a, key),
            Page::Custom => custom_key(a, key),
            Page::Running => (a, running_key(a, key)),
        }
    }
}

fn add_digit(s: &mut String, first: &String, c: char)
    ensures
        final(s)@ == extended(old(s)@, first@, c),
{
    if same(s.as_str(), first.as_str()) {
        s.clear();
    }
    s.push(c);
    assert(s@ =~= extended(old(s)@, first@, c));
}

impl App {
    /// Opens the interface; the tasks of the first game are to be looked for.
    pub fn new(args: &Args) -> (a: Self)
        ensures
            a@ == opened(args@),
            sound(a@),
    {
        let a = App {
            page: Page::Config,
            games: vec![GameType::Dna, GameType::Nte],
            selected_game: 0,
            tasks: Vec::new(),
            selected_task: 0,
            focus: Focus::Game,
            param_idx: 0,
            boost: decimal_text(args.boost as u64),
            turn: decimal_text(args.turn as u64),
            timeout: decimal_text(args.timeout),
            combo: args.combo.clone(),
            strategy: args.strategy.clone(),
            default_boost: decimal_text(args.boost as u64),
            default_turn: decimal_text(args.turn as u64),
            default_timeout: decimal_text(args.timeout),
            game_rect: None,
            task_rect: None,
            param_rect: None,
            custom_rect: None,
            log_scroll: 0,
            notice: None,
            script_meta: None,
            custom: false,
            custom_script: String::new(),
            working: false,
            quit: false,
        };
        assert(a.games@ =~= seq![GameType::Dna, GameType::Nte]);
        assert(texts(a.tasks@) =~= seq![]);
        assert(a.custom_script@ =~= seq![]);
        a
    }

    /// The game that is selected.
    pub fn selected_game(&self) -> (g: GameType)
        requires
            sound(self@),
        ensures
            g == self@.games[self@.selected_game],
    {
        self.games[self.selected_game]
    }

    /// The task that is selected, if there are tasks.
    pub fn selected_task(&self) -> (r: Option<String>)
        requires
            sound(self@),
        ensures
            text_of(r) == (if self@.tasks.len() > 0 {
                Some(self@.tasks[self@.selected_task])
            } else {
                None
            }),
    {
        assert(texts(self.tasks@).len() == self.tasks@.len());
        if self.tasks.len() > 0 {
            Some(self.tasks[self.selected_task].clone())
        } else {
            None
        }
    }

    /// Takes the tasks that were found for the selected game. The selection stays
    /// where it was, as far as there are tasks; the header of the script is to be
    /// read.
    pub fn refresh_tasks(&mut self, tasks: Vec<String>)
        requires
            sound(old(self)@),
        ensures
            sound(final(self)@),
            final(self)@ == (AppView {
                tasks: texts(tasks@),
                selected_task: if tasks@.len() == 0 {
                    0
                } else if old(self)@.selected_task >= tasks@.len() {
                    tasks@.len() - 1
                } else {
                    old(self)@.selected_task
                },
                ..old(self)@
            }),
    {
        self.tasks = tasks;
        assert(texts(self.tasks@).len() == self.tasks@.len());
        if self.tasks.len() == 0 {
            self.selected_task = 0;
        } else if self.selected_task >= self.tasks.len() {
            self.selected_task = self.tasks.len() - 1;
        }
    }

    /// Takes the text of the script of the selected task, if there is one.
    pub fn load_script_meta(&mut self, script: Option<&str>)
        ensures
            final(self)@ == (AppView {
                script_meta: match script {
                    Some(s) => Some(crate::script_engine::meta_of(s@)),
                    None => None,
                },
                ..old(self)@
            }),
    {
        self.script_meta = match script {
            Some(s) => Some(ScriptMeta::parse(s)),
            None => None,
        };
    }

    /// The arguments with which the selected task is started. A number that is
    /// none counts as the usual one.
    pub fn build_args(&self) -> (args: Args)
        requires
            sound(self@),
        ensures
            args@ == chosen(self@),
    {
        let args = Args {
            game: Some(self.selected_game()),
            task: self.selected_task(),
            exe: None,
            plan: Vec::new(),
            boost: match parse_number(self.boost.as_str(), u32::MAX as u64) {
                Some(n) => n as u32,
                None => 0,
            },
            strategy: self.strategy.clone(),
            combo: self.combo.clone(),
            turn: match parse_number(self.turn.as_str(), u32::MAX as u64) {
                Some(n) => n as u32,
                None => 99,
            },
            timeout: match parse_number(self.timeout.as_str(), u64::MAX) {
                Some(n) => n,
                None => 0,
            },
        };
        assert(texts(args.plan@) =~= seq![]);
        args
    }

    /// A key on the first page.
    pub fn handle_config_key(&mut self, key: Key) -> (r: UiAction)
        requires
            sound(old(self)@),
        ensures
            (final(self)@, r) == config_key(old(self)@, key),
            sound(final(self)@),
    {
        assert(texts(self.tasks@).len() == self.tasks@.len());
        assert(self.games.len() == self.games@.len());
        match key {
            Key::Esc => {
                self.quit = true;
                UiAction::Nothing
            },
            Key::Up => match self.focus {
                Focus::Game => {
                    if self.selected_game > 0 {
                        self.selected_game -= 1;
                        UiAction::Scan
                    } else {
                        UiAction::Nothing
                    }
                },
                Focus::Task => {
                    if self.tasks.len() > 0 {
                        if self.selected_task > 0 {
                            self.selected_task -= 1;
                        }
                        UiAction::LoadMeta
                    } else {
                        UiAction::Nothing
                    }
                },
                Focus::Param => {
                    if self.param_idx > 0 {
                        self.param_idx -= 1;
                    }
                    UiAction::Nothing
                },
            },
            Key::Down => match self.focus {
                Focus::Game => {
                    if self.selected_game + 1 < self.games.len() {
                        self.selected_game += 1;
                        UiAction::Scan
                    } else {
                        UiAction::Nothing
                    }
                },
                Focus::Task => {
                    if self.tasks.len() > 0 && self.selected_task + 1 < self.tasks.len() {
                        self.selected_task += 1;
                        UiAction::LoadMeta
                    } else {
                        UiAction::Nothing
                    }
                },
                Focus::Param => {
                    if self.param_idx + 1 < PARAMS {
                        self.param_idx += 1;
                    }
                    UiAction::Nothing
                },
            },
            Key::Left => {
                match self.focus {
                    Focus::Game => {},
                    Focus::Task => self.focus = Focus::Game,
                    Focus::Param => self.focus = Focus::Task,
                }
                UiAction::Nothing
            },
            Key::Right => {
                match self.focus {
                    Focus::Game => self.focus = Focus::Task,
                    Focus::Task => self.focus = Focus::Param,
                    Focus::Param => {},
                }
                UiAction::Nothing
            },
            Key::Tab => {
                match self.focus {
                    Focus::Game => self.focus = Focus::Task,
                    Focus::Task => self.focus = Focus::Param,
                    Focus::Param => self.focus = Focus::Game,
                }
                UiAction::Nothing
            },
            Key::Backspace => {
                match self.param_idx {
                    0 => {
                        let _ = self.strategy.pop();
                    },
                    1 => {
                        let _ = self.combo.pop();
                    },
                    2 => {
                        let _ = self.timeout.pop();
                    },
                    3 => {
                        let _ = self.boost.pop();
                    },
                    _ => {
                        let _ = self.turn.pop();
                    },
                }
                UiAction::Nothing
            },
            Key::Enter => {
                self.notice = None;
                if self.tasks.len() > 0 {
                    UiAction::Start
                } else {
                    UiAction::Nothing
                }
            },
            Key::Char(c) => {
                if c == '\u{1b}' {
                    self.quit = true;
                } else if self.focus == Focus::Param {
                    self.type_char(c);
                }
                UiAction::Nothing
            },
            _ => UiAction::Nothing,
        }
    }

    fn type_char(&mut self, c: char)
        requires
            sound(old(self)@),
        ensures
            final(self)@ == typed(old(self)@, c),
    {
        let digit: bool = '0' <= c && c <= '9';
        match self.param_idx {
            0 => self.strategy.push(c),
            1 => self.combo.push(c),
            2 => {
                if digit {
                    add_digit(&mut self.timeout, &self.default_timeout, c);
                }
            },
            3 => {
                if digit {
                    add_digit(&mut self.boost, &self.default_boost, c);
                }
            },
            _ => {
                if digit {
                    add_digit(&mut self.turn, &self.default_turn, c);
                }
            },
        }
    }

    /// A key on the page with the user's own script.
    pub fn handle_custom_key(&mut self, key: Key) -> (r: UiAction)
        ensures
            (final(self)@, r) == custom_key(old(self)@, key),
    {
        match key {
            Key::Esc => {
                self.page = Page::Config;
                UiAction::Nothing
            },
            Key::F(n) => {
                if n == 5 && self.custom_script.as_str().unicode_len() > 0 {
                    UiAction::StartCustom
                } else {
                    if n == 6 {
                        self.custom_script.clear();
                        assert(self.custom_script@ =~= seq![]);
                    }
                    UiAction::Nothing
                }
            },
            Key::Enter => {
                self.custom_script.push('\n');
                UiAction::Nothing
            },
            Key::Backspace => {
                let _ = self.custom_script.pop();
                UiAction::Nothing
            },
            Key::Char(c) => {
                if c == '\u{1b}' {
                    self.page = Page::Config;
                } else {
                    self.custom_script.push(c);
                }
                UiAction::Nothing
            },
            _ => UiAction::Nothing,
        }
    }

    /// A key while a task runs.
    pub fn handle_running_key(&self, key: Key) -> (r: UiAction)
        ensures
            r == running_key(self@, key),
    {
        if !self.working {
            return UiAction::Nothing;
        }
        match key {
            Key::Esc => UiAction::Exit,
            Key::Char(c) => {
                if c == '\u{1b}' {
                    UiAction::Exit
                } else if c == 'p' {
                    UiAction::TogglePause
                } else if c == 'r' {
                    UiAction::Reset
                } else {
                    UiAction::Nothing
                }
            },
            _ => UiAction::Nothing,
        }
    }

    /// A key.
    pub fn handle_key(&mut self, key: Key, control: bool) -> (r: UiAction)
        requires
            sound(old(self)@),
        ensures
            (final(self)@, r) == key_pressed(old(self)@, key, control),
            sound(final(self)@),
    {
        if control && key == Key::Char('c') {
            self.quit = true;
            return UiAction::Nothing;
        }
        match self.page {
            Page::Config => self.handle_config_key(key),
            Page::Custom => self.handle_custom_key(key),
            Page::Running => self.handle_running_key(key),
        }
    }
}

/// The arguments with which the selected task is started.
pub open spec fn chosen(a: AppView) -> ArgsView {
    ArgsView {
        game: Some(a.games[a.selected_game]),
        task: if a.tasks.len() > 0 {
            Some(a.tasks[a.selected_task])
        } else {
            None
        },
        exe: None,
        plan: seq![],
        boost: match number(a.boost, u32::MAX as nat) {
            Some(n) => n as u32,
            None => 0,
        },
        strategy: a.strategy,
        combo: a.combo,
        turn: match number(a.turn, u32::MAX as nat) {
            Some(n) => n as u32,
            None => 99,
        },
        timeout: match number(a.timeout, u64::MAX as nat) {
            Some(n) => n as u64,
            None => 0,
        },
    }
}

// ---------------------------------------------------------------------------
// The mouse
// ---------------------------------------------------------------------------

/// What the mouse does.
#[derive(Debug, Clone, Copy, PartialEq, Eq, Structural)]
pub enum Mouse {
    ScrollUp,
    ScrollDown,
    Click { col: u16, row: u16 },
    Other,
}

/// The row of a list in an area that a click goes to: the first row of an area
/// is its border.
pub open spec fn row_hit(area: Option<Area>, col: u16, row: u16) -> Option<int> {
    match area {
        Some(r) => if covers(r, col, row) && row > r.y {
            Some(row - r.y - 1)
        } else {
            None
        },
        None => None,
    }
}

/// The interface behind a click on the first page.
pub open spec fn clicked(a: AppView, col: u16, row: u16) -> (AppView, UiAction) {
    match row_hit(a.game_rect, col, row) {
        Some(i) => if i < a.games.len() {
            (AppView { selected_game: i, focus: Focus::Game, ..a }, UiAction::Scan)
        } else {
            (a, UiAction::Nothing)
        },
        None => match row_hit(a.task_rect, col, row) {
            Some(i) => if i < a.tasks.len() {
                (AppView { selected_task: i, focus: Focus::Task, ..a }, UiAction::LoadMeta)
            } else {
                (a, UiAction::Nothing)
            },
            None => {
                let b = match row_hit(a.param_rect, col, row) {
                    Some(i) => if i < PARAMS {
                        AppView { param_idx: i, focus: Focus::Param, ..a }
                    } else {
                        a
                    },
                    None => a,
                };
                let opens = a.custom_rect matches Some(r) && covers(r, col, row);
                (
                    if opens {
                        AppView { page: Page::Custom, ..b }
                    } else {
                        b
                    },
                    UiAction::Nothing,
                )
            },
        },
    }
}

/// How far the wheel moves the log.
pub const SCROLL: usize = 3;

/// The interface behind a movement of the mouse.
pub open spec fn moused(a: AppView, m: Mouse) -> (AppView, UiAction) {
    match m {
        Mouse::ScrollUp => (
            if a.page is Running {
                AppView { log_scroll: a.log_scroll + SCROLL, ..a }
            } else {
                a
            },
            UiAction::Nothing,
        ),
        Mouse::ScrollDown => (
            if a.page is Running {
                AppView {
                    log_scroll: if a.log_scroll > SCROLL {
                        a.log_scroll - SCROLL
                    } else {
                        0
                    },
                    ..a
                }
            } else {
                a
            },
            UiAction::Nothing,
        ),
        Mouse::Click { col, row } => if a.page is Config {
            clicked(a, col, row)
        } else {
            (a, UiAction::Nothing)
        },
        Mouse::Other => (a, UiAction::Nothing),
    }
}

fn hit(area: &Option<Area>, col: u16, row: u16) -> (r: Option<usize>)
    ensures
        row_hit(*area, col, row) == match r {
            Some(i) => Some(i as int),
            None => None,
        },
{
    match area {
        Some(a) => {
            if a.contains(col, row) && row > a.y {
                Some((row - a.y - 1) as usize)
            } else {
                None
            }
        },
        None => None,
    }
}

impl App {
    /// A click on the first page.
    pub fn handle_config_click(&mut self, row: u16, col: u16) -> (r: UiAction)
        requires
            sound(old(self)@),
        ensures
            (final(self)@, r) == clicked(old(self)@, col, row),
            sound(final(self)@),
    {
        assert(texts(self.tasks@).len() == self.tasks@.len());
        match hit(&self.game_rect, col, row) {
            Some(i) => {
                if i < self.games.len() {
                    self.selected_game = i;
                    self.focus = Focus::Game;
                    return UiAction::Scan;
                }
                return UiAction::Nothing;
            },
            None => {},
        }
        match hit(&self.task_rect, col, row) {
            Some(i) => {
                if i < self.tasks.len() {
                    self.selected_task = i;
                    self.focus = Focus::Task;
                    return UiAction::LoadMeta;
                }
                return UiAction::Nothing;
            },
            None => {},
        }
        match hit(&self.param_rect, col, row) {
            Some(i) => {
                if i < PARAMS {
                    self.param_idx = i;
                    self.focus = Focus::Param;
                }
            },
            None => {},
        }
        match &self.custom_rect {
            Some(a) => {
                if a.contains(col, row) {
                    self.page = Page::Custom;
                }
            },
            None => {},
        }
        UiAction::Nothing
    }

    /// A movement of the mouse.
    pub fn handle_mouse(&mut self, m: Mouse) -> (r: UiAction)
        requires
            sound(old(self)@),
            m is ScrollUp && old(self)@.page is Running ==> old(self)@.log_scroll + SCROLL
                <= usize::MAX,
        ensures
            (final(self)@, r) == moused(old(self)@, m),
            sound(final(self)@),
    {
        match m {
            Mouse::ScrollUp => {
                if self.page == Page::Running {
                    self.log_scroll += SCROLL;
                }
                UiAction::Nothing
            },
            Mouse::ScrollDown => {
                if self.page == Page::Running {
                    if self.log_scroll > SCROLL {
                        self.log_scroll -= SCROLL;
                    } else {
                        self.log_scroll = 0;
                    }
                }
                UiAction::Nothing
            },
            Mouse::Click { col, row } => {
                if self.page == Page::Config {
                    self.handle_config_click(row, col)
                } else {
                    UiAction::Nothing
                }
            },
            Mouse::Other => UiAction::Nothing,
        }
    }

    /// Notes where the lists of the first page and the field for a script of
    /// one's own were drawn.
    pub fn place(&mut self, game: Area, task: Area, param: Area, custom: Area)
        ensures
            final(self)@ == (AppView {
                game_rect: Some(game),
                task_rect: Some(task),
                param_rect: Some(param),
                custom_rect: Some(custom),
                ..old(self)@
            }),
    {
        self.game_rect = Some(game);
        self.task_rect = Some(task);
        self.param_rect = Some(param);
        self.custom_rect = Some(custom);
    }

    /// Lays the first page out on a screen, and notes where its lists and the
    /// field for a script of one's own are drawn.
    pub fn arrange(&mut self, screen: Area) -> (r: ConfigAreas)
        ensures
            is_config_layout(screen, r),
            final(self)@ == (AppView {
                game_rect: Some(r.games),
                task_rect: Some(r.tasks),
                param_rect: Some(r.params),
                custom_rect: Some(r.custom),
                ..old(self)@
            }),
    {
        let r: ConfigAreas = config_areas(screen);
        self.place(r.games, r.tasks, r.params, r.custom);
        r
    }

    // -----------------------------------------------------------------------
    // Tasks that run
    // -----------------------------------------------------------------------

    /// A task was started, or a script of the user's own.
    pub fn started(&mut self, custom: bool)
        ensures
            final(self)@ == (AppView {
                page: Page::Running,
                working: true,
                custom: old(self)@.custom || custom,
                ..old(self)@
            }),
    {
        self.working = true;
        if custom {
            self.custom = true;
        }
        self.page = Page::Running;
    }

    /// Looks whether the task still runs. If not, the first page is shown again,
    /// with the error that the task ended with.
    pub fn check_worker(&mut self, running: bool, error: Option<String>) -> (ended: bool)
        ensures
            ended == (old(self)@.page is Running && old(self)@.working && !running),
            final(self)@ == (if ended {
                AppView {
                    page: Page::Config,
                    working: false,
                    custom: false,
                    notice: text_of(error),
                    ..old(self)@
                }
            } else {
                old(self)@
            }),
    {
        if self.page != Page::Running || !self.working || running {
            return false;
        }
        self.working = false;
        self.notice = error;
        self.custom = false;
        self.page = Page::Config;
        true
    }
}

// ---------------------------------------------------------------------------
// What is shown
// ---------------------------------------------------------------------------

/// The name of a parameter.
pub open spec fn param_name(i: int) -> Seq<char> {
    if i == 0 {
        "strategy"@
    } else if i == 1 {
        "combo"@
    } else if i == 2 {
        "timeout"@
    } else if i == 3 {
        "boost"@
    } else {
        "turn"@
    }
}

/// What is said of a parameter.
pub open spec fn param_help(i: int) -> Seq<char> {
    if i == 0 {
        "开局策略"@
    } else if i == 1 {
        "循环策略"@
    } else if i == 3 {
        "使用委托手册加成（1-4）/ 不使用 0"@
    } else {
        ""@
    }
}

/// The value of a parameter.
pub open spec fn param_value(a: AppView, i: int) -> Seq<char> {
    if i == 0 {
        a.strategy
    } else if i == 1 {
        a.combo
    } else if i == 2 {
        a.timeout
    } else if i == 3 {
        a.boost
    } else {
        a.turn
    }
}

/// A text with spaces behind it, up to the given length.
pub open spec fn filled(s: Seq<char>, n: int) -> Seq<char>
    decreases n - s.len(),
{
    if s.len() >= n {
        s
    } else {
        filled(s.push(' '), n)
    }
}

fn fill(s: &str, n: usize) -> (r: String)
    ensures
        r@ == filled(s@, n as int),
{
    let mut r: String = s.to_owned();
    let mut len: usize = s.unicode_len();
    while len < n
        invariant
            r@.len() == len,
            filled(r@, n as int) == filled(s@, n as int),
        decreases n - len,
    {
        r.push(' ');
        len += 1;
    }
    r
}

/// A line with a parameter: its name, filled up, its value, and whether it is
/// selected.
pub struct ParamLine {
    pub name: String,
    pub value: String,
    pub selected: bool,
}

/// What is said below the lists: what the selected parameter means, or what the
/// script of the selected task says of itself.
pub open spec fn info_of(a: AppView) -> Seq<char> {
    if a.focus is Param {
        param_help(a.param_idx)
    } else {
        match a.script_meta {
            Some(m) => if m.author.len() > 0 {
                m.desc + "   作者："@ + m.author
            } else {
                m.desc
            },
            None => seq![],
        }
    }
}

/// How a task is, and with which colour that is shown.
#[derive(Debug, Clone, Copy, PartialEq, Eq, Structural)]
pub enum Mood {
    Failed,
    Paused,
    Running,
}

/// How a task is.
pub open spec fn mood(failed: bool, paused: bool) -> Mood {
    if failed {
        Mood::Failed
    } else if paused {
        Mood::Paused
    } else {
        Mood::Running
    }
}

/// How a task is, in words.
pub open spec fn mood_text(error: Option<Seq<char>>, paused: bool) -> Seq<char> {
    match error {
        Some(e) => "错误: "@ + e,
        None => if paused {
            "暂停中"@
        } else {
            "运行中"@
        },
    }
}

/// A number of seconds as minutes and seconds.
pub open spec fn minutes(secs: nat) -> Seq<char> {
    two_digits(secs / 60) + seq![':'] + two_digits(secs % 60)
}

/// What runs: the user's own script, or a task of a game.
pub open spec fn subject_of(a: AppView) -> Seq<char> {
    if a.custom {
        "自定义脚本"@
    } else {
        a.games[a.selected_game].window() + " / "@ + (if a.tasks.len() > 0 {
            a.tasks[a.selected_task]
        } else {
            seq![]
        })
    }
}

/// The first line while a task runs.
pub open spec fn title_of(a: AppView, error: Option<Seq<char>>, paused: bool, secs: nat) -> Seq<char> {
    " "@ + subject_of(a) + "   状态:"@ + mood_text(error, paused) + "   时长 "@ + minutes(secs) + " "@
}

/// The first line of a log that is shown, when the area for it has the given
/// height, of which two lines are its border: as far up as the log was scrolled,
/// but not further than its beginning.
pub open spec fn first_shown(lines: int, height: int, scroll: int) -> int {
    let visible = if height > 2 {
        height - 2
    } else {
        0
    };
    let last = if lines > visible {
        lines - visible
    } else {
        0
    };
    if scroll < last {
        last - scroll
    } else {
        0
    }
}

/// The first line of a log that is shown.
pub fn log_start(lines: usize, height: u16, scroll: usize) -> (r: usize)
    ensures
        r == first_shown(lines as int, height as int, scroll as int),
        r <= lines,
{
    let visible: usize = if height > 2 {
        (height - 2) as usize
    } else {
        0
    };
    let last: usize = if lines > visible {
        lines - visible
    } else {
        0
    };
    if scroll < last {
        last - scroll
    } else {
        0
    }
}

fn minutes_text(secs: u64) -> (s: String)
    ensures
        s@ == minutes(secs as nat),
{
    let mut s: String = two_digit_text(secs / 60);
    s.push(':');
    s.append(two_digit_text(secs % 60).as_str());
    assert(s@ =~= minutes(secs as nat));
    s
}

fn status_of(error: Option<&str>, paused: bool) -> (r: (String, Mood))
    ensures
        r.0@ == mood_text(
            match error {
                Some(e) => Some(e@),
                None => None,
            },
            paused,
        ),
        r.1 == mood(error is Some, paused),
{
    match error {
        Some(e) => {
            let mut s: String = "错误: ".to_owned();
            s.append(e);
            (s, Mood::Failed)
        },
        None => {
            if paused {
                ("暂停中".to_owned(), Mood::Paused)
            } else {
                ("运行中".to_owned(), Mood::Running)
            }
        },
    }
}

fn name_of_param(i: usize) -> (s: &'static str)
    ensures
        s@ == param_name(i as int),
{
    if i == 0 {
        "strategy"
    } else if i == 1 {
        "combo"
    } else if i == 2 {
        "timeout"
    } else if i == 3 {
        "boost"
    } else {
        "turn"
    }
}

fn help_of_param(i: usize) -> (s: &'static str)
    ensures
        s@ == param_help(i as int),
{
    if i == 0 {
        "开局策略"
    } else if i == 1 {
        "循环策略"
    } else if i == 3 {
        "使用委托手册加成（1-4）/ 不使用 0"
    } else {
        ""
    }
}

impl App {
    fn value_of_param(&self, i: usize) -> (s: String)
        ensures
            s@ == param_value(self@, i as int),
    {
        if i == 0 {
            self.strategy.clone()
        } else if i == 1 {
            self.combo.clone()
        } else if i == 2 {
            self.timeout.clone()
        } else if i == 3 {
            self.boost.clone()
        } else {
            self.turn.clone()
        }
    }

    /// The lines with the parameters.
    pub fn param_lines(&self) -> (r: Vec<ParamLine>)
        ensures
            r@.len() == PARAMS,
            forall|i: int|
                0 <= i < PARAMS ==> {
                    &&& (#[trigger] r@[i]).name@ == filled(param_name(i), 10)
                    &&& r@[i].value@ == param_value(self@, i)
                    &&& r@[i].selected == (self@.focus is Param && self@.param_idx == i)
                },
    {
        let mut r: Vec<ParamLine> = Vec::new();
        let mut i: usize = 0;
        while i < PARAMS
            invariant
                i <= PARAMS,
                r@.len() == i,
                forall|k: int|
                    0 <= k < i ==> {
                        &&& (#[trigger] r@[k]).name@ == filled(param_name(k), 10)
                        &&& r@[k].value@ == param_value(self@, k)
                        &&& r@[k].selected == (self@.focus is Param && self@.param_idx == k)
                    },
            decreases PARAMS - i,
        {
            let line = ParamLine {
                name: fill(name_of_param(i), 10),
                value: self.value_of_param(i),
                selected: self.focus == Focus::Param && self.param_idx == i,
            };
            r.push(line);
            i += 1;
        }
        r
    }

    /// What is said below the lists.
    pub fn info(&self) -> (s: String)
        ensures
            s@ == info_of(self@),
    {
        if self.focus == Focus::Param {
            return help_of_param(self.param_idx).to_owned();
        }
        match &self.script_meta {
            Some(m) => {
                let mut s: String = m.desc.clone();
                if m.author.as_str().unicode_len() > 0 {
                    s.append("   作者：");
                    s.append(m.author.as_str());
                }
                s
            },
            None => {
                let s: String = String::new();
                assert(s@ =~= seq![]);
                s
            },
        }
    }

    fn subject(&self) -> (s: String)
        requires
            sound(self@),
        ensures
            s@ == subject_of(self@),
    {
        if self.custom {
            return "自定义脚本".to_owned();
        }
        let mut s: String = self.selected_game().title().to_owned();
        s.append(" / ");
        match self.selected_task() {
            Some(t) => s.append(t.as_str()),
            None => {},
        }
        assert(s@ =~= subject_of(self@));
        s
    }

    /// The first line while a task runs, and how the task is.
    pub fn title(&self, error: Option<&str>, paused: bool, secs: u64) -> (r: (String, Mood))
        requires
            sound(self@),
        ensures
            r.0@ == title_of(
                self@,
                match error {
                    Some(e) => Some(e@),
                    None => None,
                },
                paused,
                secs as nat,
            ),
            r.1 == mood(error is Some, paused),
    {
        let subject: String = self.subject();
        let (status, mood) = status_of(error, paused);
        let mut s: String = " ".to_owned();
        s.append(subject.as_str());
        s.append("   状态:");
        s.append(status.as_str());
        s.append("   时长 ");
        s.append(minutes_text(secs).as_str());
        s.append(" ");
        (s, mood)
    }
}

// ---------------------------------------------------------------------------
// Laws
// ---------------------------------------------------------------------------

/// Keys and clicks never select what is not there.
pub proof fn law_selection_stays_sound(a: AppView, key: Key, control: bool, m: Mouse)
    requires
        sound(a),
    ensures
        sound(key_pressed(a, key, control).0),
        sound(moused(a, m).0),
{
}

/// A click next to the screen that the first page was laid out on does nothing.
pub proof fn law_click_beside_the_screen(
    a: AppView,
    screen: Area,
    r: ConfigAreas,
    col: u16,
    row: u16,
)
    requires
        is_config_layout(screen, r),
        a.game_rect == Some(r.games),
        a.task_rect == Some(r.tasks),
        a.param_rect == Some(r.params),
        a.custom_rect == Some(r.custom),
        !covers(screen, col, row),
    ensures
        clicked(a, col, row) == (a, UiAction::Nothing),
{
}

/// To go to the next column three times is to stay.
pub proof fn law_three_columns(f: Focus)
    ensures
        onward(onward(onward(f))) == f,
        leftward(rightward(f)) == f || f is Param,
        rightward(leftward(f)) == f || f is Game,
{
}

/// What was typed into a parameter can be erased, unless it replaced the number
/// that was there at the beginning.
pub proof fn law_typed_is_erased(a: AppView, c: char)
    requires
        sound(a),
        a.param_idx < 2 || (is_digit(c) && param_value(a, a.param_idx) != (if a.param_idx == 2 {
            a.default_timeout
        } else if a.param_idx == 3 {
            a.default_boost
        } else {
            a.default_turn
        })),
    ensures
        erased(typed(a, c)) == a,
{
    assert(a.strategy.push(c).drop_last() =~= a.strategy);
    assert(a.combo.push(c).drop_last() =~= a.combo);
    assert(a.timeout.push(c).drop_last() =~= a.timeout);
    assert(a.boost.push(c).drop_last() =~= a.boost);
    assert(a.turn.push(c).drop_last() =~= a.turn);
}

/// The parameters that the interface opens with are those of the command line.
pub proof fn law_opened_chooses(args: ArgsView)
    ensures
        chosen(opened(args)).boost == args.boost,
        chosen(opened(args)).turn == args.turn,
        chosen(opened(args)).timeout == args.timeout,
        chosen(opened(args)).strategy == args.strategy,
        chosen(opened(args)).combo == args.combo,
{
    crate::text::law_number_is_read_back(args.boost as nat, u32::MAX as nat);
    crate::text::law_number_is_read_back(args.turn as nat, u32::MAX as nat);
    crate::text::law_number_is_read_back(args.timeout as nat, u64::MAX as nat);
}

/// The log is shown to its end unless it was scrolled, and never from behind its
/// end.
pub proof fn law_log_end_is_shown(lines: int, height: int)
    requires
        lines >= 0,
        height >= 2,
    ensures
        first_shown(lines, height, 0) + (height - 2) >= lines,
        0 <= first_shown(lines, height, 0) <= lines,
{
}

// ---------------------------------------------------------------------------
// Laws of the tasks
// ---------------------------------------------------------------------------

/// A file is the script of a task exactly when it is the name of the task, a point
/// and `rhai`.
pub proof fn law_scripts_of_tasks(file: Seq<char>, task: Seq<char>)
    ensures
        task_of(file) == Some(task) <==> task.len() > 0 && file == task + seq![
            '.',
            'r',
            'h',
            'a',
            'i',
        ],
{
    reveal_strlit("rhai");
    assert("rhai"@ =~= seq!['r', 'h', 'a', 'i']);
    crate::text::law_name_point_extension(file, task, "rhai"@);
    assert(task + seq!['.'] + "rhai"@ =~= task + seq!['.', 'r', 'h', 'a', 'i']);
}

/// A file behind others adds its task behind theirs, if it is a script and its task
/// is not listed yet, and else nothing.
pub proof fn law_tasks_in_the_order_of_files(files: Seq<Seq<char>>, file: Seq<char>)
    ensures
        tasks_in(Seq::empty()).len() == 0,
        task_of(file) is None ==> tasks_in(files.push(file)) == tasks_in(files),
        task_of(file) matches Some(t) ==> {
            &&& tasks_in(files).contains(t) ==> tasks_in(files.push(file)) == tasks_in(files)
            &&& !tasks_in(files).contains(t) ==> tasks_in(files.push(file)) == tasks_in(files)
                + seq![t]
        },
{
    assert(files.push(file).drop_last() =~= files);
    if let Some(t) = task_of(file) {
        assert(tasks_in(files).push(t) =~= tasks_in(files) + seq![t]);
    }
}

/// Every task that is listed has a script.
pub proof fn law_every_task_has_a_script(files: Seq<Seq<char>>, i: int)
    requires
        0 <= i < tasks_in(files).len(),
    ensures
        exists|k: int|
            0 <= k < files.len() && task_of(#[trigger] files[k]) == Some(tasks_in(files)[i]),
    decreases files.len(),
{
    if files.len() > 0 {
        let before = tasks_in(files.drop_last());
        if i < before.len() {
            law_every_task_has_a_script(files.drop_last(), i);
            let k = choose|k: int|
                0 <= k < files.drop_last().len() && task_of(#[trigger] files.drop_last()[k])
                    == Some(before[i]);
            assert(files[k] == files.drop_last()[k]);
        } else {
            assert(task_of(files[files.len() - 1]) == Some(tasks_in(files)[i]));
        }
    }
}

// ---------------------------------------------------------------------------
// Laws of the keys
// ---------------------------------------------------------------------------

/// `c` with the control key ends the program from every page and does nothing else;
/// other keys go to the page that is shown.
pub proof fn law_keys_go_to_the_page(a: AppView, key: Key, control: bool)
    ensures
        ({
            let (b, r) = key_pressed(a, key, control);
            let ends = control && key == Key::Char('c');
            &&& ends ==> b.quit && r is Nothing && b == (AppView { quit: b.quit, ..a })
            &&& !ends && a.page is Config ==> (b, r) == config_key(a, key)
            &&& !ends && a.page is Custom ==> (b, r) == custom_key(a, key)
            &&& !ends && a.page is Running ==> b == a && r == running_key(a, key)
        }),
{
}

/// The arrows up and down move the selection of the column that keys go to by one,
/// and stop at its ends. The scripts of another game are looked for, and the script
/// of another task is read.
pub proof fn law_arrows_move_the_selection(a: AppView)
    requires
        sound(a),
    ensures
        ({
            let (u, x) = config_key(a, Key::Up);
            let (d, y) = config_key(a, Key::Down);
            &&& a.focus is Game ==> {
                &&& u == (AppView { selected_game: u.selected_game, ..a })
                &&& d == (AppView { selected_game: d.selected_game, ..a })
                &&& a.selected_game == 0 ==> u.selected_game == 0 && x is Nothing
                &&& a.selected_game > 0 ==> u.selected_game == a.selected_game - 1 && x is Scan
                &&& a.selected_game == a.games.len() - 1 ==> d == a && y is Nothing
                &&& a.selected_game < a.games.len() - 1 ==> d.selected_game == a.selected_game + 1
                    && y is Scan
            }
            &&& a.focus is Task ==> {
                &&& u == (AppView { selected_task: u.selected_task, ..a })
                &&& d == (AppView { selected_task: d.selected_task, ..a })
                &&& a.tasks.len() == 0 ==> u == a && x is Nothing && d == a && y is Nothing
                &&& a.tasks.len() > 0 ==> x is LoadMeta
                &&& a.selected_task > 0 ==> u.selected_task == a.selected_task - 1
                &&& a.selected_task == 0 ==> u.selected_task == 0
                &&& a.selected_task + 1 < a.tasks.len() ==> d.selected_task == a.selected_task + 1
                    && y is LoadMeta
                &&& a.selected_task + 1 >= a.tasks.len() ==> d == a && y is Nothing
            }
            &&& a.focus is Param ==> {
                &&& x is Nothing && y is Nothing
                &&& u == (AppView { param_idx: u.param_idx, ..a })
                &&& d == (AppView { param_idx: d.param_idx, ..a })
                &&& a.param_idx > 0 ==> u.param_idx == a.param_idx - 1
                &&& a.param_idx == 0 ==> u.param_idx == 0
                &&& a.param_idx < 4 ==> d.param_idx == a.param_idx + 1
                &&& a.param_idx == 4 ==> d.param_idx == 4
            }
        }),
{
}

/// The arrows to the sides go from column to column, of which there are three in a
/// row, and stop at the ends; the tabulator goes on from the last to the first.
pub proof fn law_arrows_change_the_column(a: AppView)
    ensures
        ({
            let number = |f: Focus|
                match f {
                    Focus::Game => 0int,
                    Focus::Task => 1,
                    Focus::Param => 2,
                };
            let (l, x) = config_key(a, Key::Left);
            let (r, y) = config_key(a, Key::Right);
            let (t, z) = config_key(a, Key::Tab);
            let n = number(a.focus);
            &&& x is Nothing && y is Nothing && z is Nothing
            &&& l == (AppView { focus: l.focus, ..a })
            &&& r == (AppView { focus: r.focus, ..a })
            &&& t == (AppView { focus: t.focus, ..a })
            &&& number(l.focus) == (if n > 0 {
                n - 1
            } else {
                0
            })
            &&& number(r.focus) == (if n < 2 {
                n + 1
            } else {
                2
            })
            &&& number(t.focus) == (n + 1) % 3
        }),
{
}

/// The escape key ends the program from the first page, the return key starts the
/// selected task if there is one and takes the notice away, and keys without a
/// meaning do nothing.
pub proof fn law_escape_and_return(a: AppView)
    ensures
        ({
            let (e, x) = config_key(a, Key::Esc);
            let (f, y) = config_key(a, Key::Char('\u{1b}'));
            let (r, z) = config_key(a, Key::Enter);
            &&& e == (AppView { quit: true, ..a }) && x is Nothing
            &&& f == (AppView { quit: true, ..a }) && y is Nothing
            &&& r == (AppView { notice: None, ..a })
            &&& z is Start <==> a.tasks.len() > 0
            &&& z is Nothing <==> a.tasks.len() == 0
        }),
        forall|n: u8| #[trigger] config_key(a, Key::F(n)) == (a, UiAction::Nothing),
        config_key(a, Key::Other) == (a, UiAction::Nothing),
{
}

/// Backspace takes the last character of the selected parameter away, in whichever
/// column keys go to; no other parameter changes.
pub proof fn law_backspace_shortens_the_parameter(a: AppView)
    requires
        sound(a),
    ensures
        ({
            let (b, r) = config_key(a, Key::Backspace);
            let cut = |s: Seq<char>, i: int|
                if a.param_idx == i && s.len() > 0 {
                    s.take(s.len() - 1)
                } else {
                    s
                };
            &&& r is Nothing
            &&& b == (AppView {
                strategy: cut(a.strategy, 0),
                combo: cut(a.combo, 1),
                timeout: cut(a.timeout, 2),
                boost: cut(a.boost, 3),
                turn: cut(a.turn, 4),
                ..a
            })
        }),
{
}

/// A character is put behind the selected parameter if keys go to the parameters;
/// a number takes digits only, and the first one replaces the number that was there
/// at the beginning. No other parameter changes.
pub proof fn law_characters_are_typed(a: AppView, c: char)
    requires
        sound(a),
        c != '\u{1b}',
    ensures
        ({
            let (b, r) = config_key(a, Key::Char(c));
            let put = |s: Seq<char>, first: Seq<char>, i: int|
                if !(a.focus is Param) || a.param_idx != i || !('0' <= c <= '9') {
                    s
                } else if s == first {
                    seq![c]
                } else {
                    s.push(c)
                };
            &&& r is Nothing
            &&& !(a.focus is Param) ==> b == a
            &&& b == (AppView {
                strategy: if a.focus is Param && a.param_idx == 0 {
                    a.strategy.push(c)
                } else {
                    a.strategy
                },
                combo: if a.focus is Param && a.param_idx == 1 {
                    a.combo.push(c)
                } else {
                    a.combo
                },
                timeout: put(a.timeout, a.default_timeout, 2),
                boost: put(a.boost, a.default_boost, 3),
                turn: put(a.turn, a.default_turn, 4),
                ..a
            })
        }),
{
}

/// On the page with the user's own script, characters and line feeds are put behind
/// the script, backspace takes the last one away, `F6` takes all, `F5` starts a
/// script that is not empty, and escape goes back to the first page.
pub proof fn law_script_is_written(a: AppView, c: char, n: u8)
    ensures
        c != '\u{1b}' ==> custom_key(a, Key::Char(c)) == (
            AppView { custom_script: a.custom_script.push(c), ..a },
            UiAction::Nothing,
        ),
        custom_key(a, Key::Enter) == (
            AppView { custom_script: a.custom_script.push('\n'), ..a },
            UiAction::Nothing,
        ),
        a.custom_script.len() > 0 ==> custom_key(a, Key::Backspace) == (
            AppView { custom_script: a.custom_script.take(a.custom_script.len() - 1), ..a },
            UiAction::Nothing,
        ),
        a.custom_script.len() == 0 ==> custom_key(a, Key::Backspace) == (a, UiAction::Nothing),
        custom_key(a, Key::F(6)) == (
            AppView { custom_script: Seq::empty(), ..a },
            UiAction::Nothing,
        ),
        custom_key(a, Key::F(5)).0 == a,
        custom_key(a, Key::F(5)).1 is StartCustom <==> a.custom_script.len() > 0,
        custom_key(a, Key::F(5)).1 is Nothing <==> a.custom_script.len() == 0,
        n != 5 && n != 6 ==> custom_key(a, Key::F(n)) == (a, UiAction::Nothing),
        custom_key(a, Key::Esc) == (AppView { page: Page::Config, ..a }, UiAction::Nothing),
        custom_key(a, Key::Char('\u{1b}')) == (
            AppView { page: Page::Config, ..a },
            UiAction::Nothing,
        ),
        custom_key(a, Key::Up) == (a, UiAction::Nothing),
        custom_key(a, Key::Down) == (a, UiAction::Nothing),
        custom_key(a, Key::Left) == (a, UiAction::Nothing),
        custom_key(a, Key::Right) == (a, UiAction::Nothing),
        custom_key(a, Key::Tab) == (a, UiAction::Nothing),
{
}

/// While a task runs, escape tells it to leave, `p` pauses it and `r` starts it
/// over; other keys do nothing, and without a task none does.
pub proof fn law_keys_for_a_running_task(a: AppView, key: Key)
    ensures
        running_key(a, key) is Exit <==> a.working && (key is Esc || key == Key::Char('\u{1b}')),
        running_key(a, key) is TogglePause <==> a.working && key == Key::Char('p'),
        running_key(a, key) is Reset <==> a.working && key == Key::Char('r'),
        running_key(a, key) is Exit || running_key(a, key) is TogglePause || running_key(
            a,
            key,
        ) is Reset || running_key(a, key) is Nothing,
{
}

// ---------------------------------------------------------------------------
// Laws of the mouse
// ---------------------------------------------------------------------------

/// The wheel moves the log of a running task by three lines, not past its end;
/// clicks count on the first page only.
pub proof fn law_wheel_and_clicks(a: AppView, col: u16, row: u16)
    ensures
        ({
            let (u, x) = moused(a, Mouse::ScrollUp);
            let (d, y) = moused(a, Mouse::ScrollDown);
            &&& x is Nothing && y is Nothing
            &&& u == (AppView { log_scroll: u.log_scroll, ..a })
            &&& d == (AppView { log_scroll: d.log_scroll, ..a })
            &&& !(a.page is Running) ==> u == a && d == a
            &&& a.page is Running ==> u.log_scroll == a.log_scroll + 3
            &&& a.page is Running && a.log_scroll >= 3 ==> d.log_scroll == a.log_scroll - 3
            &&& a.page is Running && a.log_scroll < 3 ==> d.log_scroll == 0
            &&& a.page is Config ==> moused(a, Mouse::Click { col, row }) == clicked(a, col, row)
            &&& !(a.page is Config) ==> moused(a, Mouse::Click { col, row }) == (
                a,
                UiAction::Nothing,
            )
            &&& moused(a, Mouse::Other) == (a, UiAction::Nothing)
        }),
{
}

/// A click goes to the line of a list that it is on: the first line of an area is
/// its border, so the line below it is the first of the list.
pub proof fn law_click_on_a_line(r: Area, col: u16, row: u16)
    ensures
        row_hit(None, col, row) is None,
        row_hit(Some(r), col, row) is Some <==> {
            &&& r.x <= col && col - r.x < r.width && col < 0xFFFF
            &&& r.y < row && row - r.y < r.height && row < 0xFFFF
        },
        row_hit(Some(r), col, row) matches Some(i) ==> row == r.y + 1 + i,
{
}

/// A click on a game selects it and has its scripts looked for; one on a task
/// selects it and has its script read; one on a parameter selects it. The column of
/// what was clicked gets the keys. Below the end of a list nothing is selected.
pub proof fn law_click_selects(a: AppView, col: u16, row: u16)
    requires
        sound(a),
    ensures
        ({
            let (b, r) = clicked(a, col, row);
            let game = row_hit(a.game_rect, col, row);
            let task = row_hit(a.task_rect, col, row);
            let param = row_hit(a.param_rect, col, row);
            let field = a.custom_rect is Some && covers(a.custom_rect->0, col, row);
            &&& game matches Some(i) ==> {
                &&& i < a.games.len() ==> b == (AppView {
                    selected_game: i,
                    focus: Focus::Game,
                    ..a
                }) && r is Scan
                &&& i >= a.games.len() ==> b == a && r is Nothing
            }
            &&& game is None ==> (task matches Some(i) ==> {
                &&& i < a.tasks.len() ==> b == (AppView {
                    selected_task: i,
                    focus: Focus::Task,
                    ..a
                }) && r is LoadMeta
                &&& i >= a.tasks.len() ==> b == a && r is Nothing
            })
            &&& game is None && task is None ==> {
                &&& r is Nothing
                &&& b.page == (if field {
                    Page::Custom
                } else {
                    a.page
                })
                &&& (param matches Some(i) && i < 5) ==> b.param_idx == param->0 && b.focus
                    is Param
                &&& !(param matches Some(i) && i < 5) ==> b.param_idx == a.param_idx && b.focus
                    == a.focus
                &&& b == (AppView {
                    page: b.page,
                    param_idx: b.param_idx,
                    focus: b.focus,
                    ..a
                })
            }
        }),
{
}

// ---------------------------------------------------------------------------
// Laws of what is started and shown
// ---------------------------------------------------------------------------

/// A task is started with what is selected and typed: a number that is none counts
/// as zero, and for the turns as 99.
pub proof fn law_task_is_started_with_what_is_chosen(a: AppView)
    requires
        sound(a),
    ensures
        ({
            let c = chosen(a);
            &&& c.game == Some(a.games[a.selected_game])
            &&& c.task is Some <==> a.tasks.len() > 0
            &&& c.task matches Some(t) ==> t == a.tasks[a.selected_task]
            &&& c.plan.len() == 0
            &&& c.exe is None
            &&& c.strategy == a.strategy
            &&& c.combo == a.combo
            &&& number(a.boost, 0xFFFF_FFFF) matches Some(n) ==> c.boost == n
            &&& number(a.boost, 0xFFFF_FFFF) is None ==> c.boost == 0
            &&& number(a.turn, 0xFFFF_FFFF) matches Some(n) ==> c.turn == n
            &&& number(a.turn, 0xFFFF_FFFF) is None ==> c.turn == 99
            &&& number(a.timeout, 0xFFFF_FFFF_FFFF_FFFF) matches Some(n) ==> c.timeout == n
            &&& number(a.timeout, 0xFFFF_FFFF_FFFF_FFFF) is None ==> c.timeout == 0
        }),
{
}

/// The interface opens on its first page with the first game selected, no task, and
/// the parameters of the command line, which are also those that typing replaces.
pub proof fn law_interface_opens(args: ArgsView)
    ensures
        ({
            let a = opened(args);
            &&& a.page is Config
            &&& a.games.len() == 2
            &&& a.games[0] is Dna
            &&& a.games[1] is Nte
            &&& a.selected_game == 0 && a.selected_task == 0 && a.param_idx == 0
            &&& a.focus is Game
            &&& a.tasks.len() == 0
            &&& a.boost == a.default_boost && a.turn == a.default_turn
            &&& a.timeout == a.default_timeout
            &&& a.boost == decimal(args.boost as nat)
            &&& a.turn == decimal(args.turn as nat)
            &&& a.timeout == decimal(args.timeout as nat)
            &&& a.strategy == args.strategy && a.combo == args.combo
            &&& a.game_rect is None && a.task_rect is None
            &&& a.param_rect is None && a.custom_rect is None
            &&& a.log_scroll == 0
            &&& a.notice is None && a.script_meta is None
            &&& a.custom_script.len() == 0
            &&& !a.custom && !a.working && !a.quit
            &&& sound(a)
        }),
{
}

/// What is selected is there: a game always, a task if there is one, and one of the
/// five parameters.
pub proof fn law_what_is_sound(a: AppView)
    ensures
        sound(a) <==> {
            &&& 0 <= a.selected_game < a.games.len()
            &&& 0 <= a.param_idx <= 4
            &&& a.tasks.len() == 0 ==> a.selected_task == 0
            &&& a.tasks.len() > 0 ==> 0 <= a.selected_task < a.tasks.len()
        },
{
}

/// Below the lists stands the help of the selected parameter if keys go to the
/// parameters; else what the script says of itself, with its author if it names
/// one; and nothing without a script.
pub proof fn law_line_below_the_lists(a: AppView)
    ensures
        a.focus is Param ==> info_of(a) == param_help(a.param_idx),
        !(a.focus is Param) && a.script_meta is None ==> info_of(a).len() == 0,
        !(a.focus is Param) ==> (a.script_meta matches Some(m) ==> {
            &&& m.author.len() == 0 ==> info_of(a) == m.desc
            &&& m.author.len() > 0 ==> info_of(a) == m.desc + "   作者："@ + m.author
        }),
        param_help(0) == "开局策略"@,
        param_help(1) == "循环策略"@,
        param_help(2) == ""@,
        param_help(3) == "使用委托手册加成（1-4）/ 不使用 0"@,
        param_help(4) == ""@,
{
}

/// The parameters are shown in their order, each with its own value.
pub proof fn law_parameters_in_order(a: AppView)
    ensures
        param_name(0) == "strategy"@ && param_value(a, 0) == a.strategy,
        param_name(1) == "combo"@ && param_value(a, 1) == a.combo,
        param_name(2) == "timeout"@ && param_value(a, 2) == a.timeout,
        param_name(3) == "boost"@ && param_value(a, 3) == a.boost,
        param_name(4) == "turn"@ && param_value(a, 4) == a.turn,
{
}

/// A text that is filled up is the text with spaces behind it, up to the length and
/// no further.
pub proof fn law_filled_with_spaces(s: Seq<char>, n: int, i: int)
    ensures
        filled(s, n).len() == (if s.len() < n {
            n
        } else {
            s.len() as int
        }),
        0 <= i < s.len() ==> filled(s, n)[i] == s[i],
        s.len() <= i < n ==> filled(s, n)[i] == ' ',
    decreases n - s.len(),
{
    if s.len() < n {
        law_filled_with_spaces(s.push(' '), n, i);
    }
}

/// A task is shown as failed if there is an error, else as paused or running; the
/// words go with it.
pub proof fn law_how_a_task_is(error: Option<Seq<char>>, paused: bool)
    ensures
        mood(error is Some, paused) is Failed <==> error is Some,
        mood(error is Some, paused) is Paused <==> error is None && paused,
        mood(error is Some, paused) is Running <==> error is None && !paused,
        error matches Some(e) ==> mood_text(error, paused) == "错误: "@ + e,
        error is None && paused ==> mood_text(error, paused) == "暂停中"@,
        error is None && !paused ==> mood_text(error, paused) == "运行中"@,
{
}

/// The line of a running task says what runs, how it is, and for how long, in
/// minutes and seconds.
pub proof fn law_line_of_a_running_task(
    a: AppView,
    error: Option<Seq<char>>,
    paused: bool,
    m: nat,
    s: nat,
)
    requires
        sound(a),
        s < 60,
    ensures
        minutes(60 * m + s) == two_digits(m) + seq![':'] + two_digits(s),
        title_of(a, error, paused, 60 * m + s) == " "@ + subject_of(a) + "   状态:"@ + mood_text(
            error,
            paused,
        ) + "   时长 "@ + minutes(60 * m + s) + " "@,
        a.custom ==> subject_of(a) == "自定义脚本"@,
        !a.custom && a.tasks.len() > 0 ==> subject_of(a) == a.games[a.selected_game].window()
            + " / "@ + a.tasks[a.selected_task],
        !a.custom && a.tasks.len() == 0 ==> subject_of(a) == a.games[a.selected_game].window()
            + " / "@ + Seq::empty(),
{
    assert((60 * m + s) / 60 == m);
    assert((60 * m + s) % 60 == s);
}

/// Of a log the last lines are shown that fit between the borders, and as many
/// lines before them as it was scrolled, but not from before its beginning.
pub proof fn law_log_is_shown(lines: int, height: int, scroll: int)
    requires
        0 <= lines,
        0 <= height,
        0 <= scroll,
    ensures
        ({
            let first = first_shown(lines, height, scroll);
            let fits = if height >= 2 {
                height - 2
            } else {
                0
            };
            &&& 0 <= first <= lines
            &&& lines <= fits ==> first == 0
            &&& lines > fits && scroll <= lines - fits ==> first + fits + scroll == lines
            &&& scroll >= lines - fits ==> first == 0
        }),
{
}

/// What the interface is seen as is what it holds.
pub proof fn law_interface_is_seen_as_it_is(a: App)
    ensures
        a@.page == a.page && a@.focus == a.focus,
        a@.games == a.games@ && a@.tasks == texts(a.tasks@),
        a@.selected_game == a.selected_game && a@.selected_task == a.selected_task,
        a@.param_idx == a.param_idx && a@.log_scroll == a.log_scroll,
        a@.boost == a.boost@ && a@.default_boost == a.default_boost@,
        a@.turn == a.turn@ && a@.default_turn == a.default_turn@,
        a@.timeout == a.timeout@ && a@.default_timeout == a.default_timeout@,
        a@.combo == a.combo@ && a@.strategy == a.strategy@,
        a@.game_rect == a.game_rect && a@.task_rect == a.task_rect,
        a@.param_rect == a.param_rect && a@.custom_rect == a.custom_rect,
        a@.notice is Some <==> a.notice is Some,
        a.notice matches Some(s) ==> a@.notice == Some(s@),
        a@.script_meta is Some <==> a.script_meta is Some,
        a.script_meta matches Some(m) ==> a@.script_meta == Some(m@),
        a@.custom == a.custom && a@.custom_script == a.custom_script@,
        a@.working == a.working && a@.quit == a.quit,
{
}

} // verus!
