//! Starting a game: its configuration, its window, and clicks into it. Times are
//! in microseconds unless a name says otherwise.

use vstd::prelude::*;
use crate::ap;
use crate::game::GameType;
use crate::json::{
    get_member_text, json_document, json_nodes, member_text, parse_json, pretty_pair, write_pair,
    Nodes,
};
use crate::script_engine::remainder;
use crate::text::{decimal, decimal_text, text_of};

verus! {

/// How a game is started: the path of its program, and the script that logs the
/// player in, either of which may be empty.
#[derive(Debug)]
pub struct LaunchConfig {
    pub program: String,
    pub login: String,
}

/// How a game is started, as mathematical values.
pub struct ConfigView {
    pub program: Seq<char>,
    pub login: Seq<char>,
}

impl View for LaunchConfig {
    type V = ConfigView;

    open spec fn view(&self) -> ConfigView {
        ConfigView { program: self.program@, login: self.login@ }
    }
}

/// A text, or the empty one.
pub open spec fn or_empty(s: Option<Seq<char>>) -> Seq<char> {
    match s {
        Some(s) => s,
        None => seq![],
    }
}

/// The configuration in a JSON document. What is missing or no text is empty.
pub open spec fn config_in(m: Nodes) -> ConfigView {
    ConfigView {
        program: or_empty(member_text(m, "exec"@)),
        login: or_empty(member_text(m, "login"@)),
    }
}

/// The path of the file with the configuration of a game.
pub open spec fn config_path_text(game: Seq<char>) -> Seq<char> {
    "user-"@ + game + "-scripts/config.json"@
}

/// The path of the file with the configuration of a game.
pub fn config_path(game: &str) -> (s: String)
    ensures
        s@ == config_path_text(game@),
{
    let mut s: String = "user-".to_owned();
    s.append(game);
    s.append("-scripts/config.json");
    s
}

impl LaunchConfig {
    /// The configuration in a JSON value.
    pub fn from_json(v: &serde_json::Value) -> (c: Self)
        ensures
            c@ == config_in(json_nodes(*v)),
    {
        let program: String = match get_member_text(v, "exec") {
            Some(s) => s,
            None => String::new(),
        };
        let login: String = match get_member_text(v, "login") {
            Some(s) => s,
            None => String::new(),
        };
        LaunchConfig { program, login }
    }
}

/// Reads a configuration from the text of its file, if that is JSON.
pub fn load_launch_config(text: &str) -> (r: Option<LaunchConfig>)
    ensures
        match json_document(text@) {
            Some(m) => r matches Some(c) && c@ == config_in(m),
            None => r is None,
        },
{
    match parse_json(text) {
        Ok(v) => Some(LaunchConfig::from_json(&v)),
        Err(_) => None,
    }
}

/// Writes a configuration as the text of its file. What is written is read back
/// as it was.
pub fn save_launch_config(program: &str, login: &str) -> (s: String)
    ensures
        s@ == pretty_pair("exec"@, program@, "login"@, login@),
        json_document(s@) matches Some(m) && config_in(m) == (ConfigView {
            program: program@,
            login: login@,
        }),
{
    proof {
        reveal_strlit("exec");
        reveal_strlit("login");
        assert("exec"@[0] == 'e');
        assert("login"@[0] == 'l');
    }
    write_pair("exec", program, "login", login)
}

/// What is done to start a game: the configuration that holds, whether it is
/// written to its file, and whether the game can be started.
pub struct LaunchPlan {
    pub config: LaunchConfig,
    pub save: bool,
    pub ready: bool,
}

/// Decides how a game is started: a path that the user gives replaces that of
/// the configuration, and is kept.
pub fn plan_launch(config: LaunchConfig, exe: &Option<String>) -> (p: LaunchPlan)
    ensures
        p.config@ == (ConfigView {
            program: match text_of(*exe) {
                Some(e) => e,
                None => config@.program,
            },
            login: config@.login,
        }),
        p.save == (*exe is Some),
        p.ready == (p.config@.program.len() > 0),
{
    let program: String = match exe {
        Some(e) => e.clone(),
        None => config.program,
    };
    let ready: bool = !is_empty(program.as_str());
    LaunchPlan {
        config: LaunchConfig { program, login: config.login },
        save: exe.is_some(),
        ready,
    }
}

/// Whether a text is empty.
fn is_empty(s: &str) -> (yes: bool)
    ensures
        yes == (s@.len() == 0),
{
    s.unicode_len() == 0
}

/// The script that logs the player in, if there is one.
pub fn login_script(config: &LaunchConfig) -> (r: Option<String>)
    ensures
        text_of(r) == (if config@.login.len() > 0 {
            Some(config@.login)
        } else {
            None
        }),
{
    if is_empty(config.login.as_str()) {
        None
    } else {
        Some(config.login.clone())
    }
}

/// The argument with which the program of a game is started, if it needs one.
pub fn launch_argument(game: GameType) -> (r: Option<&'static str>)
    ensures
        match r {
            Some(s) => game is Ap && s@ == ap::LAUNCH_ARGUMENT@,
            None => !(game is Ap),
        },
{
    match game {
        GameType::Ap => Some(ap::LAUNCH_ARGUMENT),
        _ => None,
    }
}

/// What the user reads when no path is known.
pub open spec fn usage_text(game: GameType) -> Seq<char> {
    match game {
        GameType::Ap => "未配置游戏路径！使用方法：obs64 ap launch <安装目录\\AzurPromilia.exe>"@,
        _ => "未配置游戏路径。用法：obs64 "@ + game.short() + " launch <游戏exe路径>"@,
    }
}

/// What the user reads when no path is known.
pub fn usage(game: GameType) -> (s: String)
    ensures
        s@ == usage_text(game),
{
    match game {
        GameType::Ap => "未配置游戏路径！使用方法：obs64 ap launch <安装目录\\AzurPromilia.exe>".to_owned(),
        _ => {
            let mut s: String = "未配置游戏路径。用法：obs64 ".to_owned();
            s.append(game.name());
            s.append(" launch <游戏exe路径>");
            s
        },
    }
}

/// What the user reads when a path was kept.
pub fn saved_message(game: GameType, program: &str) -> (s: String)
    ensures
        s@ == "已更新启动配置："@ + program@ + (if game is Ap {
            "，之后可使用 obs64 ap launch 启动游戏"@
        } else {
            seq![]
        }),
{
    let mut s: String = "已更新启动配置：".to_owned();
    s.append(program);
    if game == GameType::Ap {
        s.append("，之后可使用 obs64 ap launch 启动游戏");
    } else {
        assert(s@ =~= s@ + seq![]);
    }
    s
}

/// What is waited for the window of a game that was started, in seconds.
pub const WINDOW_TIMEOUT: u64 = 30;

/// What follows from a look for a window.
#[derive(Debug, Clone, Copy, PartialEq, Eq, Structural)]
pub enum WindowWait {
    Found,
    Rest(u64),
    TimedOut,
}

/// What follows from a look for a window, `elapsed` nanoseconds behind the
/// start of a wait of `timeout` seconds. As long as the program that was started
/// has ended, because another one opens the window, the time does not count.
pub fn wait_window(found: bool, exited: bool, elapsed: u128, timeout: u64) -> (r: WindowWait)
    ensures
        r == (if found {
            WindowWait::Found
        } else if exited {
            WindowWait::Rest(1_000_000)
        } else if elapsed >= timeout * 1_000_000_000 {
            WindowWait::TimedOut
        } else {
            WindowWait::Rest(500_000)
        }),
{
    if found {
        return WindowWait::Found;
    }
    if exited {
        return WindowWait::Rest(1_000_000);
    }
    if elapsed >= (timeout as u128) * 1_000_000_000 {
        return WindowWait::TimedOut;
    }
    WindowWait::Rest(500_000)
}

/// What the user reads when the window of a game does not come.
pub fn window_message(timeout: u64, title: &str) -> (s: String)
    ensures
        s@ == "等待窗口超时（"@ + decimal(timeout as nat) + "s）："@ + title@,
{
    let mut s: String = "等待窗口超时（".to_owned();
    s.append(decimal_text(timeout).as_str());
    s.append("s）：");
    s.append(title);
    s
}

/// The low 16 bits of a coordinate.
pub open spec fn low_word(x: i64) -> int {
    x as int % 0x1_0000
}

/// The place of a click as the message of the window has it: the low word is the
/// column, the word above it the row.
pub fn click_place(x: i64, y: i64) -> (r: i64)
    ensures
        r == low_word(y) * 0x1_0000 + low_word(x),
{
    let a: i64 = remainder(x, 0x1_0000);
    let b: i64 = remainder(y, 0x1_0000);
    b * 0x1_0000 + a
}

/// Inside a window the place of a click gives the column and the row back.
pub proof fn law_click_place(x: i64, y: i64)
    requires
        0 <= x < 0x1_0000,
        0 <= y < 0x1_0000,
    ensures
        (low_word(y) * 0x1_0000 + low_word(x)) % 0x1_0000 == x,
        (low_word(y) * 0x1_0000 + low_word(x)) / 0x1_0000 == y,
{
}

/// A configuration has the texts that stand under its two keys; what is missing or
/// no text is empty.
pub proof fn law_configuration_by_keys(m: Nodes)
    ensures
        member_text(m, "exec"@) matches Some(s) ==> config_in(m).program == s,
        member_text(m, "exec"@) is None ==> config_in(m).program.len() == 0,
        member_text(m, "login"@) matches Some(s) ==> config_in(m).login == s,
        member_text(m, "login"@) is None ==> config_in(m).login.len() == 0,
{
}

/// The configuration of a game lies beside the scripts of the user.
pub proof fn law_where_the_configuration_lies(game: Seq<char>)
    ensures
        config_path_text(game) == "user-"@ + game + "-scripts/config.json"@,
{
}

/// What the user reads when no path is known names the game.
pub proof fn law_how_a_game_is_started(game: GameType)
    ensures
        game is Ap ==> usage_text(game)
            == "未配置游戏路径！使用方法：obs64 ap launch <安装目录\\AzurPromilia.exe>"@,
        !(game is Ap) ==> usage_text(game) == "未配置游戏路径。用法：obs64 "@ + game.short()
            + " launch <游戏exe路径>"@,
{
}

/// Of a coordinate only its low word counts: coordinates that differ by a multiple
/// of its size are the same.
pub proof fn law_low_words(x: i64, y: i64)
    ensures
        0 <= low_word(x) <= 0xFFFF,
        (x - low_word(x)) % 0x1_0000 == 0,
        (x - y) % 0x1_0000 == 0 ==> low_word(x) == low_word(y),
{
}

/// What a configuration is seen as is what it holds.
pub proof fn law_configuration_is_seen_as_it_is(c: LaunchConfig)
    ensures
        c@.program == c.program@,
        c@.login == c.login@,
{
}

/// The window of a game is waited for half a minute; one game is started with an
/// argument.
pub proof fn law_windows_are_waited_for()
    ensures
        2 * WINDOW_TIMEOUT == 60,
        ap::LAUNCH_ARGUMENT@ == "-start=azurpromilia_launcher"@,
{
}

} // verus!
