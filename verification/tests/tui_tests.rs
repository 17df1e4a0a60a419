use elysium::game::{Args, GameType};
use elysium::layout::Area;
use elysium::tui::{
    log_start, scan_tasks, App, Focus, Key, Mood, Mouse, Page, UiAction,
};

fn start_args() -> Args {
    Args {
        game: None,
        task: None,
        exe: None,
        plan: vec![],
        boost: 0,
        strategy: "st".to_string(),
        combo: "".to_string(),
        turn: 99,
        timeout: 0,
    }
}

fn app(tasks: &[&str]) -> App {
    let mut a = App::new(&start_args());
    a.refresh_tasks(tasks.iter().map(|s| s.to_string()).collect());
    a
}

#[test]
fn tasks_are_scripts_once_each() {
    let files: Vec<String> = ["b.rhai", "a.rhai", "x.txt", ".rhai", "b.rhai", "c.d.rhai", "rhai", "光.rhai", "q.RHAI"]
        .iter()
        .map(|s| s.to_string())
        .collect();
    assert_eq!(scan_tasks(&files), vec!["b", "a", "c.d", "光"]);
    for f in &files {
        let p = std::path::Path::new(f);
        let is = p.extension().map(|x| x == "rhai").unwrap_or(false);
        let listed = scan_tasks(&vec![f.clone()]);
        assert_eq!(listed.len() == 1, is, "{}", f);
        if is {
            assert_eq!(listed[0], p.file_stem().unwrap().to_string_lossy());
        }
    }
}

#[test]
fn interface_opens_with_the_arguments() {
    let a = App::new(&start_args());
    assert_eq!(a.games, vec![GameType::Dna, GameType::Nte]);
    assert_eq!((a.page, a.focus), (Page::Config, Focus::Game));
    assert_eq!((a.boost.as_str(), a.turn.as_str(), a.timeout.as_str()), ("0", "99", "0"));
    assert_eq!(a.strategy, "st");
    assert!(!a.quit && !a.custom && !a.working);
    let args = a.build_args();
    assert_eq!((args.boost, args.turn, args.timeout), (0, 99, 0));
    assert_eq!(args.game, Some(GameType::Dna));
    assert_eq!(args.task, None);
}

#[test]
fn game_is_selected_with_keys() {
    let mut a = app(&["x", "y"]);
    assert_eq!(a.handle_key(Key::Up, false), UiAction::Nothing);
    assert_eq!(a.handle_key(Key::Down, false), UiAction::Scan);
    assert_eq!(a.selected_game, 1);
    assert_eq!(a.selected_game(), GameType::Nte);
    assert_eq!(a.handle_key(Key::Down, false), UiAction::Nothing);
    assert_eq!(a.handle_key(Key::Up, false), UiAction::Scan);
    assert_eq!(a.selected_game, 0);
}

#[test]
fn task_is_selected_with_keys() {
    let mut a = app(&["x", "y"]);
    a.handle_key(Key::Tab, false);
    assert_eq!(a.focus, Focus::Task);
    assert_eq!(a.handle_key(Key::Down, false), UiAction::LoadMeta);
    assert_eq!(a.selected_task(), Some("y".to_string()));
    assert_eq!(a.handle_key(Key::Down, false), UiAction::Nothing);
    assert_eq!(a.handle_key(Key::Up, false), UiAction::LoadMeta);
    assert_eq!(a.handle_key(Key::Up, false), UiAction::LoadMeta);
    assert_eq!(a.selected_task, 0);
    let mut a = app(&[]);
    a.handle_key(Key::Right, false);
    assert_eq!(a.handle_key(Key::Up, false), UiAction::Nothing);
    assert_eq!(a.handle_key(Key::Down, false), UiAction::Nothing);
    assert_eq!(a.selected_task(), None);
}

#[test]
fn columns_are_changed_with_keys() {
    let mut a = app(&["x"]);
    a.handle_key(Key::Left, false);
    assert_eq!(a.focus, Focus::Game);
    a.handle_key(Key::Right, false);
    a.handle_key(Key::Right, false);
    a.handle_key(Key::Right, false);
    assert_eq!(a.focus, Focus::Param);
    a.handle_key(Key::Left, false);
    assert_eq!(a.focus, Focus::Task);
    for f in [Focus::Param, Focus::Game, Focus::Task] {
        a.handle_key(Key::Tab, false);
        assert_eq!(a.focus, f);
    }
}

#[test]
fn selection_is_kept_in_range() {
    let mut a = app(&["x", "y", "z"]);
    a.focus = Focus::Task;
    a.handle_key(Key::Down, false);
    a.handle_key(Key::Down, false);
    assert_eq!(a.selected_task, 2);
    a.refresh_tasks(vec!["x".to_string(), "y".to_string()]);
    assert_eq!(a.selected_task, 1);
    a.refresh_tasks(vec![]);
    assert_eq!(a.selected_task, 0);
}

fn type_text(a: &mut App, s: &str) {
    for c in s.chars() {
        a.handle_key(Key::Char(c), false);
    }
}

#[test]
fn parameters_are_typed() {
    let mut a = app(&["x"]);
    type_text(&mut a, "zz");
    assert_eq!(a.strategy, "st");
    a.focus = Focus::Param;
    type_text(&mut a, "光1");
    assert_eq!(a.strategy, "st光1");
    a.handle_key(Key::Down, false);
    type_text(&mut a, "j1");
    assert_eq!(a.combo, "j1");
    a.handle_key(Key::Down, false);
    type_text(&mut a, "1x2");
    assert_eq!(a.timeout, "12");
    a.handle_key(Key::Down, false);
    type_text(&mut a, "3");
    assert_eq!(a.boost, "3");
    a.handle_key(Key::Down, false);
    type_text(&mut a, "20");
    assert_eq!(a.turn, "20");
    assert_eq!(a.handle_key(Key::Down, false), UiAction::Nothing);
    assert_eq!(a.param_idx, 4);
    a.handle_key(Key::Backspace, false);
    assert_eq!(a.turn, "2");
    a.handle_key(Key::Up, false);
    assert_eq!(a.param_idx, 3);
    let args = a.build_args();
    assert_eq!((args.boost, args.turn, args.timeout), (3, 2, 12));
    assert_eq!((args.strategy.as_str(), args.combo.as_str()), ("st光1", "j1"));
    assert_eq!(args.task, Some("x".to_string()));
}

#[test]
fn characters_are_erased_wherever_the_keys_go() {
    let mut a = app(&["x"]);
    a.handle_key(Key::Backspace, false);
    assert_eq!(a.strategy, "s");
    a.param_idx = 1;
    a.handle_key(Key::Backspace, false);
    assert_eq!(a.combo, "");
    a.param_idx = 2;
    a.handle_key(Key::Backspace, false);
    assert_eq!(a.timeout, "");
    a.param_idx = 3;
    a.handle_key(Key::Backspace, false);
    assert_eq!(a.boost, "");
    let args = a.build_args();
    assert_eq!((args.boost, args.turn, args.timeout), (0, 99, 0));
    a.param_idx = 4;
    a.handle_key(Key::Backspace, false);
    a.handle_key(Key::Backspace, false);
    assert_eq!(a.build_args().turn, 99);
}

#[test]
fn task_is_started_and_ends() {
    let mut a = app(&["x"]);
    a.notice = Some("old".to_string());
    assert_eq!(a.handle_key(Key::Enter, false), UiAction::Start);
    assert_eq!(a.notice, None);
    a.started(false);
    assert_eq!(a.page, Page::Running);
    assert!(a.working && !a.custom);
    assert_eq!(a.handle_key(Key::Char('p'), false), UiAction::TogglePause);
    assert_eq!(a.handle_key(Key::Char('r'), false), UiAction::Reset);
    assert_eq!(a.handle_key(Key::Esc, false), UiAction::Exit);
    assert_eq!(a.handle_key(Key::Char('\u{1b}'), false), UiAction::Exit);
    assert_eq!(a.handle_key(Key::Char('x'), false), UiAction::Nothing);
    assert!(!a.check_worker(true, None));
    assert!(a.check_worker(false, Some("e".to_string())));
    assert_eq!(a.page, Page::Config);
    assert_eq!(a.notice, Some("e".to_string()));
    assert!(!a.working);
    assert!(!a.check_worker(false, None));
    assert_eq!(a.handle_running_key(Key::Esc), UiAction::Nothing);
    let mut a = app(&[]);
    assert_eq!(a.handle_key(Key::Enter, false), UiAction::Nothing);
}

#[test]
fn program_is_left_with_keys() {
    for (key, control) in [(Key::Esc, false), (Key::Char('\u{1b}'), false), (Key::Char('c'), true)] {
        let mut a = app(&["x"]);
        a.handle_key(key, control);
        assert!(a.quit);
    }
    let mut a = app(&["x"]);
    a.handle_key(Key::Char('c'), false);
    a.handle_key(Key::Other, false);
    a.handle_key(Key::F(5), false);
    assert!(!a.quit);
}

#[test]
fn own_script_is_written() {
    let mut a = app(&["x"]);
    a.page = Page::Custom;
    assert_eq!(a.handle_key(Key::F(5), false), UiAction::Nothing);
    type_text(&mut a, "ab");
    a.handle_key(Key::Enter, false);
    type_text(&mut a, "cp");
    assert_eq!(a.custom_script, "ab\ncp");
    a.handle_key(Key::Backspace, false);
    assert_eq!(a.custom_script, "ab\nc");
    assert_eq!(a.handle_key(Key::F(5), false), UiAction::StartCustom);
    a.handle_key(Key::F(6), false);
    assert_eq!(a.custom_script, "");
    a.handle_key(Key::Esc, false);
    assert_eq!(a.page, Page::Config);
    assert!(!a.quit);
    a.started(true);
    assert!(a.custom);
    a.check_worker(false, None);
    assert!(!a.custom);
}

fn area(x: u16, y: u16, width: u16, height: u16) -> Area {
    Area { x, y, width, height }
}

#[test]
fn areas_cover_cells() {
    let r = area(2, 3, 4, 2);
    assert!(r.contains(2, 3) && r.contains(5, 4));
    assert!(!r.contains(6, 4) && !r.contains(5, 5) && !r.contains(1, 3) && !r.contains(2, 2));
    for (x, y, w, h, c, ro) in [(65530u16, 0u16, 100u16, 1u16, 65534u16, 0u16), (65530, 0, 100, 1, 65535, 0), (0, 65535, 1, 1, 0, 65535)] {
        let own = area(x, y, w, h).contains(c, ro);
        let other = ratatui::layout::Rect { x, y, width: w, height: h }
            .contains(ratatui::layout::Position { x: c, y: ro });
        assert_eq!(own, other);
    }
}

#[test]
fn lists_are_clicked() {
    let mut a = app(&["x", "y"]);
    let left = |col, row| Mouse::Click { col, row };
    assert_eq!(a.handle_mouse(left(1, 1)), UiAction::Nothing);
    a.place(area(0, 0, 10, 8), area(10, 0, 10, 8), area(20, 0, 10, 8), area(20, 8, 10, 3));
    assert_eq!(a.handle_mouse(left(1, 2)), UiAction::Scan);
    assert_eq!(a.selected_game, 1);
    assert_eq!(a.handle_mouse(left(1, 3)), UiAction::Nothing);
    assert_eq!(a.handle_mouse(left(1, 0)), UiAction::Nothing);
    assert_eq!(a.handle_mouse(left(12, 2)), UiAction::LoadMeta);
    assert_eq!((a.selected_task, a.focus), (1, Focus::Task));
    assert_eq!(a.handle_mouse(left(12, 5)), UiAction::Nothing);
    assert_eq!(a.handle_mouse(left(25, 5)), UiAction::Nothing);
    assert_eq!((a.param_idx, a.focus), (4, Focus::Param));
    a.handle_mouse(left(25, 6));
    assert_eq!((a.param_idx, a.page), (4, Page::Config));
    a.handle_mouse(left(25, 8));
    assert_eq!(a.page, Page::Custom);
    assert_eq!(a.handle_mouse(left(1, 1)), UiAction::Nothing);
    assert_eq!(a.handle_mouse(Mouse::Other), UiAction::Nothing);
}

#[test]
fn log_is_scrolled() {
    let mut a = app(&["x"]);
    a.handle_mouse(Mouse::ScrollUp);
    assert_eq!(a.log_scroll, 0);
    a.started(false);
    a.handle_mouse(Mouse::ScrollUp);
    a.handle_mouse(Mouse::ScrollUp);
    assert_eq!(a.log_scroll, 6);
    a.handle_mouse(Mouse::ScrollDown);
    assert_eq!(a.log_scroll, 3);
    a.handle_mouse(Mouse::ScrollDown);
    a.handle_mouse(Mouse::ScrollDown);
    assert_eq!(a.log_scroll, 0);
    assert_eq!(log_start(50, 12, 0), 40);
    assert_eq!(log_start(50, 12, 3), 37);
    assert_eq!(log_start(50, 12, 100), 0);
    assert_eq!(log_start(5, 12, 0), 0);
    assert_eq!(log_start(5, 1, 0), 5);
}

#[test]
fn parameters_are_shown() {
    let mut a = app(&["x"]);
    a.focus = Focus::Param;
    a.param_idx = 2;
    let lines = a.param_lines();
    let names: Vec<&str> = lines.iter().map(|l| l.name.as_str()).collect();
    assert_eq!(names, vec!["strategy  ", "combo     ", "timeout   ", "boost     ", "turn      "]);
    let values: Vec<&str> = lines.iter().map(|l| l.value.as_str()).collect();
    assert_eq!(values, vec!["st", "", "0", "0", "99"]);
    let selected: Vec<bool> = lines.iter().map(|l| l.selected).collect();
    assert_eq!(selected, vec![false, false, true, false, false]);
    a.focus = Focus::Task;
    assert!(a.param_lines().iter().all(|l| !l.selected));
}

#[test]
fn help_and_header_are_shown() {
    let mut a = app(&["x"]);
    assert_eq!(a.info(), "");
    a.load_script_meta(Some("// {\"desc\":\"说明\",\"author\":\"某人\"}"));
    assert_eq!(a.info(), "说明   作者：某人");
    a.load_script_meta(Some("// {\"desc\":\"说明\"}"));
    assert_eq!(a.info(), "说明");
    a.focus = Focus::Param;
    for (i, s) in ["开局策略", "循环策略", "", "使用委托手册加成（1-4）/ 不使用 0", ""].iter().enumerate() {
        a.param_idx = i;
        assert_eq!(a.info(), *s);
    }
    a.load_script_meta(None);
    assert!(a.script_meta.is_none());
}

#[test]
fn title_of_a_running_task() {
    let mut a = app(&["钓鱼"]);
    assert_eq!(
        a.title(None, false, 3725),
        (" 二重螺旋   / 钓鱼   状态:运行中   时长 62:05 ".to_string(), Mood::Running)
    );
    assert_eq!(a.title(None, true, 0).1, Mood::Paused);
    assert_eq!(
        a.title(Some("坏"), true, 59),
        (" 二重螺旋   / 钓鱼   状态:错误: 坏   时长 00:59 ".to_string(), Mood::Failed)
    );
    a.started(true);
    assert_eq!(a.title(None, true, 5).0, " 自定义脚本   状态:暂停中   时长 00:05 ");
}
