use elysium::game::GameType;
use elysium::launch::{
    click_place, config_path, launch_argument, load_launch_config, login_script, plan_launch,
    save_launch_config, saved_message, usage, wait_window, window_message, LaunchConfig, WindowWait,
};

#[test]
fn configuration_is_read() {
    let c = load_launch_config("{\"exec\":\"C:\\\\g.exe\",\"login\":\"登录\"}").unwrap();
    assert_eq!(c.program, "C:\\g.exe");
    assert_eq!(c.login, "登录");
    let c = load_launch_config("{\"exec\": 5}").unwrap();
    assert_eq!(c.program, "");
    assert_eq!(c.login, "");
    let c = load_launch_config("[1]").unwrap();
    assert_eq!(c.program, "");
    assert!(load_launch_config("{").is_none());
}

#[test]
fn configuration_is_written_as_json() {
    assert_eq!(
        save_launch_config("C:\\g \"x\".exe", "a\nb\u{1}\u{1f}\u{8}\u{c}\r\t光/"),
        "{\n  \"exec\": \"C:\\\\g \\\"x\\\".exe\",\n  \"login\": \"a\\nb\\u0001\\u001f\\b\\f\\r\\t光/\"\n}"
    );
    assert_eq!(save_launch_config("", ""), "{\n  \"exec\": \"\",\n  \"login\": \"\"\n}");
}

#[test]
fn what_is_written_is_read_back() {
    for (p, l) in [("", ""), ("a\"\\\u{7f}", "二\u{0}\u{10ffff}"), ("{}", "\n\n")] {
        let c = load_launch_config(&save_launch_config(p, l)).unwrap();
        assert_eq!(c.program, p);
        assert_eq!(c.login, l);
    }
}

#[test]
fn path_that_the_user_gives_is_kept() {
    let c = LaunchConfig { program: "old".to_string(), login: "l".to_string() };
    let p = plan_launch(c, &Some("new".to_string()));
    assert_eq!(p.config.program, "new");
    assert_eq!(p.config.login, "l");
    assert!(p.save && p.ready);
    assert_eq!(login_script(&p.config), Some("l".to_string()));
    let c = LaunchConfig { program: "old".to_string(), login: "".to_string() };
    let p = plan_launch(c, &None);
    assert_eq!(p.config.program, "old");
    assert!(!p.save && p.ready);
    assert_eq!(login_script(&p.config), None);
    let c = LaunchConfig { program: "".to_string(), login: "".to_string() };
    assert!(!plan_launch(c, &None).ready);
    let c = LaunchConfig { program: "x".to_string(), login: "".to_string() };
    let p = plan_launch(c, &Some("".to_string()));
    assert!(p.save && !p.ready);
}

#[test]
fn small_texts_of_launching() {
    assert_eq!(config_path("ap"), "user-ap-scripts/config.json");
    assert_eq!(launch_argument(GameType::Ap), Some("-start=azurpromilia_launcher"));
    assert_eq!(launch_argument(GameType::Dna), None);
    assert_eq!(usage(GameType::Dna), "未配置游戏路径。用法：obs64 dna launch <游戏exe路径>");
    assert_eq!(
        usage(GameType::Ap),
        "未配置游戏路径！使用方法：obs64 ap launch <安装目录\\AzurPromilia.exe>"
    );
    assert_eq!(saved_message(GameType::Nte, "x.exe"), "已更新启动配置：x.exe");
    assert_eq!(
        saved_message(GameType::Ap, "x.exe"),
        "已更新启动配置：x.exe，之后可使用 obs64 ap launch 启动游戏"
    );
    assert_eq!(window_message(30, "异环  "), "等待窗口超时（30s）：异环  ");
}

#[test]
fn window_is_waited_for() {
    assert_eq!(wait_window(true, true, u128::MAX, 0), WindowWait::Found);
    assert_eq!(wait_window(false, true, u128::MAX, 0), WindowWait::Rest(1_000_000));
    assert_eq!(wait_window(false, false, 29_999_999_999, 30), WindowWait::Rest(500_000));
    assert_eq!(wait_window(false, false, 30_000_000_000, 30), WindowWait::TimedOut);
}

#[test]
fn clicks_have_a_place() {
    assert_eq!(click_place(640, 360), (360 << 16) | 640);
    for (x, y) in [(0i64, 0i64), (65535, 65535), (-1, 5), (70000, -70000), (i64::MIN, i64::MAX)] {
        assert_eq!(click_place(x, y), ((y & 0xFFFF) << 16) | (x & 0xFFFF));
    }
}
