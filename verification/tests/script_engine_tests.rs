use elysium::game::{Args, GameType};
use elysium::input::{Button, PadCommand};
use elysium::script_engine::{
    controls, header_lines, init_scope, is_reported, next_nap, pad_command, progress, rand,
    script_pixel, script_pixel_equal, script_pixel_like, search_region, to_i16, to_region, to_u32,
    to_u8, PadCall, ScriptMeta, StopReason, TaskState,
};
use elysium::vision::Image;

fn args() -> Args {
    Args {
        game: Some(GameType::Dna),
        task: Some("t".to_string()),
        exe: None,
        plan: vec![],
        boost: 3,
        strategy: "策略".to_string(),
        combo: "j1".to_string(),
        turn: 20,
        timeout: u64::MAX,
    }
}

#[test]
fn header_with_everything() {
    let m = ScriptMeta::parse(
        "// {\n//   \"author\": \"某人\",\r\n// \"desc\": \"说明\", \"loop\": false,\n//\"timeout\": 60 }\nlet x = 1;\n",
    );
    assert_eq!(m.author, "某人");
    assert_eq!(m.desc, "说明");
    assert!(!m.looped);
    assert_eq!(m.timeout, 60);
}

#[test]
fn script_without_header() {
    for s in ["", "let x = 1;", "// just a comment\nlet y = 2;", "x // { \"author\": \"a\" }"] {
        let m = ScriptMeta::parse(s);
        assert_eq!(m.author, "");
        assert_eq!(m.desc, "");
        assert!(m.looped);
        assert_eq!(m.timeout, 86400);
    }
}

#[test]
fn header_that_is_no_json() {
    let m = ScriptMeta::parse("// { author: me }\n");
    assert_eq!(m.author, "");
    assert_eq!(m.timeout, 86400);
    let m = ScriptMeta::parse("// { \"timeout\": -5, \"loop\": 1, \"author\": 7, \"desc\": null }");
    assert_eq!(m.timeout, 86400);
    assert!(m.looped);
    assert_eq!(m.author, "");
    assert_eq!(m.desc, "");
    let m = ScriptMeta::parse("// { \"timeout\": 2.5 }");
    assert_eq!(m.timeout, 86400);
}

#[test]
fn header_lines_end_where_they_should() {
    assert_eq!(header_lines("// intro\n  //  { \"a\": 1,  \n//x\n// }\n// more"), vec!["{ \"a\": 1,", "x", "}"]);
    assert_eq!(header_lines("// {\ncode\n// }"), vec!["{"]);
    assert_eq!(header_lines("code\n\n// {}"), vec!["{}"]);
    assert_eq!(header_lines("//"), Vec::<String>::new());
    assert_eq!(header_lines("/ / {}"), Vec::<String>::new());
}

#[test]
fn meta_of_a_json_value() {
    let v = serde_json::from_str::<serde_json::Value>("{\"author\":\"a\",\"loop\":false}").unwrap();
    let m = ScriptMeta::from_json(&v);
    assert_eq!(m.author, "a");
    assert_eq!(m.desc, "");
    assert!(!m.looped);
    assert_eq!(m.timeout, 86400);
    let m = ScriptMeta::from_json(&serde_json::Value::Null);
    assert!(m.looped);
}

#[test]
fn scope_has_the_constants() {
    let scope = init_scope(&args());
    assert_eq!(scope.len(), 5);
    assert_eq!(scope.get_value::<i64>("BOOST"), Some(3));
    assert_eq!(scope.get_value::<String>("STRATEGY"), Some("策略".to_string()));
    assert_eq!(scope.get_value::<String>("COMBO"), Some("j1".to_string()));
    assert_eq!(scope.get_value::<i64>("TURN"), Some(20));
    assert_eq!(scope.get_value::<u64>("TIMEOUT"), Some(u64::MAX));
    assert_eq!(scope.is_constant("BOOST"), Some(true));
    let names: Vec<String> = scope.iter().map(|(n, _, _)| n.to_string()).collect();
    assert_eq!(names, vec!["BOOST", "STRATEGY", "COMBO", "TURN", "TIMEOUT"]);
}

#[test]
fn task_begins_unpaused_in_turn_one() {
    assert_eq!(TaskState::default(), TaskState { pause: false, cur_turn: 1 });
}

#[test]
fn scripts_are_broken_off() {
    assert_eq!(progress(true), Some(StopReason::Exit));
    assert_eq!(progress(false), None);
    assert!(!is_reported(Some(StopReason::Exit)));
    assert!(is_reported(Some(StopReason::Timeout)));
    assert!(is_reported(None));
}

#[test]
fn naps_add_up() {
    for total in [0u64, 1, 199_999, 200_000, 200_001, 600_000, 1_234_567] {
        let mut waited = 0;
        let mut count = 0;
        while let Some(n) = next_nap(waited, total, false) {
            assert!(n > 0 && n <= 200_000);
            waited += n;
            count += 1;
        }
        assert_eq!(waited, total);
        assert_eq!(count, (total + 199_999) / 200_000);
    }
    assert_eq!(next_nap(0, 5, true), None);
}

#[test]
fn random_numbers_are_below_the_limit() {
    assert_eq!(rand(10, 1_234_567), 7);
    assert_eq!(rand(0, 1_234_567), 0);
    assert_eq!(rand(-3, 1_234_567), 0);
    assert_eq!(rand(i64::MAX, 5), 5);
}

#[test]
fn numbers_of_scripts_are_cut_as_casts_do() {
    for x in [
        0i64, 1, -1, 255, 256, -256, 32767, 32768, -32768, -32769, 65535, 65536, 4294967295,
        4294967296, -4294967297, i64::MAX, i64::MIN,
    ] {
        assert_eq!(to_u32(x), x as u32);
        assert_eq!(to_u8(x), x as u8);
        assert_eq!(to_i16(x), x as i16);
    }
    assert_eq!(to_region(1, -1, 3, 4294967300), (1, 4294967295, 3, 4));
}

#[test]
fn search_needs_two_lengths() {
    assert_eq!(search_region(1, 2, 3, 4), Some((1, 2, 3, 4)));
    assert_eq!(search_region(1, 2, 0, 4), None);
    assert_eq!(search_region(1, 2, 3, -4), None);
}

#[test]
fn every_control_has_a_name() {
    let list = controls();
    assert_eq!(list.len(), 17);
    assert_eq!(list[0], ("UP", Button::Up));
    assert_eq!(list[10], ("GUIDE", Button::Guide));
    assert_eq!(list[15], ("LT", Button::LT));
    assert_eq!(list[16], ("RT", Button::RT));
}

#[test]
fn calls_of_scripts_have_usual_times() {
    let b = Button::RT;
    assert_eq!(
        pad_command(PadCall::Press { button: b, hold: None }),
        PadCommand::Press { button: 0x1888, hold: 100_000 }
    );
    assert_eq!(
        pad_command(PadCall::Press { button: b, hold: Some(0) }),
        PadCommand::Press { button: 0x1888, hold: 0 }
    );
    assert_eq!(
        pad_command(PadCall::Release { button: Button::A, post: None }),
        PadCommand::Release { button: 0x1000, post: 100_000 }
    );
    assert_eq!(
        pad_command(PadCall::Click { button: Button::A, hold: Some(5), post: None }),
        PadCommand::Click { button: 0x1000, hold: 5, post: 100_000 }
    );
    assert_eq!(
        pad_command(PadCall::Click { button: Button::A, hold: None, post: Some(7) }),
        PadCommand::Click { button: 0x1000, hold: 100_000, post: 7 }
    );
    assert_eq!(
        pad_command(PadCall::LStick { at: None, duration: None }),
        PadCommand::LStick { x: 0, y: 0, duration: 0 }
    );
    assert_eq!(
        pad_command(PadCall::LStick { at: Some((40000, -5)), duration: None }),
        PadCommand::LStick { x: 40000i64 as i16, y: -5, duration: 0 }
    );
    assert_eq!(
        pad_command(PadCall::RStick { at: Some((1, 2)), duration: Some(3) }),
        PadCommand::RStick { x: 1, y: 2, duration: 3 }
    );
    assert_eq!(pad_command(PadCall::Reset), PadCommand::Reset);
}

#[test]
fn pixels_that_scripts_name() {
    let img = Image { width: 2, height: 2, data: (1..=12).collect() };
    assert_eq!(script_pixel(&img, 1, 1), Some([10, 11, 12]));
    assert_eq!(script_pixel(&img, 4294967297, 0), Some([4, 5, 6]));
    assert_eq!(script_pixel(&img, -1, 0), None);
    assert_eq!(script_pixel(&img, 0, 2), None);
    assert_eq!(script_pixel_equal(&img, 0, 0, 1, 2, 259), Some(true));
    assert_eq!(script_pixel_equal(&img, 0, 0, 1, 2, 4), Some(false));
    assert_eq!(script_pixel_equal(&img, 2, 0, 1, 2, 4), None);
    assert_eq!(script_pixel_like(&img, 0, 0, 2, 3, 4, 2), Some(true));
    assert_eq!(script_pixel_like(&img, 0, 0, 2, 3, 4, 257), Some(false));
    assert_eq!(script_pixel_like(&img, 0, -1, 2, 3, 4, 2), None);
}

#[test]
fn only_the_header_counts() {
    let bare = "// {\"author\": \"a\",\n// \"timeout\": 7}";
    let m = ScriptMeta::parse(bare);
    assert_eq!((m.author.as_str(), m.timeout), ("a", 7));
    for script in [
        format!("let x = 1;\n// words\n{bare}\n// {{\"timeout\": 8}}\nlet y = 2;"),
        format!("\n{bare}\n// more"),
        format!("{bare}\nfn f() {{}}\n"),
    ] {
        let n = ScriptMeta::parse(&script);
        assert_eq!((n.author.as_str(), n.timeout), ("a", 7));
    }
    let open = ScriptMeta::parse("// {\nlet x = 1;\n// \"timeout\": 8}");
    assert_eq!(open.timeout, ScriptMeta::default().timeout);
}
