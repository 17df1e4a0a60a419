use elysium::combo::{
    combo_step, plain, stop_combo, Await, ComboCtrl, ComboMove, ComboRun, Started,
};
use elysium::input::{Gamepad, PadCommand, XGamepad, B, LB, LS, RT, X, Y};

fn click(button: u16, hold: u64, post: u64) -> PadCommand {
    PadCommand::Click { button, hold, post }
}

#[test]
fn letters_of_a_combo() {
    assert_eq!(combo_step('j', 2), vec![click(LS, 100_000, 1_100_000); 2]);
    assert_eq!(combo_step('l', 3), vec![click(X, 100_000, 100_000); 3]);
    assert_eq!(combo_step('l', 0), vec![]);
    assert_eq!(combo_step('L', 0), vec![click(X, 600_000, 100_000)]);
    assert_eq!(combo_step('L', 2), vec![click(X, 600_000, 1_400_000)]);
    assert_eq!(combo_step('r', 0), vec![click(RT, 100_000, 100_000)]);
    assert_eq!(combo_step('r', 1), vec![click(RT, 900_000, 100_000)]);
    assert_eq!(combo_step('p', 3), vec![PadCommand::Rest { duration: 3_000_000 }]);
    assert_eq!(combo_step('x', 3), vec![]);
}

#[test]
fn directions_of_a_combo() {
    for (c, x, y) in [('w', 0, 10000), ('s', 0, -10000), ('a', -10000, 0), ('d', 10000, 0)] {
        assert_eq!(
            combo_step(c, 2),
            vec![
                PadCommand::LStick { x, y, duration: 2_000_000 },
                PadCommand::LStick { x: 0, y: 0, duration: 0 }
            ]
        );
        assert_eq!(combo_step(c, 0)[0], PadCommand::LStick { x, y, duration: 100_000 });
    }
}

#[test]
fn skills_of_a_combo() {
    for (c, button, hold, less) in [
        ('q', Y, 100_000, 300_000),
        ('Q', Y, 600_000, 800_000),
        ('e', X, 100_000, 300_000),
        ('E', X, 600_000, 800_000),
        ('z', B, 100_000, 300_000),
    ] {
        assert_eq!(
            combo_step(c, 1),
            vec![
                PadCommand::Press { button: LB, hold: 100_000 },
                click(button, hold, 100_000),
                PadCommand::Release { button: LB, post: 1_000_000 - less }
            ]
        );
        assert_eq!(combo_step(c, 0)[2], PadCommand::Release { button: LB, post: 100_000 });
    }
}

#[test]
fn letters_let_everything_go() {
    for c in "jlLrwsadqQeEzpx".chars() {
        for n in 0..10 {
            let mut pad = Gamepad::new();
            for command in combo_step(c, n) {
                pad.perform(command);
            }
            assert_eq!(pad.state, XGamepad::default());
        }
    }
}

#[test]
fn combos_are_ascii() {
    assert!(plain("j1l2"));
    assert!(plain(""));
    assert!(!plain("光1"));
    assert!(!plain("\u{80}"));
}

#[test]
fn combo_that_is_played_once() {
    let mut r = ComboRun::new("j1lxw9z".to_string());
    assert_eq!(r.run_combo(false, false), ComboMove::Play('j', 1));
    assert_eq!(r.run_combo(false, true), ComboMove::Rest(100_000));
    assert_eq!(r.run_combo(true, true), ComboMove::Rest(100_000));
    assert_eq!(r.run_combo(true, false), ComboMove::Play('l', 0));
    assert_eq!(r.run_combo(false, false), ComboMove::Play('w', 9));
    assert_eq!(r.run_combo(false, false), ComboMove::Quit);
    let mut r = ComboRun::new("j1".to_string());
    assert_eq!(r.run_combo(true, false), ComboMove::Quit);
    let mut r = ComboRun::new("j".to_string());
    assert_eq!(r.run_combo(false, false), ComboMove::Quit);
}

#[test]
fn request_starts_one_player() {
    let mut c = ComboCtrl::new();
    assert_eq!(c.start("j1".to_string()), Started { spawn: Some(1), notify: true });
    assert_eq!(c.start("j1".to_string()), Started { spawn: None, notify: false });
    assert_eq!(c.start("l2".to_string()), Started { spawn: None, notify: true });
    assert_eq!(c.slot, Some("l2".to_string()));
    stop_combo(&mut c);
    assert!(!c.alive);
    assert_eq!(c.start("l2".to_string()), Started { spawn: Some(2), notify: false });
    assert_eq!(c.epoch, 2);
}

#[test]
fn player_waits_runs_and_ends() {
    let mut c = ComboCtrl::new();
    assert!(matches!(c.combo_worker(1, false), Await::Quit));
    c.start("j1".to_string());
    match c.combo_worker(1, false) {
        Await::Run(s) => assert_eq!(s, "j1"),
        _ => panic!(),
    }
    assert!(matches!(c.combo_worker(1, true), Await::Quit));
    assert!(matches!(c.combo_worker(2, false), Await::Quit));
    c.clear_if_current("l2");
    assert_eq!(c.slot, Some("j1".to_string()));
    c.clear_if_current("j1");
    assert_eq!(c.slot, None);
    assert!(matches!(c.combo_worker(1, false), Await::Wait(200_000)));
}

#[test]
fn combo_that_is_played_again_and_again() {
    let mut c = ComboCtrl::new();
    c.start("j1l2".to_string());
    let mut r = ComboRun::new("j1l2".to_string());
    for _ in 0..3 {
        assert_eq!(c.run_request(&mut r, 1, false, false), ComboMove::Play('j', 1));
        assert_eq!(c.run_request(&mut r, 1, false, false), ComboMove::Play('l', 2));
    }
    assert_eq!(c.run_request(&mut r, 1, false, true), ComboMove::Rest(100_000));
    assert_eq!(c.run_request(&mut r, 1, true, false), ComboMove::Play('j', 1));
    assert_eq!(c.run_request(&mut r, 1, true, false), ComboMove::Quit);
    assert_eq!(c.slot, None);
}

#[test]
fn outdated_player_quits() {
    let mut c = ComboCtrl::new();
    c.start("j1".to_string());
    let mut old = ComboRun::new("j1".to_string());
    stop_combo(&mut c);
    c.start("l2".to_string());
    assert_eq!(c.run_request(&mut old, 1, false, false), ComboMove::Quit);
    assert_eq!(c.slot, Some("l2".to_string()));
    let mut new = ComboRun::new("l2".to_string());
    assert_eq!(c.run_request(&mut new, 2, false, false), ComboMove::Play('l', 2));
}

#[test]
fn player_changes_to_another_combo() {
    let mut c = ComboCtrl::new();
    c.start("j1".to_string());
    let mut r = ComboRun::new("j1".to_string());
    c.start("l2".to_string());
    assert_eq!(c.run_request(&mut r, 1, false, false), ComboMove::Switch);
    assert!(c.slot_changed("j1"));
    assert!(!c.slot_changed("l2"));
    let mut short = ComboRun::new("j".to_string());
    assert_eq!(c.run_request(&mut short, 1, true, false), ComboMove::Spin);
}
