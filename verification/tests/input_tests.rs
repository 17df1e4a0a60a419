use elysium::input::{
    Button, Gamepad, PadCommand, PadStep, XGamepad, A, B, BACK, DOWN, GUIDE, LB, LEFT, LS, LT, RB,
    RIGHT, RS, RT, START, UP, X, Y,
};

fn all_buttons() -> Vec<Button> {
    vec![
        Button::Up,
        Button::Down,
        Button::Left,
        Button::Right,
        Button::Start,
        Button::Back,
        Button::LS,
        Button::RS,
        Button::LB,
        Button::RB,
        Button::Guide,
        Button::A,
        Button::B,
        Button::X,
        Button::Y,
        Button::LT,
        Button::RT,
    ]
}

#[test]
fn codes_are_those_of_the_report() {
    let codes: Vec<u16> = all_buttons().iter().map(|b| b.xbox()).collect();
    assert_eq!(
        codes,
        vec![
            UP, DOWN, LEFT, RIGHT, START, BACK, LS, RS, LB, RB, GUIDE, A, B, X, Y, LT, RT
        ]
    );
    assert_eq!(
        codes,
        vec![
            0x0001, 0x0002, 0x0004, 0x0008, 0x0010, 0x0020, 0x0040, 0x0080, 0x0100, 0x0200, 0x0400,
            0x1000, 0x2000, 0x4000, 0x8000, 0x0888, 0x1888
        ]
    );
}

#[test]
fn no_two_controls_share_a_code() {
    let all = all_buttons();
    for i in 0..all.len() {
        for j in 0..all.len() {
            assert_eq!(all[i].xbox() == all[j].xbox(), i == j);
        }
    }
}

#[test]
fn press_and_release_change_one_bit() {
    let mut pad = Gamepad::new();
    let down = pad.press(A, 100_000);
    assert_eq!(pad.state.buttons, 0x1000);
    assert_eq!(down.wait, 100_000);
    assert_eq!(down.report.unwrap().buttons, 0x1000);
    let both = pad.press(LB, 0);
    assert_eq!(both.report.unwrap().buttons, 0x1100);
    let up = pad.release(A, 50_000);
    assert_eq!(up.report.unwrap().buttons, 0x0100);
    assert_eq!(up.wait, 50_000);
}

#[test]
fn triggers_are_no_buttons() {
    let mut pad = Gamepad::new();
    pad.press_raw(LT);
    assert_eq!(pad.state.left_trigger, 255);
    assert_eq!(pad.state.buttons, 0);
    pad.press_raw(RT);
    assert_eq!(pad.state.right_trigger, 255);
    pad.release_raw(LT);
    assert_eq!(pad.state.left_trigger, 0);
    assert_eq!(pad.state.right_trigger, 255);
    pad.release_raw(RT);
    assert_eq!(pad.state, XGamepad::default());
}

#[test]
fn click_gives_the_state_back() {
    for b in all_buttons() {
        let mut pad = Gamepad::new();
        pad.press_raw(if b == Button::Y { X } else { Y });
        let before = pad.state;
        let (down, up) = pad.click(b.xbox(), 1, 2);
        assert_ne!(down.report.unwrap(), before);
        assert_eq!(up.report.unwrap(), before);
        assert_eq!((down.wait, up.wait), (1, 2));
        assert_eq!(pad.state, before);
    }
}

#[test]
fn press_twice_is_press_once() {
    let mut pad = Gamepad::new();
    pad.press_raw(B);
    let once = pad.state;
    pad.press_raw(B);
    assert_eq!(pad.state, once);
}

#[test]
fn sticks_and_reset() {
    let mut pad = Gamepad::new();
    let step = pad.lstick(-10000, 32767, 300_000);
    assert_eq!(step.wait, 300_000);
    assert_eq!(pad.state.thumb_lx, -10000);
    assert_eq!(pad.state.thumb_ly, 32767);
    pad.rstick(5, -6, 0);
    assert_eq!(pad.state.thumb_rx, 5);
    assert_eq!(pad.state.thumb_ry, -6);
    assert_eq!(pad.state.thumb_lx, -10000);
    assert_eq!(pad.update(), pad.state);
    let step = pad.reset();
    assert_eq!(step, PadStep { report: Some(XGamepad::default()), wait: 0 });
    assert_eq!(pad.state, XGamepad::default());
}

#[test]
fn perform_does_what_the_methods_do() {
    let mut pad = Gamepad::new();
    let steps = pad.perform(PadCommand::Click { button: X, hold: 7, post: 8 });
    assert_eq!(steps.len(), 2);
    assert_eq!(steps[0].report.unwrap().buttons, 0x4000);
    assert_eq!(steps[0].wait, 7);
    assert_eq!(steps[1].report.unwrap().buttons, 0);
    assert_eq!(steps[1].wait, 8);
    let steps = pad.perform(PadCommand::Press { button: RT, hold: 0 });
    assert_eq!(steps[0].report.unwrap().right_trigger, 255);
    let steps = pad.perform(PadCommand::LStick { x: 1, y: 2, duration: 3 });
    assert_eq!(steps[0].report.unwrap().thumb_lx, 1);
    assert_eq!(steps[0].report.unwrap().right_trigger, 255);
    let steps = pad.perform(PadCommand::RStick { x: 4, y: 5, duration: 6 });
    assert_eq!(steps[0].report.unwrap().thumb_ry, 5);
    let steps = pad.perform(PadCommand::Release { button: RT, post: 9 });
    assert_eq!(steps[0].report.unwrap().right_trigger, 0);
    assert_eq!(steps[0].wait, 9);
    let steps = pad.perform(PadCommand::Rest { duration: 10 });
    assert_eq!(steps, vec![PadStep { report: None, wait: 10 }]);
    let steps = pad.perform(PadCommand::Pause { duration: 11 });
    assert_eq!(steps, vec![PadStep { report: None, wait: 11 }]);
    let steps = pad.perform(PadCommand::Reset);
    assert_eq!(steps[0].report.unwrap(), XGamepad::default());
}
