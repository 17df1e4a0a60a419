//! The virtual gamepad: its buttons, its state, and the reports and pauses that
//! its operations consist of. Times are in microseconds.

use vstd::prelude::*;

verus! {

/// A set of gamepad buttons, one bit each.
pub type XButtons = u16;

pub const UP: XButtons = 0x0001;

pub const DOWN: XButtons = 0x0002;

pub const LEFT: XButtons = 0x0004;

pub const RIGHT: XButtons = 0x0008;

pub const START: XButtons = 0x0010;

pub const BACK: XButtons = 0x0020;

pub const LS: XButtons = 0x0040;

pub const RS: XButtons = 0x0080;

pub const LB: XButtons = 0x0100;

pub const RB: XButtons = 0x0200;

pub const GUIDE: XButtons = 0x0400;

pub const A: XButtons = 0x1000;

pub const B: XButtons = 0x2000;

pub const X: XButtons = 0x4000;

pub const Y: XButtons = 0x8000;

/// Stands for the left trigger, which is no button of the report.
pub const LT: XButtons = 0x0888;

/// Stands for the right trigger, which is no button of the report.
pub const RT: XButtons = 0x1888;

/// The controls that a script can name.
#[derive(Debug, Clone, Copy, PartialEq, Eq, Structural)]
pub enum Button {
    Up,
    Down,
    Left,
    Right,
    Start,
    Back,
    LS,
    RS,
    LB,
    RB,
    Guide,
    A,
    B,
    X,
    Y,
    LT,
    RT,
}

impl Button {
    /// The code of a control.
    pub open spec fn code(self) -> XButtons {
        match self {
            Button::Up => UP,
            Button::Down => DOWN,
            Button::Left => LEFT,
            Button::Right => RIGHT,
            Button::Start => START,
            Button::Back => BACK,
            Button::LS => LS,
            Button::RS => RS,
            Button::LB => LB,
            Button::RB => RB,
            Button::Guide => GUIDE,
            Button::A => A,
            Button::B => B,
            Button::X => X,
            Button::Y => Y,
            Button::LT => LT,
            Button::RT => RT,
        }
    }

    pub fn xbox(&self) -> (code: XButtons)
        ensures
            code == self.code(),
    {
        match self {
            Button::Up => UP,
            Button::Down => DOWN,
            Button::Left => LEFT,
            Button::Right => RIGHT,
            Button::Start => START,
            Button::Back => BACK,
            Button::LS => LS,
            Button::RS => RS,
            Button::LB => LB,
            Button::RB => RB,
            Button::Guide => GUIDE,
            Button::A => A,
            Button::B => B,
            Button::X => X,
            Button::Y => Y,
            Button::LT => LT,
            Button::RT => RT,
        }
    }
}

/// What the gamepad reports: the buttons that are down, the triggers and the
/// two sticks.
#[derive(Debug, Clone, Copy, PartialEq, Eq, Structural)]
pub struct XGamepad {
    pub buttons: XButtons,
    pub left_trigger: u8,
    pub right_trigger: u8,
    pub thumb_lx: i16,
    pub thumb_ly: i16,
    pub thumb_rx: i16,
    pub thumb_ry: i16,
}

/// The report in which nothing is touched.
pub open spec fn neutral() -> XGamepad {
    XGamepad {
        buttons: 0,
        left_trigger: 0,
        right_trigger: 0,
        thumb_lx: 0,
        thumb_ly: 0,
        thumb_rx: 0,
        thumb_ry: 0,
    }
}

impl Default for XGamepad {
    fn default() -> (s: Self)
        ensures
            s == neutral(),
    {
        XGamepad {
            buttons: 0,
            left_trigger: 0,
            right_trigger: 0,
            thumb_lx: 0,
            thumb_ly: 0,
            thumb_rx: 0,
            thumb_ry: 0,
        }
    }
}

/// A report to send, if there is one, and how long to wait behind it.
#[derive(Debug, Clone, Copy, PartialEq, Eq)]
pub struct PadStep {
    pub report: Option<XGamepad>,
    pub wait: u64,
}

/// An operation on the gamepad. `Rest` is a wait that a stop request cuts
/// short, `Pause` one that it does not.
#[derive(Debug, Clone, Copy, PartialEq, Eq)]
pub enum PadCommand {
    Press { button: XButtons, hold: u64 },
    Release { button: XButtons, post: u64 },
    Click { button: XButtons, hold: u64, post: u64 },
    LStick { x: i16, y: i16, duration: u64 },
    RStick { x: i16, y: i16, duration: u64 },
    Reset,
    Rest { duration: u64 },
    Pause { duration: u64 },
}

/// The state with a button down, or a trigger pulled.
pub open spec fn pressed(s: XGamepad, button: XButtons) -> XGamepad {
    if button == LT {
        XGamepad { left_trigger: 255, ..s }
    } else if button == RT {
        XGamepad { right_trigger: 255, ..s }
    } else {
        XGamepad { buttons: s.buttons | button, ..s }
    }
}

/// The state with a button up, or a trigger let go.
pub open spec fn released(s: XGamepad, button: XButtons) -> XGamepad {
    if button == LT {
        XGamepad { left_trigger: 0, ..s }
    } else if button == RT {
        XGamepad { right_trigger: 0, ..s }
    } else {
        XGamepad { buttons: s.buttons & !button, ..s }
    }
}

/// Whether a button is down, or a trigger pulled.
pub open spec fn is_down(s: XGamepad, button: XButtons) -> bool {
    if button == LT {
        s.left_trigger != 0
    } else if button == RT {
        s.right_trigger != 0
    } else {
        s.buttons & button != 0
    }
}

/// The state behind an operation.
pub open spec fn after(s: XGamepad, c: PadCommand) -> XGamepad {
    match c {
        PadCommand::Press { button, hold } => pressed(s, button),
        PadCommand::Release { button, post } => released(s, button),
        PadCommand::Click { button, hold, post } => released(pressed(s, button), button),
        PadCommand::LStick { x, y, duration } => XGamepad { thumb_lx: x, thumb_ly: y, ..s },
        PadCommand::RStick { x, y, duration } => XGamepad { thumb_rx: x, thumb_ry: y, ..s },
        PadCommand::Reset => neutral(),
        PadCommand::Rest { duration } => s,
        PadCommand::Pause { duration } => s,
    }
}

/// The reports and waits of an operation.
pub open spec fn steps(s: XGamepad, c: PadCommand) -> Seq<PadStep> {
    match c {
        PadCommand::Press { button, hold } => seq![
            PadStep { report: Some(pressed(s, button)), wait: hold },
        ],
        PadCommand::Release { button, post } => seq![
            PadStep { report: Some(released(s, button)), wait: post },
        ],
        PadCommand::Click { button, hold, post } => seq![
            PadStep { report: Some(pressed(s, button)), wait: hold },
            PadStep { report: Some(released(pressed(s, button), button)), wait: post },
        ],
        PadCommand::LStick { x, y, duration } => seq![
            PadStep { report: Some(after(s, c)), wait: duration },
        ],
        PadCommand::RStick { x, y, duration } => seq![
            PadStep { report: Some(after(s, c)), wait: duration },
        ],
        PadCommand::Reset => seq![PadStep { report: Some(neutral()), wait: 0 }],
        PadCommand::Rest { duration } => seq![PadStep { report: None, wait: duration }],
        PadCommand::Pause { duration } => seq![PadStep { report: None, wait: duration }],
    }
}

/// The state behind a list of operations.
pub open spec fn after_all(s: XGamepad, list: Seq<PadCommand>) -> XGamepad
    decreases list.len(),
{
    if list.len() == 0 {
        s
    } else {
        after(after_all(s, list.drop_last()), list.last())
    }
}

/// A virtual gamepad.
pub struct Gamepad {
    pub state: XGamepad,
}

impl Gamepad {
    /// A gamepad that nothing touches.
    pub fn new() -> (pad: Self)
        ensures
            pad.state == neutral(),
    {
        Gamepad { state: XGamepad::default() }
    }

    pub fn press(&mut self, button: XButtons, hold: u64) -> (step: PadStep)
        ensures
            final(self).state == pressed(old(self).state, button),
            step == (PadStep { report: Some(final(self).state), wait: hold }),
    {
        self.press_raw(button);
        PadStep { report: Some(self.update()), wait: hold }
    }

    pub fn release(&mut self, button: XButtons, post: u64) -> (step: PadStep)
        ensures
            final(self).state == released(old(self).state, button),
            step == (PadStep { report: Some(final(self).state), wait: post }),
    {
        self.release_raw(button);
        PadStep { report: Some(self.update()), wait: post }
    }

    pub fn press_raw(&mut self, button: XButtons)
        ensures
            final(self).state == pressed(old(self).state, button),
    {
        if button == LT {
            self.state.left_trigger = 255;
        } else if button == RT {
            self.state.right_trigger = 255;
        } else {
            self.state.buttons = self.state.buttons | button;
        }
    }

    pub fn release_raw(&mut self, button: XButtons)
        ensures
            final(self).state == released(old(self).state, button),
    {
        if button == LT {
            self.state.left_trigger = 0;
        } else if button == RT {
            self.state.right_trigger = 0;
        } else {
            self.state.buttons = self.state.buttons & !button;
        }
    }

    pub fn click(&mut self, button: XButtons, hold: u64, post: u64) -> (r: (PadStep, PadStep))
        ensures
            final(self).state == released(pressed(old(self).state, button), button),
            r.0 == (PadStep { report: Some(pressed(old(self).state, button)), wait: hold }),
            r.1 == (PadStep { report: Some(final(self).state), wait: post }),
    {
        let down: PadStep = self.press(button, hold);
        let up: PadStep = self.release(button, post);
        (down, up)
    }

    pub fn lstick(&mut self, x: i16, y: i16, duration: u64) -> (step: PadStep)
        ensures
            final(self).state == (XGamepad { thumb_lx: x, thumb_ly: y, ..old(self).state }),
            step == (PadStep { report: Some(final(self).state), wait: duration }),
    {
        self.state.thumb_lx = x;
        self.state.thumb_ly = y;
        PadStep { report: Some(self.update()), wait: duration }
    }

    pub fn rstick(&mut self, x: i16, y: i16, duration: u64) -> (step: PadStep)
        ensures
            final(self).state == (XGamepad { thumb_rx: x, thumb_ry: y, ..old(self).state }),
            step == (PadStep { report: Some(final(self).state), wait: duration }),
    {
        self.state.thumb_rx = x;
        self.state.thumb_ry = y;
        PadStep { report: Some(self.update()), wait: duration }
    }

    pub fn reset(&mut self) -> (step: PadStep)
        ensures
            final(self).state == neutral(),
            step == (PadStep { report: Some(neutral()), wait: 0 }),
    {
        self.state = XGamepad::default();
        PadStep { report: Some(self.update()), wait: 0 }
    }

    /// The report to send.
    pub fn update(&self) -> (report: XGamepad)
        ensures
            report == self.state,
    {
        self.state
    }

    /// Carries out an operation.
    pub fn perform(&mut self, c: PadCommand) -> (r: Vec<PadStep>)
        ensures
            final(self).state == after(old(self).state, c),
            r@ == steps(old(self).state, c),
    {
        let mut r: Vec<PadStep> = Vec::new();
        match c {
            PadCommand::Press { button, hold } => r.push(self.press(button, hold)),
            PadCommand::Release { button, post } => r.push(self.release(button, post)),
            PadCommand::Click { button, hold, post } => {
                let (down, up) = self.click(button, hold, post);
                r.push(down);
                r.push(up);
            },
            PadCommand::LStick { x, y, duration } => r.push(self.lstick(x, y, duration)),
            PadCommand::RStick { x, y, duration } => r.push(self.rstick(x, y, duration)),
            PadCommand::Reset => r.push(self.reset()),
            PadCommand::Rest { duration } => r.push(PadStep { report: None, wait: duration }),
            PadCommand::Pause { duration } => r.push(PadStep { report: None, wait: duration }),
        }
        assert(r@ =~= steps(old(self).state, c));
        r
    }
}

// ---------------------------------------------------------------------------
// Laws
// ---------------------------------------------------------------------------

/// Two controls with the same code are the same control.
pub proof fn law_codes_differ(a: Button, b: Button)
    ensures
        a.code() == b.code() ==> a == b,
{
}

proof fn lemma_mask(raw: u16, b: u16)
    by (bit_vector)
    ensures
        (raw | b) & !b == raw & !b,
        raw & b == 0 ==> (raw | b) & !b == raw,
        (raw & !b) & b == 0,
        (raw | b) & b == b,
        (raw | b) | b == raw | b,
{
}

/// A press makes a control down, a release makes it up.
pub proof fn law_press_release(s: XGamepad, b: Button)
    ensures
        is_down(pressed(s, b.code()), b.code()),
        !is_down(released(s, b.code()), b.code()),
{
    lemma_mask(s.buttons, b.code());
}

/// A click gives back the state that it found, unless the control was down.
pub proof fn law_click_restores(s: XGamepad, b: Button, hold: u64, post: u64)
    requires
        !is_down(s, b.code()),
    ensures
        after(s, PadCommand::Click { button: b.code(), hold, post }) == s,
{
    lemma_mask(s.buttons, b.code());
}

/// To press a control twice is to press it once.
pub proof fn law_press_idempotent(s: XGamepad, b: Button)
    ensures
        pressed(pressed(s, b.code()), b.code()) == pressed(s, b.code()),
{
    lemma_mask(s.buttons, b.code());
}

proof fn lemma_other_bit(raw: u16, a: u16, b: u16)
    by (bit_vector)
    requires
        a & b == 0,
    ensures
        (raw | a) & b == raw & b,
        (raw & !a) & b == raw & b,
{
}

/// Whether a control is a button of its own, and no trigger.
pub open spec fn is_button(b: Button) -> bool {
    !(b is LT) && !(b is RT)
}

/// The code of a button is one bit.
spec fn bit_of(b: Button) -> u16 {
    match b {
        Button::Up => 0,
        Button::Down => 1,
        Button::Left => 2,
        Button::Right => 3,
        Button::Start => 4,
        Button::Back => 5,
        Button::LS => 6,
        Button::RS => 7,
        Button::LB => 8,
        Button::RB => 9,
        Button::Guide => 10,
        Button::A => 12,
        Button::B => 13,
        Button::X => 14,
        _ => 15,
    }
}

proof fn lemma_code_is_bit(b: Button)
    requires
        is_button(b),
    ensures
        b.code() == 1u16 << bit_of(b),
{
    assert(1u16 << 0 == 0x0001 && 1u16 << 1 == 0x0002 && 1u16 << 2 == 0x0004 && 1u16 << 3 == 0x0008
        && 1u16 << 4 == 0x0010 && 1u16 << 5 == 0x0020 && 1u16 << 6 == 0x0040 && 1u16 << 7 == 0x0080
        && 1u16 << 8 == 0x0100 && 1u16 << 9 == 0x0200 && 1u16 << 10 == 0x0400 && 1u16 << 12
        == 0x1000 && 1u16 << 13 == 0x2000 && 1u16 << 14 == 0x4000 && 1u16 << 15 == 0x8000)
        by (bit_vector);
}

/// To press or release one control changes no other.
pub proof fn law_controls_independent(s: XGamepad, a: Button, b: Button)
    requires
        a != b,
    ensures
        is_down(pressed(s, a.code()), b.code()) == is_down(s, b.code()),
        is_down(released(s, a.code()), b.code()) == is_down(s, b.code()),
{
    if is_button(a) && is_button(b) {
        lemma_code_is_bit(a);
        lemma_code_is_bit(b);
        let x = bit_of(a);
        let y = bit_of(b);
        assert((1u16 << x) & (1u16 << y) == 0) by (bit_vector)
            requires
                x < 16,
                y < 16,
                x != y,
        ;
        lemma_other_bit(s.buttons, a.code(), b.code());
    }
}

/// The codes of the controls, as the reports of a gamepad have them; the triggers
/// have codes of their own.
pub proof fn law_codes_of_the_report(b: Button)
    ensures
        b.code() == (match b {
            Button::Up => 1u16,
            Button::Down => 2,
            Button::Left => 4,
            Button::Right => 8,
            Button::Start => 16,
            Button::Back => 32,
            Button::LS => 64,
            Button::RS => 128,
            Button::LB => 256,
            Button::RB => 512,
            Button::Guide => 1024,
            Button::A => 4096,
            Button::B => 8192,
            Button::X => 16384,
            Button::Y => 32768,
            Button::LT => 0x0888,
            Button::RT => 0x1888,
        }),
{
}

/// To press or release a control changes what is reported of this control and
/// nothing else: a trigger goes to its end or back, a button gets its bit or loses
/// it, and the sticks stay.
pub proof fn law_press_changes_one_control(s: XGamepad, button: XButtons)
    ensures
        ({
            let (p, r) = (pressed(s, button), released(s, button));
            let (left, right) = (button == 0x0888, button == 0x1888);
            &&& p.left_trigger == (if left {
                255
            } else {
                s.left_trigger
            })
            &&& p.right_trigger == (if right {
                255
            } else {
                s.right_trigger
            })
            &&& p.buttons == (if left || right {
                s.buttons
            } else {
                s.buttons | button
            })
            &&& r.left_trigger == (if left {
                0
            } else {
                s.left_trigger
            })
            &&& r.right_trigger == (if right {
                0
            } else {
                s.right_trigger
            })
            &&& r.buttons == (if left || right {
                s.buttons
            } else {
                s.buttons & !button
            })
            &&& (p.thumb_lx, p.thumb_ly) == (s.thumb_lx, s.thumb_ly)
            &&& (p.thumb_rx, p.thumb_ry) == (s.thumb_rx, s.thumb_ry)
            &&& (r.thumb_lx, r.thumb_ly) == (s.thumb_lx, s.thumb_ly)
            &&& (r.thumb_rx, r.thumb_ry) == (s.thumb_rx, s.thumb_ry)
        }),
{
}

/// A stick goes where it is put and stays there; the other stick, the buttons and
/// the triggers are left as they are. A reset lets go of all.
pub proof fn law_sticks_go_where_they_are_put(s: XGamepad, x: i16, y: i16, duration: u64)
    ensures
        ({
            let l = after(s, PadCommand::LStick { x, y, duration });
            let r = after(s, PadCommand::RStick { x, y, duration });
            &&& (l.thumb_lx, l.thumb_ly, l.thumb_rx, l.thumb_ry) == (x, y, s.thumb_rx, s.thumb_ry)
            &&& (r.thumb_rx, r.thumb_ry, r.thumb_lx, r.thumb_ly) == (x, y, s.thumb_lx, s.thumb_ly)
            &&& (l.buttons, l.left_trigger, l.right_trigger) == (
                s.buttons,
                s.left_trigger,
                s.right_trigger,
            )
            &&& (r.buttons, r.left_trigger, r.right_trigger) == (
                s.buttons,
                s.left_trigger,
                s.right_trigger,
            )
        }),
        after(s, PadCommand::Rest { duration }) == s,
        after(s, PadCommand::Pause { duration }) == s,
        ({
            let n = after(s, PadCommand::Reset);
            &&& (n.buttons, n.left_trigger, n.right_trigger) == (0u16, 0u8, 0u8)
            &&& (n.thumb_lx, n.thumb_ly, n.thumb_rx, n.thumb_ry) == (0i16, 0i16, 0i16, 0i16)
        }),
{
}

/// What an operation reports and how long it waits: the last report is the state
/// behind it, a click reports the control down first, and a mere wait reports
/// nothing. The waits are those that were asked for, in their order.
pub proof fn law_operations_report_and_wait(s: XGamepad, c: PadCommand)
    ensures
        ({
            let l = steps(s, c);
            &&& c is Click ==> l.len() == 2
            &&& !(c is Click) ==> l.len() == 1
            &&& l.last().report == (if c is Rest || c is Pause {
                None
            } else {
                Some(after(s, c))
            })
            &&& match c {
                PadCommand::Press { button, hold } => l[0].wait == hold && after(s, c) == pressed(
                    s,
                    button,
                ),
                PadCommand::Release { button, post } => l[0].wait == post && after(s, c)
                    == released(s, button),
                PadCommand::Click { button, hold, post } => {
                    &&& l[0].wait == hold
                    &&& l[1].wait == post
                    &&& l[0].report == Some(pressed(s, button))
                    &&& after(s, c) == released(pressed(s, button), button)
                },
                PadCommand::LStick { x, y, duration } => l[0].wait == duration,
                PadCommand::RStick { x, y, duration } => l[0].wait == duration,
                PadCommand::Reset => l[0].wait == 0,
                PadCommand::Rest { duration } => l[0].wait == duration,
                PadCommand::Pause { duration } => l[0].wait == duration,
            }
        }),
{
}

/// Operations act one behind the other.
pub proof fn law_operations_in_order(s: XGamepad, list: Seq<PadCommand>, c: PadCommand)
    ensures
        after_all(s, Seq::empty()) == s,
        after_all(s, list.push(c)) == after(after_all(s, list), c),
{
    assert(list.push(c).drop_last() =~= list);
}

} // verus!
