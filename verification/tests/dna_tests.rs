use elysium::dna::{
    has_script_ended, reset_task, task_ended, task_started, Effect, Phase, Request, RunEvent,
    RunLoop,
};
use elysium::input::PadCommand;
use elysium::vision::Image;

fn frame(w: u32, h: u32, v: u8) -> Image {
    Image { width: w, height: h, data: vec![v; (w * h * 3) as usize] }
}

fn paint(img: &mut Image, x: u32, y: u32, c: [u8; 3]) {
    let at = ((y * img.width + x) * 3) as usize;
    img.data[at..at + 3].copy_from_slice(&c);
}

#[test]
fn end_of_a_task_is_seen_in_each_row() {
    for y in [654, 663, 672] {
        for left in [879, 880, 881] {
            for right in [1123, 1124, 1125] {
                let mut img = frame(1280, 720, 200);
                assert_eq!(task_ended(&img), Some(false));
                paint(&mut img, left, y, [0, 0, 0]);
                assert_eq!(task_ended(&img), Some(false));
                paint(&mut img, right, y, [0, 0, 0]);
                assert_eq!(task_ended(&img), Some(true));
                paint(&mut img, 900, 681, [0, 0, 0]);
                assert_eq!(task_ended(&img), Some(false));
            }
        }
    }
}

#[test]
fn marks_in_different_rows_are_no_end() {
    let mut img = frame(1280, 720, 200);
    paint(&mut img, 880, 654, [0, 0, 0]);
    paint(&mut img, 1124, 663, [0, 0, 0]);
    assert_eq!(task_ended(&img), Some(false));
    paint(&mut img, 1124, 654, [0, 0, 1]);
    assert_eq!(task_ended(&img), Some(false));
}

#[test]
fn black_frame_shows_no_end() {
    assert_eq!(task_ended(&frame(1280, 720, 0)), Some(false));
}

#[test]
fn small_frames_are_seen_as_far_as_needed() {
    assert_eq!(task_ended(&frame(0, 0, 0)), None);
    assert_eq!(task_ended(&frame(1280, 654, 0)), None);
    assert_eq!(task_ended(&frame(882, 673, 9)), Some(false));
    assert_eq!(task_ended(&frame(882, 673, 0)), None);
    assert_eq!(task_started(&frame(10, 10, 0)), None);
    assert_eq!(task_started(&frame(116, 691, 0)), Some(false));
}

#[test]
fn start_of_a_task_is_seen() {
    let mut img = frame(1280, 720, 0);
    assert_eq!(task_started(&img), Some(false));
    paint(&mut img, 115, 690, [147, 205, 158]);
    paint(&mut img, 225, 690, [143, 209, 162]);
    assert_eq!(task_started(&img), Some(true));
    paint(&mut img, 115, 695, [143, 209, 158]);
    assert_eq!(task_started(&img), Some(false));
    paint(&mut img, 115, 695, [143, 209, 163]);
    assert_eq!(task_started(&img), Some(true));
    paint(&mut img, 115, 690, [148, 209, 158]);
    assert_eq!(task_started(&img), Some(false));
}

#[test]
fn reset_is_three_clicks() {
    let list = reset_task();
    assert_eq!(list.len(), 5);
    assert_eq!(list[0], PadCommand::Reset);
    assert_eq!(list[1], PadCommand::Pause { duration: 1_000_000 });
    assert_eq!(list[2], PadCommand::Click { button: 0x0010, hold: 100_000, post: 300_000 });
    assert_eq!(list[3], PadCommand::Click { button: 0x4000, hold: 100_000, post: 300_000 });
    assert_eq!(list[4], PadCommand::Click { button: 0x1000, hold: 100_000, post: 300_000 });
}

#[test]
fn scripts_may_tell_the_end_themselves() {
    assert!(has_script_ended(&vec!["a".to_string(), "task_ended".to_string()]));
    assert!(!has_script_ended(&vec!["task_end".to_string()]));
}

fn turn(s: &mut RunLoop, e: RunEvent) -> (Vec<Effect>, Request) {
    let r = s.turn(e).unwrap();
    (r.effects, r.request)
}

fn flags(finished: bool, exit: bool, reset: bool, elapsed: u128) -> RunEvent {
    RunEvent::Flags { finished, exit, reset, elapsed }
}

#[test]
fn single_task_runs_once() {
    let mut s = RunLoop::new(false, 10);
    assert_eq!(
        turn(&mut s, RunEvent::Exit(false)),
        (vec![Effect::ClearStop, Effect::Unpause, Effect::Spawn], Request::Clock)
    );
    assert_eq!(turn(&mut s, RunEvent::Elapsed(9_000_000_000)), (vec![], Request::Flags));
    assert_eq!(
        turn(&mut s, flags(false, false, false, 9_000_000_000)),
        (vec![Effect::Rest], Request::Clock)
    );
    assert_eq!(turn(&mut s, RunEvent::Elapsed(9_500_000_000)), (vec![], Request::Flags));
    assert_eq!(
        turn(&mut s, flags(true, false, false, 9_500_000_000)),
        (vec![Effect::Join, Effect::StopCombo, Effect::ClearStop], Request::Return(true))
    );
    assert_eq!(s.phase, Phase::Over);
}

#[test]
fn single_task_that_takes_too_long_is_reset() {
    let mut s = RunLoop::new(false, 1);
    turn(&mut s, RunEvent::Exit(false));
    turn(&mut s, RunEvent::Elapsed(0));
    let (effects, request) = turn(&mut s, flags(false, false, false, 1_000_000_001));
    assert_eq!(
        effects,
        vec![
            Effect::RaiseStop,
            Effect::Join,
            Effect::StopCombo,
            Effect::ClearStop,
            Effect::SayTimeout,
            Effect::ResetTask
        ]
    );
    assert_eq!(request, Request::Return(true));
}

#[test]
fn wish_to_start_over_runs_the_script_again() {
    let mut s = RunLoop::new(false, 100);
    turn(&mut s, RunEvent::Exit(false));
    turn(&mut s, RunEvent::Elapsed(0));
    let (effects, request) = turn(&mut s, flags(false, false, true, 5));
    assert_eq!(
        effects,
        vec![
            Effect::ClearReset,
            Effect::RaiseStop,
            Effect::Join,
            Effect::StopCombo,
            Effect::ClearStop,
            Effect::SayReset,
            Effect::ResetTask
        ]
    );
    assert_eq!(request, Request::Exit);
    assert_eq!(turn(&mut s, RunEvent::Exit(true)), (vec![], Request::Return(true)));
}

#[test]
fn repeated_task_waits_for_the_end_and_sees_it_twice() {
    let mut s = RunLoop::new(true, 100);
    assert_eq!(
        turn(&mut s, RunEvent::Exit(false)),
        (vec![Effect::ClearStop, Effect::SayWaiting], Request::Detect)
    );
    assert_eq!(turn(&mut s, RunEvent::Detected(Some(false))), (vec![], Request::Exit));
    assert_eq!(turn(&mut s, RunEvent::Exit(false)), (vec![Effect::Rest], Request::Detect));
    assert_eq!(
        turn(&mut s, RunEvent::Detected(Some(true))),
        (vec![Effect::Unpause, Effect::Spawn], Request::Clock)
    );
    assert_eq!(turn(&mut s, RunEvent::Elapsed(4_999_999_999)), (vec![], Request::Flags));
    assert_eq!(
        turn(&mut s, flags(false, false, false, 4_999_999_999)),
        (vec![Effect::Rest], Request::Clock)
    );
    assert_eq!(turn(&mut s, RunEvent::Elapsed(5_000_000_000)), (vec![], Request::Detect));
    assert_eq!(turn(&mut s, RunEvent::Detected(Some(true))), (vec![Effect::Rest], Request::Detect));
    assert_eq!(turn(&mut s, RunEvent::Detected(Some(false))), (vec![], Request::Flags));
    assert_eq!(
        turn(&mut s, flags(false, false, false, 6_000_000_000)),
        (vec![Effect::Rest], Request::Clock)
    );
    assert_eq!(turn(&mut s, RunEvent::Elapsed(0)), (vec![], Request::Detect));
    turn(&mut s, RunEvent::Detected(Some(true)));
    assert_eq!(
        turn(&mut s, RunEvent::Detected(Some(true))),
        (
            vec![Effect::RaiseStop, Effect::Join, Effect::StopCombo, Effect::ClearStop],
            Request::Exit
        )
    );
    assert_eq!(s.phase, Phase::Begin);
}

#[test]
fn repeated_task_goes_on_behind_its_script() {
    let mut s = RunLoop::new(true, 100);
    turn(&mut s, RunEvent::Exit(false));
    turn(&mut s, RunEvent::Detected(Some(true)));
    turn(&mut s, RunEvent::Elapsed(0));
    assert_eq!(turn(&mut s, flags(true, true, true, 0)).1, Request::Exit);
    turn(&mut s, RunEvent::Exit(false));
    turn(&mut s, RunEvent::Detected(Some(true)));
    turn(&mut s, RunEvent::Elapsed(0));
    assert_eq!(turn(&mut s, flags(false, true, true, 0)).1, Request::Return(true));
}

#[test]
fn look_that_fails_ends_the_loop() {
    let mut s = RunLoop::new(true, 100);
    turn(&mut s, RunEvent::Exit(false));
    assert_eq!(turn(&mut s, RunEvent::Detected(None)), (vec![], Request::Return(false)));
    let mut s = RunLoop::new(true, 100);
    turn(&mut s, RunEvent::Exit(false));
    turn(&mut s, RunEvent::Detected(Some(true)));
    turn(&mut s, RunEvent::Elapsed(5_000_000_000));
    assert_eq!(turn(&mut s, RunEvent::Detected(None)), (vec![], Request::Return(false)));
}

#[test]
fn leaving_while_the_end_is_waited_for() {
    let mut s = RunLoop::new(true, 100);
    turn(&mut s, RunEvent::Exit(false));
    turn(&mut s, RunEvent::Detected(Some(false)));
    assert_eq!(turn(&mut s, RunEvent::Exit(true)), (vec![], Request::Return(true)));
}

#[test]
fn wrong_answers_are_ignored() {
    let mut s = RunLoop::new(true, 100);
    assert!(s.turn(RunEvent::Elapsed(0)).is_none());
    assert!(s.turn(RunEvent::Detected(Some(true))).is_none());
    assert_eq!(s, RunLoop::new(true, 100));
}

#[test]
fn effects_that_are_said() {
    assert_eq!(Effect::SayWaiting.message(), Some("等待任务结束"));
    assert_eq!(Effect::SayReset.message(), Some("手动重置"));
    assert_eq!(Effect::SayTimeout.message(), Some("任务超时，正在重置"));
    assert_eq!(Effect::Join.message(), None);
}
