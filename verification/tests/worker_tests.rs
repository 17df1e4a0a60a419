use elysium::game::GameType;
use elysium::script_engine::StopReason;
use elysium::worker::{check, effective_timeout, is_reusable, watch, SharedState, Watch};

#[test]
fn check_takes_the_reasons_in_order() {
    let mut reset = true;
    let mut stop = false;
    assert_eq!(check(true, true, &mut reset, &mut stop, 0, 5), Some(StopReason::Finished));
    assert!(reset);
    assert!(!stop);
    assert_eq!(check(false, true, &mut reset, &mut stop, 0, 5), Some(StopReason::Exit));
    assert!(reset);
    assert!(stop);
    stop = false;
    assert_eq!(check(false, false, &mut reset, &mut stop, 0, 5), Some(StopReason::Reset));
    assert!(!reset);
    assert!(stop);
    stop = false;
    assert_eq!(check(false, false, &mut reset, &mut stop, 0, 5), Some(StopReason::Timeout));
    assert!(stop);
    stop = false;
    assert_eq!(check(false, false, &mut reset, &mut stop, 1, 1_000_000_000), None);
    assert!(!stop);
    assert_eq!(
        check(false, false, &mut reset, &mut stop, 1, 1_000_000_001),
        Some(StopReason::Timeout)
    );
    assert_eq!(check(false, false, &mut reset, &mut stop, u64::MAX, u128::MAX), Some(StopReason::Timeout));
}

#[test]
fn time_that_is_over_stays_over() {
    let mut reset = false;
    let mut stop = false;
    for elapsed in [2_000_000_001u128, 2_000_000_002, 9_000_000_000] {
        assert_eq!(
            check(false, false, &mut reset, &mut stop, 2, elapsed),
            Some(StopReason::Timeout)
        );
    }
}

#[test]
fn watch_rests_or_joins() {
    let mut reset = false;
    let mut stop = false;
    assert_eq!(watch(500_000, false, false, &mut reset, &mut stop, 10, 1), Watch::Rest(500_000));
    assert_eq!(watch(100_000, false, false, &mut reset, &mut stop, 10, 1), Watch::Rest(100_000));
    assert!(!stop);
    assert_eq!(watch(500_000, true, false, &mut reset, &mut stop, 10, 1), Watch::Join);
    assert!(!stop);
    assert_eq!(watch(500_000, false, true, &mut reset, &mut stop, 10, 1), Watch::Join);
    assert!(stop);
}

#[test]
fn what_the_user_says_goes_before_the_script() {
    assert_eq!(effective_timeout(0, 86400), 86400);
    assert_eq!(effective_timeout(5, 86400), 5);
}

#[test]
fn resources_of_the_same_game_are_used_again() {
    assert!(is_reusable(Some(GameType::Nte), GameType::Nte));
    assert!(!is_reusable(Some(GameType::Nte), GameType::Dna));
    assert!(!is_reusable(None, GameType::Dna));
}

#[test]
fn log_lines_have_the_time() {
    let mut s = SharedState::new();
    assert!(!s.running);
    assert!(s.error.is_none());
    s.push_log(0, "正在捕获窗口");
    s.push_log(3661, "b");
    s.push_log(360_000, "c");
    let lines: Vec<&str> = s.logs.iter().map(|l| l.as_str()).collect();
    assert_eq!(lines, vec!["[00:00:00] 正在捕获窗口", "[01:01:01] b", "[100:00:00] c"]);
}

#[test]
fn only_the_last_lines_are_kept() {
    let mut s = SharedState::new();
    for i in 0..250u64 {
        s.push_log(i, "x");
    }
    assert_eq!(s.logs.len(), 200);
    assert_eq!(s.logs[0], "[00:00:50] x");
    assert_eq!(s.logs[199], "[00:04:09] x");
}

#[test]
fn error_ends_the_task() {
    let mut s = SharedState::new();
    s.set_running();
    assert!(s.running);
    s.set_error("坏了".to_string());
    assert!(!s.running);
    assert_eq!(s.error, Some("坏了".to_string()));
}

#[test]
fn end_of_a_task_is_logged() {
    let mut s = SharedState::new();
    s.set_running();
    s.end_task(61, Some("e"));
    assert!(!s.running);
    assert_eq!(s.logs[0], "[00:01:01] 任务出错：e");
    assert_eq!(s.logs[1], "[00:01:01] 任务已停止");
    let mut s = SharedState::new();
    s.end_task(0, None);
    assert_eq!(s.logs.len(), 1);
    assert_eq!(s.logs[0], "[00:00:00] 任务已停止");
    let mut s = SharedState::new();
    s.set_running();
    s.end_custom(1);
    assert!(!s.running);
    assert_eq!(s.logs[0], "[00:00:01] 脚本执行结束");
}
