use elysium::cli::{
    after_item, dispatch, next_item, parameters, plan_item, quote, script_directories,
    script_path, Branch, PlanError, PlanMove,
};
use elysium::game::{Args, GameType};

fn plain_args() -> Args {
    Args {
        game: Some(GameType::Dna),
        task: None,
        exe: None,
        plan: vec![],
        boost: 0,
        strategy: "".to_string(),
        combo: "".to_string(),
        turn: 99,
        timeout: 0,
    }
}

fn with_task(t: &str) -> Args {
    let mut a = plain_args();
    a.task = Some(t.to_string());
    a
}

#[test]
fn branches_of_the_program() {
    assert!(matches!(dispatch(&with_task("x"), false), Branch::Elevate));
    let mut a = plain_args();
    a.game = None;
    assert!(matches!(dispatch(&a, true), Branch::Interface));
    assert!(matches!(dispatch(&plain_args(), true), Branch::NoTask));
    assert!(matches!(dispatch(&with_task("shot"), true), Branch::Shot(GameType::Dna)));
    assert!(matches!(dispatch(&with_task("act"), true), Branch::Activate(GameType::Dna)));
    assert!(matches!(dispatch(&with_task("launch"), true), Branch::Launch(GameType::Dna)));
    match dispatch(&with_task("通用任务"), true) {
        Branch::Task(g, t) => {
            assert_eq!(g, GameType::Dna);
            assert_eq!(t, "通用任务");
        }
        _ => panic!(),
    }
    let mut a = with_task("shot");
    a.plan = vec!["x".to_string()];
    assert!(matches!(dispatch(&a, true), Branch::Plan(GameType::Dna)));
}

#[test]
fn arguments_are_quoted() {
    assert_eq!(quote("dna"), "dna");
    assert_eq!(quote(""), "");
    assert_eq!(quote("a b"), "\"a b\"");
    assert_eq!(quote("a\tb"), "\"a\tb\"");
    assert_eq!(quote("say \"hi\""), "\"say \\\"hi\\\"\"");
    assert_eq!(quote("\"x\""), "\"x\"");
    assert_eq!(
        parameters(&vec!["dna".to_string(), "C:\\my game\\x.exe".to_string()]),
        "dna \"C:\\my game\\x.exe\""
    );
    assert_eq!(parameters(&vec![]), "");
}

#[test]
fn item_without_parameters() {
    let (t, a) = plan_item(&plain_args(), "任务A").unwrap();
    assert_eq!(t, "任务A");
    assert_eq!((a.boost, a.turn, a.timeout), (0, 99, 0));
    let (t, a) = plan_item(&plain_args(), "任务A:").unwrap();
    assert_eq!(t, "任务A");
    assert_eq!(a.turn, 99);
}

#[test]
fn item_with_parameters() {
    let (t, a) = plan_item(&plain_args(), "任务A:b=3,t=20,,s=x=y,c=j1:l2,o=18446744073709551615").unwrap();
    assert_eq!(t, "任务A");
    assert_eq!(a.boost, 3);
    assert_eq!(a.turn, 20);
    assert_eq!(a.strategy, "x=y");
    assert_eq!(a.combo, "j1:l2");
    assert_eq!(a.timeout, u64::MAX);
    assert_eq!(a.game, Some(GameType::Dna));
    let (_, a) = plan_item(&plain_args(), "t:b=1,b=2").unwrap();
    assert_eq!(a.boost, 2);
}

#[test]
fn items_that_are_refused() {
    let message = |s: &str| match plan_item(&plain_args(), s) {
        Ok(_) => panic!("accepted"),
        Err(e) => e.message(),
    };
    assert_eq!(message(":b=1"), "计划项格式错误：:b=1");
    assert_eq!(message(""), "计划项格式错误：");
    assert_eq!(message("t:b"), "计划项参数格式错误：b（示例：任务A:b=3,t=20）");
    assert_eq!(message("t:b=x"), "boost 必须是数字");
    assert_eq!(message("t:b=4294967296"), "boost 必须是数字");
    assert_eq!(message("t:t=-1"), "turn 必须是数字");
    assert_eq!(message("t:o="), "timeout 必须是数字");
    assert_eq!(message("t:q=1"), "未知参数：q（可用 b/s/c/t/o）");
    assert_eq!(message("t:bb=1,b=x"), "未知参数：bb（可用 b/s/c/t/o）");
    assert!(matches!(plan_item(&plain_args(), "t:=1"), Err(PlanError::Unknown(_))));
}

#[test]
fn paths_of_scripts() {
    assert_eq!(script_path("dna", "钓鱼", true), vec!["user-dna-scripts", "钓鱼.rhai"]);
    assert_eq!(script_path("dna", "钓鱼", false), vec!["dna", "scripts", "钓鱼.rhai"]);
    assert_eq!(script_directories("nte"), vec!["nte/scripts", "user-nte-scripts"]);
}

#[test]
fn plan_is_run_in_order() {
    let mut a = plain_args();
    a.plan = ["x:b=3", "y", ":b=1", "z"].iter().map(|s| s.to_string()).collect();
    match next_item(&a, 0) {
        PlanMove::Run { task, args } => assert_eq!((task.as_str(), args.boost), ("x", 3)),
        _ => panic!("x is run first"),
    }
    match after_item(&a, 0, false) {
        PlanMove::Run { task, args } => assert_eq!((task.as_str(), args.boost), ("y", 0)),
        _ => panic!("y comes next"),
    }
    assert!(matches!(after_item(&a, 0, true), PlanMove::Stop));
    match after_item(&a, 1, false) {
        PlanMove::Fail(PlanError::NoTask(s)) => assert_eq!(s, ":b=1"),
        _ => panic!("the third item is refused"),
    }
    assert!(matches!(next_item(&a, 4), PlanMove::Done));
    assert!(matches!(after_item(&a, 3, false), PlanMove::Done));
    assert!(matches!(next_item(&plain_args(), 0), PlanMove::Done));
}
