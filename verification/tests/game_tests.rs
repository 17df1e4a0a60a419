use elysium::game::{Args, GameType};

#[test]
fn names_of_the_games() {
    assert_eq!(GameType::Dna.name(), "dna");
    assert_eq!(GameType::Dna.display(), "两个陀螺");
    assert_eq!(GameType::Dna.title(), "二重螺旋  ");
    assert_eq!(GameType::Nte.name(), "nte");
    assert_eq!(GameType::Nte.display(), "海特洛");
    assert_eq!(GameType::Nte.title(), "异环  ");
    assert_eq!(GameType::Ap.name(), "ap");
    assert_eq!(GameType::Ap.display(), "蓝色星原：旅谣");
    assert_eq!(GameType::Ap.title(), "AzurPromilia");
}

#[test]
fn games_differ_in_name_and_title() {
    let all = [GameType::Ap, GameType::Dna, GameType::Nte];
    for a in all {
        for b in all {
            assert_eq!(a.name() == b.name(), a == b);
            assert_eq!(a.title() == b.title(), a == b);
        }
    }
}

#[test]
fn arguments_are_copied() {
    let a = Args {
        game: Some(GameType::Nte),
        task: Some("x".to_string()),
        exe: None,
        plan: vec!["p:b=1".to_string(), "q".to_string()],
        boost: 1,
        strategy: "s".to_string(),
        combo: "c".to_string(),
        turn: 2,
        timeout: 3,
    };
    let b = a.clone();
    assert_eq!(b.game, Some(GameType::Nte));
    assert_eq!(b.task, Some("x".to_string()));
    assert_eq!(b.exe, None);
    assert_eq!(b.plan, a.plan);
    assert_eq!((b.boost, b.turn, b.timeout), (1, 2, 3));
    assert_eq!((b.strategy.as_str(), b.combo.as_str()), ("s", "c"));
}
