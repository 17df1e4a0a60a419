use elysium::input::{PadCommand, A, B, BACK, DOWN, LB, LEFT, RB, RIGHT, RT, X};
use elysium::teleport::{
    area_roi, confirm_journey, counter_action, current_area, dodge_action, find_area, is_loaded,
    locate, map_text, open_areas, open_map, wait_loading, wake_up, Loading, LocateError,
};
use elysium::vision::Image;

fn list(names: &[&str]) -> Vec<String> {
    names.iter().map(|s| s.to_string()).collect()
}

#[test]
fn areas_are_found() {
    let areas = list(&["东", "西", "南", "西"]);
    assert_eq!(find_area(&areas, "西"), Ok(1));
    assert_eq!(find_area(&areas, "北"), Err(LocateError::UnknownArea));
    assert_eq!(find_area(&vec![], "北"), Err(LocateError::NoAreas));
}

#[test]
fn area_of_the_map_is_recognised() {
    let areas = list(&["东区", "西区", "区"]);
    assert_eq!(current_area(&areas, &list(&[" 西 ", "区x"])), Some(1));
    assert_eq!(current_area(&areas, &list(&["中区"])), Some(2));
    assert_eq!(current_area(&areas, &list(&["东"])), None);
    assert_eq!(current_area(&areas, &vec![]), None);
}

fn tap(button: u16, post: u64) -> PadCommand {
    PadCommand::Click { button, hold: 100_000, post }
}

#[test]
fn point_is_located() {
    let areas = list(&["a", "b", "c", "d", "e"]);
    let r = locate(&areas, 4, &list(&["b"]), 2, 3).unwrap();
    assert_eq!(
        r,
        vec![
            (0, tap(RIGHT, 300_000)),
            (2, tap(LEFT, 300_000)),
            (2, tap(DOWN, 200_000)),
            (1, tap(A, 200_000)),
            (4, tap(DOWN, 200_000)),
            (1, PadCommand::Click { button: A, hold: 300_000, post: 1_700_000 }),
            (1, tap(B, 300_000)),
            (1, PadCommand::Release { button: RT, post: 0 }),
        ]
    );
    let r = locate(&areas, 3, &list(&["b"]), -5, -1).unwrap();
    assert_eq!(r[0].0, 2);
    assert_eq!(r[1].0, 0);
    assert_eq!(r[2].0, 0);
    assert_eq!(r[4].0, 0);
    let r = locate(&areas, 1, &list(&["b"]), 0, i64::MAX).unwrap();
    assert_eq!((r[0].0, r[1].0), (0, 0));
    assert_eq!(r[4].0, 1u64 << 63);
    assert_eq!(locate(&areas, 0, &list(&["?"]), 0, 0), Err(LocateError::UnknownPlace));
}

#[test]
fn map_is_turned_the_short_way() {
    for n in 1..9usize {
        let names: Vec<String> = (0..n).map(|i| format!("<{}>", i)).collect();
        for current in 0..n {
            for target in 0..n {
                let r = locate(&names, target, &vec![names[current].clone()], 0, 0).unwrap();
                let turn = r[0].0 as i64 - r[1].0 as i64;
                let n = n as i64;
                assert_eq!((current as i64 + turn).rem_euclid(n), target as i64);
                assert!(2 * turn.abs() <= n);
                let mut d = (target as i64 - current as i64).rem_euclid(n);
                if d > n / 2 {
                    d -= n;
                }
                assert_eq!(turn, d);
            }
        }
    }
}

#[test]
fn fixed_operations() {
    assert_eq!(
        open_areas(),
        vec![PadCommand::Press { button: RT, hold: 0 }, tap(RB, 300_000)]
    );
    assert_eq!(area_roi(), (974, 132, 200, 30));
    assert_eq!(open_map(), tap(BACK, 1_700_000));
    let c = PadCommand::Click { button: A, hold: 300_000, post: 200_000 };
    assert_eq!(
        confirm_journey(),
        vec![c, c, c, PadCommand::Click { button: A, hold: 500_000, post: 4_000_000 }]
    );
    assert_eq!(wake_up(), PadCommand::Click { button: LB, hold: 33_400, post: 0 });
    assert_eq!(
        dodge_action(),
        vec![
            PadCommand::Click { button: RB, hold: 33_400, post: 33_400 },
            PadCommand::Click { button: RB, hold: 200_000, post: 0 }
        ]
    );
    assert_eq!(
        counter_action(),
        vec![
            PadCommand::Click { button: X, hold: 33_400, post: 33_400 },
            PadCommand::Click { button: X, hold: 200_000, post: 0 }
        ]
    );
}

#[test]
fn loading_is_over_when_the_marks_are_white() {
    let mut img = Image { width: 1280, height: 720, data: vec![0; 1280 * 720 * 3] };
    assert_eq!(is_loaded(&img), Some(false));
    for (x, y) in [(32usize, 134usize), (902, 37), (1182, 37)] {
        let at = (y * 1280 + x) * 3;
        img.data[at..at + 3].copy_from_slice(&[241, 255, 250]);
    }
    assert_eq!(is_loaded(&img), Some(true));
    let at = (134 * 1280 + 26) * 3;
    img.data[at..at + 3].copy_from_slice(&[255, 255, 255]);
    assert_eq!(is_loaded(&img), Some(false));
    assert_eq!(is_loaded(&Image { width: 3, height: 3, data: vec![0; 27] }), None);
}

#[test]
fn loading_is_looked_for_200_times() {
    assert_eq!(wait_loading(0, true), Loading::Done);
    let mut looks = 0;
    let mut count = 1;
    while let Loading::Again { looks: next } = wait_loading(looks, false) {
        looks = next;
        count += 1;
    }
    assert_eq!(count, 200);
    assert_eq!(wait_loading(199, false), Loading::GiveUp);
    assert_eq!(wait_loading(199, true), Loading::Done);
}

#[test]
fn map_text_is_run_together() {
    let lines: Vec<String> = [" 东 ", "", "a b\t"].iter().map(|s| s.to_string()).collect();
    assert_eq!(map_text(&lines), "东a b");
    assert_eq!(map_text(&vec![]), "");
}
