use elysium::game::Args;
use elysium::game::GameType;
use elysium::layout::{config_areas, custom_areas, running_areas, Area};
use elysium::tui::{App, Mouse, UiAction};
use ratatui::layout::{Constraint, Direction, Layout, Rect};

fn area(x: u16, y: u16, width: u16, height: u16) -> Area {
    Area { x, y, width, height }
}

#[test]
fn first_page_is_laid_out() {
    let r = config_areas(area(0, 0, 80, 24));
    assert_eq!(r.games, area(0, 0, 20, 21));
    assert_eq!(r.tasks, area(20, 0, 24, 21));
    assert_eq!(r.params, area(44, 0, 36, 18));
    assert_eq!(r.custom, area(44, 18, 36, 3));
    assert_eq!(r.info, area(0, 21, 80, 1));
    assert_eq!(r.notice, area(0, 22, 80, 1));
    assert_eq!(r.hint, area(0, 23, 80, 1));
}

#[test]
fn other_pages_are_laid_out() {
    assert_eq!(custom_areas(area(3, 2, 40, 10)), (area(3, 2, 40, 9), area(3, 11, 40, 1)));
    assert_eq!(
        running_areas(area(0, 0, 40, 10)),
        (area(0, 0, 40, 1), area(0, 1, 40, 8), area(0, 9, 40, 1))
    );
}

#[test]
fn layout_is_that_of_the_terminal_crate() {
    let screen = Rect { x: 5, y: 7, width: 120, height: 40 };
    let rows = Layout::default()
        .direction(Direction::Vertical)
        .constraints([
            Constraint::Min(1),
            Constraint::Length(1),
            Constraint::Length(1),
            Constraint::Length(1),
        ])
        .split(screen);
    let columns = Layout::default()
        .direction(Direction::Horizontal)
        .constraints([
            Constraint::Percentage(25),
            Constraint::Percentage(30),
            Constraint::Percentage(45),
        ])
        .split(rows[0]);
    let r = config_areas(area(5, 7, 120, 40));
    let same = |a: Area, b: Rect| (a.x, a.y, a.width, a.height) == (b.x, b.y, b.width, b.height);
    assert!(same(r.games, columns[0]));
    assert!(same(r.tasks, columns[1]));
    assert!(same(r.info, rows[1]));
    assert!(same(r.hint, rows[3]));
}

#[test]
fn areas_lie_on_any_screen() {
    for (x, y, w, h) in [(0, 0, 0, 0), (0, 0, 1, 1), (9, 9, 3, 2), (65530, 65530, 5, 5)] {
        let s = area(x, y, w, h);
        let r = config_areas(s);
        for a in [r.games, r.tasks, r.params, r.custom, r.info, r.notice, r.hint] {
            assert!(a.x >= x && a.x + a.width <= x + w);
            assert!(a.y >= y && a.y + a.height <= y + h);
        }
    }
}

#[test]
fn clicks_go_by_the_layout() {
    let args = Args {
        game: None,
        task: None,
        strategy: String::new(),
        combo: String::new(),
        boost: 1,
        turn: 2,
        timeout: 3,
        exe: None,
        plan: Vec::new(),
    };
    let mut a = App::new(&args);
    let r = a.arrange(area(0, 0, 80, 24));
    assert_eq!(r, config_areas(area(0, 0, 80, 24)));
    assert_eq!(a.handle_mouse(Mouse::Click { col: 3, row: 2 }), UiAction::Scan);
    assert_eq!(a.selected_game(), GameType::Nte);
    assert_eq!(a.handle_mouse(Mouse::Click { col: 80, row: 1 }), UiAction::Nothing);
    assert_eq!(a.selected_game(), GameType::Nte);
}
