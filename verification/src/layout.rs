//! How the pages of the interface are laid out on the screen.

use vstd::prelude::*;

verus! {

/// An area of the screen, in character cells.
#[derive(Debug, Clone, Copy, PartialEq, Eq, Structural)]
pub struct Area {
    pub x: u16,
    pub y: u16,
    pub width: u16,
    pub height: u16,
}

/// Whether a cell lies in an area. What reaches past the last cell of the screen
/// is cut off.
pub open spec fn covers(a: Area, col: u16, row: u16) -> bool {
    &&& a.x <= col
    &&& col < a.x + a.width
    &&& col < u16::MAX
    &&& a.y <= row
    &&& row < a.y + a.height
    &&& row < u16::MAX
}

impl Area {
    /// Whether a cell lies in the area.
    pub fn contains(&self, col: u16, row: u16) -> (yes: bool)
        ensures
            yes == covers(*self, col, row),
    {
        let right: u16 = if self.width > u16::MAX - self.x {
            u16::MAX
        } else {
            self.x + self.width
        };
        let bottom: u16 = if self.height > u16::MAX - self.y {
            u16::MAX
        } else {
            self.y + self.height
        };
        self.x <= col && col < right && self.y <= row && row < bottom
    }
}

/// How much of an area one of its parts is to have.
#[derive(Debug, Clone, Copy, PartialEq, Eq, Structural)]
pub enum Share {
    /// At least so many cells.
    Least(u16),
    /// So many cells.
    Exactly(u16),
    /// So many hundredths.
    Percent(u16),
}

/// Whether an area lies in another one.
pub open spec fn within(a: Area, outer: Area) -> bool {
    &&& outer.x <= a.x
    &&& a.x + a.width <= outer.x + outer.width
    &&& outer.y <= a.y
    &&& a.y + a.height <= outer.y + outer.height
}

/// Whether an area reaches as far as another one across the direction in which
/// that one is divided: rows lie below each other, columns side by side.
pub open spec fn as_wide(a: Area, outer: Area, rows: bool) -> bool {
    if rows {
        a.x == outer.x && a.width == outer.width
    } else {
        a.y == outer.y && a.height == outer.height
    }
}

/// Whether `parts` can be what `ratatui::layout::Layout::split` makes of an area
/// that is divided into rows or columns with the given shares. Its solver goes
/// through hash tables, so where the shares leave a choice, the same area may be
/// divided differently another time.
pub uninterp spec fn split_outcome(
    area: Area,
    rows: bool,
    shares: Seq<Share>,
    parts: Seq<Area>,
) -> bool;

/// Calls `ratatui::layout::Layout::split` without margins and gaps. Trusted: the
/// result is a possible one for these arguments; there is a part for each share,
/// which lies in the area and reaches across all of it. How long the parts are,
/// and that none covers another, is left unsaid: both are wishes to the solver,
/// which it meets as well as it can.
#[verifier::external_body]
fn split(area: Area, rows: bool, shares: &Vec<Share>) -> (parts: Vec<Area>)
    ensures
        split_outcome(area, rows, shares@, parts@),
        parts@.len() == shares@.len(),
        forall|k: int|
            0 <= k < parts@.len() ==> within(#[trigger] parts@[k], area) && as_wide(
                parts@[k],
                area,
                rows,
            ),
{
    let wishes = shares.iter().map(|s| match s {
        Share::Least(n) => ratatui::layout::Constraint::Min(*n),
        Share::Exactly(n) => ratatui::layout::Constraint::Length(*n),
        Share::Percent(n) => ratatui::layout::Constraint::Percentage(*n),
    });
    let layout = match rows {
        true => ratatui::layout::Layout::vertical(wishes),
        false => ratatui::layout::Layout::horizontal(wishes),
    };
    let Area { x, y, width, height } = area;
    let parts = layout.split(ratatui::layout::Rect { x, y, width, height });
    parts.iter().map(|r| Area { x: r.x, y: r.y, width: r.width, height: r.height }).collect()
}

/// The areas of the first page: the three lists, the field for a script of one's
/// own, and the lines below them.
#[derive(Debug, Clone, Copy, PartialEq, Eq)]
pub struct ConfigAreas {
    pub games: Area,
    pub tasks: Area,
    pub params: Area,
    pub custom: Area,
    pub info: Area,
    pub notice: Area,
    pub hint: Area,
}

/// Whether the first page is divided as it is to be: three lines below a body of
/// three columns, of which the last has the field for a script at its end.
pub open spec fn divides_config(screen: Area, body: Area, side: Area, r: ConfigAreas) -> bool {
    &&& split_outcome(
        screen,
        true,
        seq![Share::Least(1), Share::Exactly(1), Share::Exactly(1), Share::Exactly(1)],
        seq![body, r.info, r.notice, r.hint],
    )
    &&& split_outcome(
        body,
        false,
        seq![Share::Percent(25), Share::Percent(30), Share::Percent(45)],
        seq![r.games, r.tasks, side],
    )
    &&& split_outcome(
        side,
        true,
        seq![Share::Least(1), Share::Exactly(3)],
        seq![r.params, r.custom],
    )
}

/// Whether areas are those of the first page on a screen. All of them lie on the
/// screen; the lists of games and tasks stand side by side, the parameters above
/// the field for a script.
pub open spec fn is_config_layout(screen: Area, r: ConfigAreas) -> bool {
    &&& exists|body: Area, side: Area| #[trigger] divides_config(screen, body, side, r)
    &&& within(r.games, screen)
    &&& within(r.tasks, screen)
    &&& within(r.params, screen)
    &&& within(r.custom, screen)
    &&& within(r.info, screen)
    &&& within(r.notice, screen)
    &&& within(r.hint, screen)
    &&& as_wide(r.games, r.tasks, false)
    &&& as_wide(r.params, r.custom, true)
    &&& as_wide(r.info, screen, true)
    &&& as_wide(r.notice, screen, true)
    &&& as_wide(r.hint, screen, true)
}

/// The areas of the first page on a screen.
pub fn config_areas(screen: Area) -> (r: ConfigAreas)
    ensures
        is_config_layout(screen, r),
{
    let rows: Vec<Area> = split(
        screen,
        true,
        &vec![Share::Least(1), Share::Exactly(1), Share::Exactly(1), Share::Exactly(1)],
    );
    let body: Area = rows[0];
    let columns: Vec<Area> = split(
        body,
        false,
        &vec![Share::Percent(25), Share::Percent(30), Share::Percent(45)],
    );
    let side: Area = columns[2];
    let fields: Vec<Area> = split(side, true, &vec![Share::Least(1), Share::Exactly(3)]);
    let r = ConfigAreas {
        games: columns[0],
        tasks: columns[1],
        params: fields[0],
        custom: fields[1],
        info: rows[1],
        notice: rows[2],
        hint: rows[3],
    };
    assert(rows@ =~= seq![body, r.info, r.notice, r.hint]);
    assert(columns@ =~= seq![r.games, r.tasks, side]);
    assert(fields@ =~= seq![r.params, r.custom]);
    assert(divides_config(screen, body, side, r));
    r
}

/// The areas of the page for a script of one's own: the script, and a line below
/// it.
pub fn custom_areas(screen: Area) -> (r: (Area, Area))
    ensures
        split_outcome(
            screen,
            true,
            seq![Share::Least(1), Share::Exactly(1)],
            seq![r.0, r.1],
        ),
        within(r.0, screen) && as_wide(r.0, screen, true),
        within(r.1, screen) && as_wide(r.1, screen, true),
{
    let rows: Vec<Area> = split(screen, true, &vec![Share::Least(1), Share::Exactly(1)]);
    assert(rows@ =~= seq![rows@[0], rows@[1]]);
    (rows[0], rows[1])
}

/// The areas of the page of a running task: a line, the log, and a line below it.
pub fn running_areas(screen: Area) -> (r: (Area, Area, Area))
    ensures
        split_outcome(
            screen,
            true,
            seq![Share::Exactly(1), Share::Least(1), Share::Exactly(1)],
            seq![r.0, r.1, r.2],
        ),
        within(r.0, screen) && as_wide(r.0, screen, true),
        within(r.1, screen) && as_wide(r.1, screen, true),
        within(r.2, screen) && as_wide(r.2, screen, true),
{
    let rows: Vec<Area> = split(
        screen,
        true,
        &vec![Share::Exactly(1), Share::Least(1), Share::Exactly(1)],
    );
    assert(rows@ =~= seq![rows@[0], rows@[1], rows@[2]]);
    (rows[0], rows[1], rows[2])
}

/// A cell lies in an area from its first column and row on, for as many columns and
/// rows as it has; the last column and row of all belong to none.
pub proof fn law_cells_of_an_area(a: Area, col: u16, row: u16)
    ensures
        covers(a, col, row) <==> {
            &&& 0 <= col - a.x < a.width
            &&& 0 <= row - a.y < a.height
            &&& col != 0xFFFF
            &&& row != 0xFFFF
        },
{
}

/// An area lies in another exactly when its edges do not go past those of the other;
/// then its cells are cells of the other.
pub proof fn law_areas_in_areas(a: Area, outer: Area, col: u16, row: u16)
    ensures
        within(a, outer) && covers(a, col, row) ==> covers(outer, col, row),
        within(a, outer) <==> {
            &&& a.x >= outer.x && a.y >= outer.y
            &&& a.x + a.width <= outer.x + outer.width
            &&& a.y + a.height <= outer.y + outer.height
        },
        as_wide(a, outer, true) <==> a.x == outer.x && a.width == outer.width,
        as_wide(a, outer, false) <==> a.y == outer.y && a.height == outer.height,
{
}

/// The first page is divided into a body and three lines of one cell below it, the
/// body into three columns of 25, 30 and 45 hundredths, and the last of them has
/// three cells for the field at its end.
pub proof fn law_first_page_is_divided(screen: Area, r: ConfigAreas)
    requires
        is_config_layout(screen, r),
    ensures
        exists|body: Area, side: Area|
            #![trigger divides_config(screen, body, side, r)]
            {
                &&& split_outcome(
                    screen,
                    true,
                    seq![Share::Least(1), Share::Exactly(1), Share::Exactly(1), Share::Exactly(1)],
                    seq![body, r.info, r.notice, r.hint],
                )
                &&& split_outcome(
                    body,
                    false,
                    seq![Share::Percent(25), Share::Percent(30), Share::Percent(45)],
                    seq![r.games, r.tasks, side],
                )
                &&& split_outcome(
                    side,
                    true,
                    seq![Share::Least(1), Share::Exactly(3)],
                    seq![r.params, r.custom],
                )
            },
        within(r.games, screen) && within(r.tasks, screen),
        within(r.params, screen) && within(r.custom, screen),
        within(r.info, screen) && within(r.notice, screen) && within(r.hint, screen),
        r.games.y == r.tasks.y && r.games.height == r.tasks.height,
        r.params.x == r.custom.x && r.params.width == r.custom.width,
        r.info.x == screen.x && r.info.width == screen.width,
        r.notice.x == screen.x && r.notice.width == screen.width,
        r.hint.x == screen.x && r.hint.width == screen.width,
{
    let (body, side) = choose|body: Area, side: Area|
        #[trigger] divides_config(screen, body, side, r);
    assert(divides_config(screen, body, side, r));
}

} // verus!
