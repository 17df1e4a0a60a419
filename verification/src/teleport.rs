//! The way through the map of the game `nte` to a teleport point. Times are in
//! microseconds.

use vstd::prelude::*;
use crate::input::{
    after, after_all, neutral, PadCommand, XGamepad, A, B, BACK, DOWN, LB, LEFT, RB, RIGHT, RT, X,
};
use crate::text::{
    chars_of, contains_text, has_part, same, string_of, texts, trim, trimmed,
};
use crate::vision::{both, opposite, see_both, see_like, see_opposite, seen_like, Image, Seen};

verus! {

// ---------------------------------------------------------------------------
// Areas
// ---------------------------------------------------------------------------

/// Whether the first area that satisfies a condition stands at place `i`.
pub open spec fn is_first(list: Seq<Seq<char>>, p: spec_fn(Seq<char>) -> bool, i: int) -> bool {
    &&& 0 <= i < list.len()
    &&& p(list[i])
    &&& forall|k: int| 0 <= k < i ==> !p(#[trigger] list[k])
}

/// Whether no area satisfies a condition.
pub open spec fn is_none(list: Seq<Seq<char>>, p: spec_fn(Seq<char>) -> bool) -> bool {
    forall|k: int| 0 <= k < list.len() ==> !p(#[trigger] list[k])
}

/// Why a point is not located.
#[derive(Debug, Clone, Copy, PartialEq, Eq, Structural)]
pub enum LocateError {
    NoAreas,
    UnknownArea,
    UnknownPlace,
}

/// The place of an area in the list.
pub fn find_area(areas: &Vec<String>, area: &str) -> (r: Result<usize, LocateError>)
    ensures
        match r {
            Ok(i) => is_first(texts(areas@), |a: Seq<char>| a == area@, i as int),
            Err(LocateError::NoAreas) => areas@.len() == 0,
            Err(LocateError::UnknownArea) => areas@.len() > 0 && is_none(
                texts(areas@),
                |a: Seq<char>| a == area@,
            ),
            Err(LocateError::UnknownPlace) => false,
        },
{
    if areas.len() == 0 {
        return Err(LocateError::NoAreas);
    }
    let mut i: usize = 0;
    while i < areas.len()
        invariant
            i <= areas@.len(),
            areas@.len() > 0,
            forall|k: int| 0 <= k < i ==> (#[trigger] texts(areas@)[k]) != area@,
        decreases areas@.len() - i,
    {
        if same(areas[i].as_str(), area) {
            assert(texts(areas@)[i as int] == area@);
            return Ok(i);
        }
        i += 1;
    }
    Err(LocateError::UnknownArea)
}

/// Texts one behind the other, each without the white space around it.
pub open spec fn run_together(list: Seq<Seq<char>>) -> Seq<char>
    decreases list.len(),
{
    if list.len() == 0 {
        seq![]
    } else {
        run_together(list.drop_last()) + trim(list.last())
    }
}

fn join_lines(lines: &Vec<String>) -> (r: Vec<char>)
    ensures
        r@ == run_together(texts(lines@)),
{
    let mut r: Vec<char> = Vec::new();
    let mut i: usize = 0;
    let ghost all = texts(lines@);
    assert(all.take(0) =~= seq![]);
    while i < lines.len()
        invariant
            i <= lines@.len(),
            all == texts(lines@),
            r@ == run_together(all.take(i as int)),
        decreases lines@.len() - i,
    {
        let mut part: Vec<char> = trimmed(&chars_of(lines[i].as_str()));
        proof {
            assert(all.take(i + 1).drop_last() =~= all.take(i as int));
            assert(all.take(i + 1).last() == lines@[i as int]@);
        }
        r.append(&mut part);
        i += 1;
    }
    assert(all.take(i as int) =~= all);
    r
}

/// The lines of text that were read on the map, without the blanks around them,
/// one behind the other.
pub fn map_text(lines: &Vec<String>) -> (r: String)
    ensures
        r@ == run_together(texts(lines@)),
{
    string_of(&join_lines(lines))
}

/// The area that the map shows now, by the lines of text that were read there:
/// the first one whose name occurs in them.
pub fn current_area(areas: &Vec<String>, lines: &Vec<String>) -> (r: Option<usize>)
    ensures
        match r {
            Some(i) => is_first(
                texts(areas@),
                |a: Seq<char>| contains_text(run_together(texts(lines@)), a),
                i as int,
            ),
            None => is_none(
                texts(areas@),
                |a: Seq<char>| contains_text(run_together(texts(lines@)), a),
            ),
        },
{
    let text: Vec<char> = join_lines(lines);
    let mut i: usize = 0;
    while i < areas.len()
        invariant
            i <= areas@.len(),
            text@ == run_together(texts(lines@)),
            forall|k: int| 0 <= k < i ==> !contains_text(text@, #[trigger] texts(areas@)[k]),
        decreases areas@.len() - i,
    {
        if has_part(&text, &chars_of(areas[i].as_str())) {
            assert(texts(areas@)[i as int] == areas@[i as int]@);
            return Some(i);
        }
        assert(texts(areas@)[i as int] == areas@[i as int]@);
        i += 1;
    }
    None
}

// ---------------------------------------------------------------------------
// Turning the map
// ---------------------------------------------------------------------------

/// How many areas the map is turned to reach `target` from `current`, to the
/// right if positive and to the left if negative: the areas are in a ring of
/// `n`, and the map is turned by at most half of it.
pub open spec fn rotation(target: int, current: int, n: int) -> int {
    let d = (target - current) % n;
    if d > n / 2 {
        d - n
    } else {
        d
    }
}

/// The number of times that the map is turned to the right, and to the left.
fn turns(target: usize, current: usize, n: usize) -> (r: (usize, usize))
    requires
        target < n,
        current < n,
    ensures
        r.0 - r.1 == rotation(target as int, current as int, n as int),
        r.0 == 0 || r.1 == 0,
{
    let d: usize = if target >= current {
        target - current
    } else {
        n - (current - target)
    };
    proof {
        assert((target - current) as int % n as int == d) by (nonlinear_arith)
            requires
                target < n,
                current < n,
                d == (if target >= current {
                    target - current
                } else {
                    n - (current - target)
                }),
        {
            if target < current {
                assert((target - current) as int == -1 * n + d);
                vstd::arithmetic::div_mod::lemma_fundamental_div_mod_converse(
                    (target - current) as int,
                    n as int,
                    -1,
                    d as int,
                );
            } else {
                vstd::arithmetic::div_mod::lemma_small_mod(d as nat, n as nat);
            }
        }
    }
    if d > n / 2 {
        (0, n - d)
    } else {
        (d, 0)
    }
}

/// The map is turned to the target.
pub proof fn law_rotation_arrives(target: int, current: int, n: int)
    requires
        0 <= target < n,
        0 <= current < n,
    ensures
        (current + rotation(target, current, n)) % n == target,
{
    let d = (target - current) % n;
    lemma_mod_of_difference(target, current, n);
    vstd::arithmetic::div_mod::lemma_small_mod(target as nat, n as nat);
    if target >= current {
        assert(current + d == target);
        lemma_mod_shift(target, n);
    } else {
        assert(current + d == target + n);
        lemma_mod_shift(target, n);
    }
}

proof fn lemma_mod_of_difference(target: int, current: int, n: int)
    requires
        0 <= target < n,
        0 <= current < n,
    ensures
        (target - current) % n == if target >= current {
            target - current
        } else {
            target - current + n
        },
{
    if target < current {
        vstd::arithmetic::div_mod::lemma_fundamental_div_mod_converse(
            target - current,
            n,
            -1,
            target - current + n,
        );
    } else {
        vstd::arithmetic::div_mod::lemma_small_mod((target - current) as nat, n as nat);
    }
}

proof fn lemma_mod_shift(target: int, n: int)
    requires
        0 <= target < n,
    ensures
        target % n == target,
        (target + n) % n == target,
        (target - n) % n == target,
{
    vstd::arithmetic::div_mod::lemma_small_mod(target as nat, n as nat);
    vstd::arithmetic::div_mod::lemma_fundamental_div_mod_converse(target + n, n, 1, target);
    vstd::arithmetic::div_mod::lemma_fundamental_div_mod_converse(target - n, n, -1, target);
}

/// The map is turned by at most half of the ring, and no way to the target is
/// shorter.
pub proof fn law_rotation_shortest(target: int, current: int, n: int, other: int)
    requires
        0 <= target < n,
        0 <= current < n,
        (current + other) % n == target,
    ensures
        -n < 2 * rotation(target, current, n) <= n,
        (if rotation(target, current, n) < 0 {
            -rotation(target, current, n)
        } else {
            rotation(target, current, n)
        }) <= (if other < 0 {
            -other
        } else {
            other
        }),
{
    let r = rotation(target, current, n);
    lemma_mod_of_difference(target, current, n);
    vstd::arithmetic::div_mod::lemma_fundamental_div_mod(current + other, n);
    let q = (current + other) / n;
    assert(other == target - current + n * q);
    let d = (target - current) % n;
    let k = if target >= current {
        q
    } else {
        q - 1
    };
    assert(other == d + n * k) by (nonlinear_arith)
        requires
            other == target - current + n * q,
            d == (if target >= current {
                target - current
            } else {
                target - current + n
            }),
            k == (if target >= current {
                q
            } else {
                q - 1
            }),
    ;
    if k >= 1 {
        assert(n * k >= n) by (nonlinear_arith)
            requires
                k >= 1,
                n > 0,
        ;
    } else if k <= -2 {
        assert(n * k <= -2 * n) by (nonlinear_arith)
            requires
                k <= -2,
                n > 0,
        ;
    } else if k == 0 {
        assert(n * k == 0) by (nonlinear_arith)
            requires
                k == 0,
        ;
    } else {
        assert(n * k == -n) by (nonlinear_arith)
            requires
                k == -1,
        ;
    }
}

// ---------------------------------------------------------------------------
// Operations
// ---------------------------------------------------------------------------

/// How the list of areas is opened.
pub open spec fn opening() -> Seq<PadCommand> {
    seq![
        PadCommand::Press { button: RT, hold: 0 },
        PadCommand::Click { button: RB, hold: 100_000, post: 300_000 },
    ]
}

/// How the list of areas is opened.
pub fn open_areas() -> (r: Vec<PadCommand>)
    ensures
        r@ == opening(),
{
    let r: Vec<PadCommand> = vec![
        PadCommand::Press { button: RT, hold: 0 },
        PadCommand::Click { button: RB, hold: 100_000, post: 300_000 },
    ];
    assert(r@ =~= opening());
    r
}

/// The region of the frame with the name of the current area, as left, top,
/// width and height.
pub fn area_roi() -> (r: (u32, u32, u32, u32))
    ensures
        r == (974u32, 132u32, 200u32, 30u32),
{
    (974, 132, 200, 30)
}

/// A click of a tenth of a second.
pub open spec fn tap(button: u16, post: u64) -> PadCommand {
    PadCommand::Click { button, hold: 100_000, post }
}

/// The operations that choose a point once the list of areas is open, each with
/// the number of times that it is done: turn to the area, go down to the list,
/// open it, go down to the point, and choose it.
pub open spec fn choosing(turn: int, kind: int, index: int) -> Seq<(int, PadCommand)> {
    seq![
        (
            if turn >= 0 {
                turn
            } else {
                0
            },
            tap(RIGHT, 300_000),
        ),
        (
            if turn >= 0 {
                0
            } else {
                -turn
            },
            tap(LEFT, 300_000),
        ),
        (
            if kind >= 0 {
                kind
            } else {
                0
            },
            tap(DOWN, 200_000),
        ),
        (1, tap(A, 200_000)),
        (
            if index >= 0 {
                index + 1
            } else {
                0
            },
            tap(DOWN, 200_000),
        ),
        (1, PadCommand::Click { button: A, hold: 300_000, post: 1_700_000 }),
        (1, tap(B, 300_000)),
        (1, PadCommand::Release { button: RT, post: 0 }),
    ]
}

/// Operations with the number of times that each is done.
pub open spec fn counted(list: Seq<(u64, PadCommand)>) -> Seq<(int, PadCommand)> {
    list.map_values(|p: (u64, PadCommand)| (p.0 as int, p.1))
}

/// The operations that choose a point in the area at place `target`, by the
/// lines of text that were read where the map shows its area. The map is left
/// as it is if the area is not recognised.
pub fn locate(
    areas: &Vec<String>,
    target: usize,
    lines: &Vec<String>,
    kind: i64,
    index: i64,
) -> (r: Result<Vec<(u64, PadCommand)>, LocateError>)
    requires
        target < areas@.len(),
    ensures
        match r {
            Ok(list) => exists|current: int|
                #[trigger] is_current(texts(areas@), texts(lines@), current) && counted(list@)
                    == choosing(
                    rotation(target as int, current, areas@.len() as int),
                    kind as int,
                    index as int,
                ),
            Err(e) => e is UnknownPlace && is_none(
                texts(areas@),
                |a: Seq<char>| contains_text(run_together(texts(lines@)), a),
            ),
        },
{
    let current: usize = match current_area(areas, lines) {
        Some(i) => i,
        None => {
            return Err(LocateError::UnknownPlace);
        },
    };
    assert(is_current(texts(areas@), texts(lines@), current as int));
    let (right, left) = turns(target, current, areas.len());
    let down: u64 = if kind > 0 {
        kind as u64
    } else {
        0
    };
    let further: u64 = if index >= 0 {
        index as u64 + 1
    } else {
        0
    };
    let list: Vec<(u64, PadCommand)> = vec![
        (right as u64, PadCommand::Click { button: RIGHT, hold: 100_000, post: 300_000 }),
        (left as u64, PadCommand::Click { button: LEFT, hold: 100_000, post: 300_000 }),
        (down, PadCommand::Click { button: DOWN, hold: 100_000, post: 200_000 }),
        (1, PadCommand::Click { button: A, hold: 100_000, post: 200_000 }),
        (further, PadCommand::Click { button: DOWN, hold: 100_000, post: 200_000 }),
        (1, PadCommand::Click { button: A, hold: 300_000, post: 1_700_000 }),
        (1, PadCommand::Click { button: B, hold: 100_000, post: 300_000 }),
        (1, PadCommand::Release { button: RT, post: 0 }),
    ];
    assert(counted(list@) =~= choosing(
        rotation(target as int, current as int, areas@.len() as int),
        kind as int,
        index as int,
    ));
    Ok(list)
}

/// Whether the map shows the area at place `i`: it is the first whose name
/// occurs in the lines that were read.
pub open spec fn is_current(areas: Seq<Seq<char>>, lines: Seq<Seq<char>>, i: int) -> bool {
    is_first(areas, |a: Seq<char>| contains_text(run_together(lines), a), i)
}

/// The map shows at most one area.
pub proof fn law_current_area_unique(areas: Seq<Seq<char>>, lines: Seq<Seq<char>>, i: int, j: int)
    requires
        is_current(areas, lines, i),
        is_current(areas, lines, j),
    ensures
        i == j,
{
    if i < j {
        assert(contains_text(run_together(lines), areas[i]));
    }
    if j < i {
        assert(contains_text(run_together(lines), areas[j]));
    }
}

/// The state of the gamepad behind an operation that is done a number of times.
pub open spec fn after_times(s: XGamepad, n: int, c: PadCommand) -> XGamepad
    decreases n,
{
    if n <= 0 {
        s
    } else {
        after(after_times(s, n - 1, c), c)
    }
}

/// The state of the gamepad behind operations that are done a number of times
/// each.
pub open spec fn after_counted(s: XGamepad, list: Seq<(int, PadCommand)>) -> XGamepad
    decreases list.len(),
{
    if list.len() == 0 {
        s
    } else {
        after_times(after_counted(s, list.drop_last()), list.last().0, list.last().1)
    }
}

/// The state of the gamepad while the list of areas is open.
spec fn holding() -> XGamepad {
    XGamepad { right_trigger: 255, ..neutral() }
}

proof fn lemma_times_keep(s: XGamepad, n: int, c: PadCommand)
    requires
        after(s, c) == s,
    ensures
        after_times(s, n, c) == s,
    decreases n,
{
    if n > 0 {
        lemma_times_keep(s, n - 1, c);
    }
}

proof fn lemma_taps_keep(button: u16, hold: u64, post: u64)
    requires
        button == RIGHT || button == LEFT || button == DOWN || button == A || button == B || button
            == RB,
    ensures
        after(holding(), PadCommand::Click { button, hold, post }) == holding(),
{
    assert((0u16 | button) & !button == 0) by (bit_vector);
}

/// The way to a point leaves the gamepad untouched in the end.
pub proof fn law_locate_lets_go(turn: int, kind: int, index: int)
    ensures
        after_counted(after_all(neutral(), opening()), choosing(turn, kind, index)) == neutral(),
{
    let s = holding();
    reveal_with_fuel(after_all, 3);
    assert(opening().drop_last() =~= seq![opening()[0]]);
    assert(seq![opening()[0]].drop_last() =~= seq![]);
    lemma_taps_keep(RB, 100_000, 300_000);
    assert(after_all(neutral(), opening()) == s);
    let l = choosing(turn, kind, index);
    assert forall|k: int| 0 <= k < 7 implies after_times(s, l[k].0, (#[trigger] l[k]).1) == s by {
        lemma_taps_keep(RIGHT, 100_000, 300_000);
        lemma_taps_keep(LEFT, 100_000, 300_000);
        lemma_taps_keep(DOWN, 100_000, 200_000);
        lemma_taps_keep(A, 100_000, 200_000);
        lemma_taps_keep(A, 300_000, 1_700_000);
        lemma_taps_keep(B, 100_000, 300_000);
        lemma_times_keep(s, l[k].0, l[k].1);
    }
    lemma_prefix_keeps(s, l, 7);
    assert(l.drop_last() =~= l.take(7));
    assert(after_times(s, 0, l[7].1) == s);
    assert(after_times(s, 1, l[7].1) == after(s, l[7].1));
}

proof fn lemma_prefix_keeps(s: XGamepad, l: Seq<(int, PadCommand)>, n: int)
    requires
        0 <= n <= l.len(),
        forall|k: int| 0 <= k < n ==> after_times(s, l[k].0, (#[trigger] l[k]).1) == s,
    ensures
        after_counted(s, l.take(n)) == s,
    decreases n,
{
    if n > 0 {
        lemma_prefix_keeps(s, l, n - 1);
        assert(l.take(n).drop_last() =~= l.take(n - 1));
        assert(l.take(n).last() == l[n - 1]);
    } else {
        assert(l.take(0) =~= seq![]);
    }
}

/// How the map is opened.
pub fn open_map() -> (c: PadCommand)
    ensures
        c == (PadCommand::Click { button: BACK, hold: 100_000, post: 1_700_000 }),
{
    PadCommand::Click { button: BACK, hold: 100_000, post: 1_700_000 }
}

/// How the journey to a chosen point is confirmed.
pub fn confirm_journey() -> (r: Vec<PadCommand>)
    ensures
        r@ == seq![
            PadCommand::Click { button: A, hold: 300_000, post: 200_000 },
            PadCommand::Click { button: A, hold: 300_000, post: 200_000 },
            PadCommand::Click { button: A, hold: 300_000, post: 200_000 },
            PadCommand::Click { button: A, hold: 500_000, post: 4_000_000 },
        ],
{
    let r: Vec<PadCommand> = vec![
        PadCommand::Click { button: A, hold: 300_000, post: 200_000 },
        PadCommand::Click { button: A, hold: 300_000, post: 200_000 },
        PadCommand::Click { button: A, hold: 300_000, post: 200_000 },
        PadCommand::Click { button: A, hold: 500_000, post: 4_000_000 },
    ];
    assert(r@ =~= seq![
        PadCommand::Click { button: A, hold: 300_000, post: 200_000 },
        PadCommand::Click { button: A, hold: 300_000, post: 200_000 },
        PadCommand::Click { button: A, hold: 300_000, post: 200_000 },
        PadCommand::Click { button: A, hold: 500_000, post: 4_000_000 },
    ]);
    r
}

/// The first operation on the gamepad, which wakes the game.
pub fn wake_up() -> (c: PadCommand)
    ensures
        c == (PadCommand::Click { button: LB, hold: 33_400, post: 0 }),
{
    PadCommand::Click { button: LB, hold: 33_400, post: 0 }
}

/// A quick double click.
pub open spec fn double_click(button: u16) -> Seq<PadCommand> {
    seq![
        PadCommand::Click { button, hold: 33_400, post: 33_400 },
        PadCommand::Click { button, hold: 200_000, post: 0 },
    ]
}

/// How an attack is dodged.
pub fn dodge_action() -> (r: Vec<PadCommand>)
    ensures
        r@ == double_click(RB),
{
    let r: Vec<PadCommand> = vec![
        PadCommand::Click { button: RB, hold: 33_400, post: 33_400 },
        PadCommand::Click { button: RB, hold: 200_000, post: 0 },
    ];
    assert(r@ =~= double_click(RB));
    r
}

/// How an attack is countered.
pub fn counter_action() -> (r: Vec<PadCommand>)
    ensures
        r@ == double_click(X),
{
    let r: Vec<PadCommand> = vec![
        PadCommand::Click { button: X, hold: 33_400, post: 33_400 },
        PadCommand::Click { button: X, hold: 200_000, post: 0 },
    ];
    assert(r@ =~= double_click(X));
    r
}

// ---------------------------------------------------------------------------
// Loading
// ---------------------------------------------------------------------------

/// Whether the screen is that of a game that has loaded.
pub open spec fn shows_loaded(img: Image) -> Seen {
    both(
        both(
            both(
                seen_like(img, 32, 134, 255, 255, 255, 15),
                seen_like(img, 902, 37, 255, 255, 255, 15),
            ),
            seen_like(img, 1182, 37, 255, 255, 255, 15),
        ),
        opposite(seen_like(img, 26, 134, 255, 255, 255, 15)),
    )
}

/// Whether the screen is that of a game that has loaded.
pub fn is_loaded(img: &Image) -> (s: Seen)
    requires
        img.wf(),
    ensures
        s == shows_loaded(*img),
{
    see_both(
        see_both(
            see_both(
                see_like(img, 32, 134, 255, 255, 255, 15),
                see_like(img, 902, 37, 255, 255, 255, 15),
            ),
            see_like(img, 1182, 37, 255, 255, 255, 15),
        ),
        see_opposite(see_like(img, 26, 134, 255, 255, 255, 15)),
    )
}

/// A game has loaded exactly when the three marks are white and the place beside
/// the first is not, by the bytes of the frame; a byte is white above 240. Nothing
/// is said when the look comes to a place outside of the frame.
pub proof fn law_loaded_by_its_marks(img: Image)
    ensures
        ({
            let inside = |x: int, y: int| x < img.width && y < img.height;
            let white = |x: int, y: int|
                {
                    let at = 3 * (y * img.width + x);
                    img.data@[at] > 240 && img.data@[at + 1] > 240 && img.data@[at + 2] > 240
                };
            let first = inside(32, 134) && white(32, 134);
            let second = inside(902, 37) && white(902, 37);
            let third = inside(1182, 37) && white(1182, 37);
            &&& shows_loaded(img) == Some(true) <==> first && second && third && !white(26, 134)
            &&& shows_loaded(img) is None <==> !inside(32, 134) || (first && !inside(902, 37)) || (first
                && second && !inside(1182, 37))
        }),
{
}

/// How often is looked whether the game has loaded.
pub const LOADING_LOOKS: u32 = 200;

/// The time behind a look that found the game still loading.
pub const LOADING_REST: u64 = 100_000;

/// What follows from a look at a game that loads.
#[derive(Debug, Clone, Copy, PartialEq, Eq)]
pub enum Loading {
    /// It has loaded.
    Done,
    /// Rest and look again.
    Again { looks: u32 },
    /// Rest and give up.
    GiveUp,
}

/// What follows from a look at a game that loads, when `looks` looks came
/// before it.
pub fn wait_loading(looks: u32, loaded: bool) -> (r: Loading)
    requires
        looks < LOADING_LOOKS,
    ensures
        r == (if loaded {
            Loading::Done
        } else if looks + 1 < LOADING_LOOKS {
            Loading::Again { looks: (looks + 1) as u32 }
        } else {
            Loading::GiveUp
        }),
{
    if loaded {
        Loading::Done
    } else if looks + 1 < LOADING_LOOKS {
        Loading::Again { looks: looks + 1 }
    } else {
        Loading::GiveUp
    }
}

// ---------------------------------------------------------------------------
// Laws of the way
// ---------------------------------------------------------------------------

/// The lines that were read are run together in their order, each without the
/// white space around it.
pub proof fn law_lines_run_together(list: Seq<Seq<char>>, line: Seq<char>)
    ensures
        run_together(Seq::empty()).len() == 0,
        run_together(list.push(line)) == run_together(list) + trim(line),
{
    assert(list.push(line).drop_last() =~= list);
}

/// The area that the map shows is the first whose name occurs in what was read, and
/// it is found whenever there is one.
pub proof fn law_shown_area_is_the_first(areas: Seq<Seq<char>>, lines: Seq<Seq<char>>, i: int)
    ensures
        is_current(areas, lines, i) <==> {
            &&& 0 <= i < areas.len()
            &&& contains_text(run_together(lines), areas[i])
            &&& forall|k: int|
                0 <= k < i ==> !contains_text(run_together(lines), #[trigger] areas[k])
        },
        is_none(areas, |a: Seq<char>| contains_text(run_together(lines), a)) <==> forall|k: int|
            0 <= k < areas.len() ==> !contains_text(run_together(lines), #[trigger] areas[k]),
{
}

/// A place of a list is the first with a property exactly when it has the property
/// and none before it has.
pub proof fn law_first_of_a_list(list: Seq<Seq<char>>, name: Seq<char>, i: int)
    ensures
        is_first(list, |a: Seq<char>| a == name, i) <==> 0 <= i < list.len() && list[i] == name
            && forall|k: int| 0 <= k < i ==> #[trigger] list[k] != name,
        is_none(list, |a: Seq<char>| a == name) <==> !list.contains(name),
{
    if is_none(list, |a: Seq<char>| a == name) {
        let p = |a: Seq<char>| a == name;
        assert forall|k: int| 0 <= k < list.len() implies #[trigger] list[k] != name by {
            assert(!p(list[k]));
        }
    }
    if !list.contains(name) {
        let p = |a: Seq<char>| a == name;
        assert forall|k: int| 0 <= k < list.len() implies !p(#[trigger] list[k]) by {
            assert(list.contains(list[k]));
        }
    }
}

/// The list of areas is opened with the right trigger held and a click of `RB`.
pub proof fn law_areas_are_opened()
    ensures
        opening().len() == 2,
        opening()[0] == (PadCommand::Press { button: RT, hold: 0 }),
        opening()[1] == (PadCommand::Click { button: RB, hold: 100_000, post: 300_000 }),
{
}

/// How a point is chosen: as many clicks to the right, or to the left, as the map
/// has to be turned; one down for each kind before; then the list is opened, and
/// one down more than the place of the point leads to it. It is chosen with a long
/// click, the list is left, and the trigger let go.
pub proof fn law_point_is_chosen(turn: int, kind: int, index: int)
    ensures
        ({
            let l = choosing(turn, kind, index);
            &&& l.len() == 8
            &&& l[0].1 == (PadCommand::Click { button: RIGHT, hold: 100_000, post: 300_000 })
            &&& l[1].1 == (PadCommand::Click { button: LEFT, hold: 100_000, post: 300_000 })
            &&& l[0].0 >= 0 && l[1].0 >= 0
            &&& l[0].0 - l[1].0 == turn
            &&& l[0].0 == 0 || l[1].0 == 0
            &&& l[2].1 == (PadCommand::Click { button: DOWN, hold: 100_000, post: 200_000 })
            &&& kind >= 0 ==> l[2].0 == kind
            &&& kind < 0 ==> l[2].0 == 0
            &&& l[3] == (1int, PadCommand::Click { button: A, hold: 100_000, post: 200_000 })
            &&& l[4].1 == (PadCommand::Click { button: DOWN, hold: 100_000, post: 200_000 })
            &&& index >= 0 ==> l[4].0 == index + 1
            &&& index < 0 ==> l[4].0 == 0
            &&& l[5] == (1int, PadCommand::Click { button: A, hold: 300_000, post: 1_700_000 })
            &&& l[6] == (1int, PadCommand::Click { button: B, hold: 100_000, post: 300_000 })
            &&& l[7] == (1int, PadCommand::Release { button: RT, post: 0 })
        }),
{
}

/// Operations that are done a number of times each keep their numbers and their
/// order.
pub proof fn law_counts_are_kept(list: Seq<(u64, PadCommand)>, i: int)
    requires
        0 <= i < list.len(),
    ensures
        counted(list).len() == list.len(),
        counted(list)[i].0 == list[i].0,
        counted(list)[i].1 == list[i].1,
{
}

/// A double click is two clicks of one button, a quick one and a longer one.
pub proof fn law_double_click(button: u16)
    ensures
        double_click(button).len() == 2,
        double_click(button)[0] == (PadCommand::Click { button, hold: 33_400, post: 33_400 }),
        double_click(button)[1] == (PadCommand::Click { button, hold: 200_000, post: 0 }),
{
}

/// A game that loads is waited for twenty seconds, and looked at ten times in each.
pub proof fn law_loading_is_waited_for()
    ensures
        LOADING_LOOKS * LOADING_REST == 20_000_000,
        10 * LOADING_REST == 1_000_000,
{
}

} // verus!
