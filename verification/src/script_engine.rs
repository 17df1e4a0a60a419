//! What scripts are given and told: the header of a script, the constants of
//! its scope, the names of the buttons, and its waits. Times are in
//! microseconds unless a name says otherwise.

use vstd::prelude::*;
use crate::game::{Args, ArgsView};
use crate::input::{Button, PadCommand};
use crate::json::{
    as_bool, as_whole, get_bool, get_member, get_member_text, get_u64, json_document, json_nodes,
    member, member_text, parse_json, under, JsonNode, JsonStep, Nodes,
};
use crate::text::{
    begins_with, chars_of, joined, join, lines, lines_of, part_of, rows, starts_with, string_of,
    texts, trim, trimmed,
};
use crate::vision::{get_pixel, see_equal, see_like, seen_equal, seen_like, Image, Seen};

verus! {

// ---------------------------------------------------------------------------
// Tasks
// ---------------------------------------------------------------------------

/// What a running script and the program share: whether the task is paused,
/// and the number of the current turn.
#[derive(Debug, Clone, Copy, PartialEq, Eq)]
pub struct TaskState {
    pub pause: bool,
    pub cur_turn: i64,
}

/// The state in which a task begins.
pub open spec fn fresh_task() -> TaskState {
    TaskState { pause: false, cur_turn: 1 }
}

impl Default for TaskState {
    fn default() -> (s: Self)
        ensures
            s == fresh_task(),
    {
        TaskState { pause: false, cur_turn: 1 }
    }
}

/// Why the watch over a script ended.
#[derive(Debug, Clone, Copy, PartialEq, Eq, Structural)]
pub enum StopReason {
    Finished,
    Exit,
    Reset,
    Timeout,
    TaskEnded,
}

/// With what a running script is broken off, if it has to be: asked between
/// its operations.
pub fn progress(stop: bool) -> (r: Option<StopReason>)
    ensures
        r == (if stop {
            Some(StopReason::Exit)
        } else {
            None
        }),
{
    if stop {
        Some(StopReason::Exit)
    } else {
        None
    }
}

/// Whether the failure of a script is reported: not if the script was broken
/// off because the program wanted to stop.
pub fn is_reported(broken_off: Option<StopReason>) -> (yes: bool)
    ensures
        yes == (broken_off != Some(StopReason::Exit)),
{
    match broken_off {
        Some(StopReason::Exit) => false,
        _ => true,
    }
}

// ---------------------------------------------------------------------------
// The header of a script
// ---------------------------------------------------------------------------

/// How long a task may run that says nothing of it, in seconds.
pub const DEFAULT_TIMEOUT: u64 = 86400;

/// What a script says of itself in its header.
#[derive(Debug)]
pub struct ScriptMeta {
    pub author: String,
    pub desc: String,
    pub looped: bool,
    pub timeout: u64,
}

/// The header as mathematical values.
pub struct MetaView {
    pub author: Seq<char>,
    pub desc: Seq<char>,
    pub looped: bool,
    pub timeout: u64,
}

impl View for ScriptMeta {
    type V = MetaView;

    open spec fn view(&self) -> MetaView {
        MetaView {
            author: self.author@,
            desc: self.desc@,
            looped: self.looped,
            timeout: self.timeout,
        }
    }
}

/// What holds of a script without a header.
pub open spec fn default_meta() -> MetaView {
    MetaView { author: seq![], desc: seq![], looped: true, timeout: DEFAULT_TIMEOUT }
}

/// The text of a comment line, if the line is one.
pub open spec fn comment(line: Seq<char>) -> Option<Seq<char>> {
    let t = trim(line);
    if starts_with(t, seq!['/', '/']) {
        Some(trim(t.skip(2)))
    } else {
        None
    }
}

/// The lines of the header: comment lines from the first that begins with `{`
/// up to the first that ends with `}`, or up to the first line that is no
/// comment. `open` says whether the header has begun.
pub open spec fn header(list: Seq<Seq<char>>, open: bool) -> Seq<Seq<char>>
    decreases list.len(),
{
    if list.len() == 0 {
        seq![]
    } else {
        match comment(list[0]) {
            Some(c) => if open || (c.len() > 0 && c[0] == '{') {
                if c.len() > 0 && c.last() == '}' {
                    seq![c]
                } else {
                    seq![c] + header(list.drop_first(), true)
                }
            } else {
                header(list.drop_first(), false)
            },
            None => if open {
                seq![]
            } else {
                header(list.drop_first(), false)
            },
        }
    }
}

/// The text of the header, in which a JSON object is expected.
pub open spec fn header_text(script: Seq<char>) -> Seq<char> {
    join(header(lines(script), false), seq!['\n'])
}

/// What a JSON document says of a script. What it does not say, or says in
/// another type, is as in a script without a header.
pub open spec fn meta_in(m: Nodes) -> MetaView {
    MetaView {
        author: match member_text(m, "author"@) {
            Some(s) => s,
            None => seq![],
        },
        desc: match member_text(m, "desc"@) {
            Some(s) => s,
            None => seq![],
        },
        looped: match member(m, "loop"@) {
            Some(m) => match as_bool(m) {
                Some(b) => b,
                None => true,
            },
            None => true,
        },
        timeout: match member(m, "timeout"@) {
            Some(m) => match as_whole(m, 0, u64::MAX as int) {
                Some(n) => n as u64,
                None => DEFAULT_TIMEOUT,
            },
            None => DEFAULT_TIMEOUT,
        },
    }
}

/// What a script says of itself.
pub open spec fn meta_of(script: Seq<char>) -> MetaView {
    if header(lines(script), false).len() == 0 {
        default_meta()
    } else {
        match json_document(header_text(script)) {
            Some(m) => meta_in(m),
            None => default_meta(),
        }
    }
}

impl Default for ScriptMeta {
    fn default() -> (m: Self)
        ensures
            m@ == default_meta(),
    {
        let m = ScriptMeta {
            author: String::new(),
            desc: String::new(),
            looped: true,
            timeout: DEFAULT_TIMEOUT,
        };
        assert(m.author@ =~= seq![]);
        assert(m.desc@ =~= seq![]);
        m
    }
}

/// The text of a comment line, if the line is one.
fn comment_of(line: &Vec<char>) -> (r: Option<Vec<char>>)
    ensures
        comment(line@) == match r {
            Some(c) => Some(c@),
            None => None,
        },
{
    let t: Vec<char> = trimmed(line);
    let mark: Vec<char> = vec!['/', '/'];
    assert(mark@ =~= seq!['/', '/']);
    if begins_with(&t, &mark) {
        let rest: Vec<char> = part_of(&t, 2, t.len());
        assert(rest@ =~= t@.skip(2));
        Some(trimmed(&rest))
    } else {
        None
    }
}

/// The lines of the header of a script.
pub fn header_lines(script: &str) -> (r: Vec<String>)
    ensures
        texts(r@) == header(lines(script@), false),
{
    let all: Vec<Vec<char>> = lines_of(&chars_of(script));
    let mut r: Vec<String> = Vec::new();
    let mut open: bool = false;
    let mut i: usize = 0;
    let ghost list = rows(all@);
    assert(list.skip(0) =~= list);
    assert(texts(r@) =~= seq![]);
    assert(texts(r@) + header(list.skip(0), false) =~= header(list, false));
    while i < all.len()
        invariant
            i <= all@.len(),
            list == rows(all@),
            list == lines(script@),
            texts(r@) + header(list.skip(i as int), open) == header(list, false),
        decreases all@.len() - i,
    {
        let ghost rest = list.skip(i as int);
        let ghost before = texts(r@);
        proof {
            assert(rest[0] == all@[i as int]@);
            assert(rest.drop_first() =~= list.skip(i + 1));
        }
        match comment_of(&all[i]) {
            Some(c) => {
                if c.len() > 0 && c[0] == '{' {
                    open = true;
                }
                if open {
                    let ends: bool = c.len() > 0 && c[c.len() - 1] == '}';
                    r.push(string_of(&c));
                    proof {
                        assert(texts(r@) =~= before.push(c@));
                    }
                    if ends {
                        assert(texts(r@) =~= before + seq![c@]);
                        return r;
                    }
                    assert(texts(r@) + header(list.skip(i + 1), true) =~= before + header(
                        rest,
                        true,
                    ));
                }
            },
            None => {
                if open {
                    assert(before + header(rest, open) =~= before);
                    return r;
                }
            },
        }
        i += 1;
    }
    assert(list.skip(i as int) =~= seq![]);
    assert(texts(r@) + header(list.skip(i as int), open) =~= texts(r@));
    r
}

impl ScriptMeta {
    /// What a JSON value says of a script.
    pub fn from_json(v: &serde_json::Value) -> (m: Self)
        ensures
            m@ == meta_in(json_nodes(*v)),
    {
        let author: String = match get_member_text(v, "author") {
            Some(s) => s,
            None => String::new(),
        };
        let desc: String = match get_member_text(v, "desc") {
            Some(s) => s,
            None => String::new(),
        };
        let looped: bool = match get_member(v, "loop") {
            Some(x) => match get_bool(x) {
                Some(b) => b,
                None => true,
            },
            None => true,
        };
        let timeout: u64 = match get_member(v, "timeout") {
            Some(x) => match get_u64(x) {
                Some(n) => n,
                None => DEFAULT_TIMEOUT,
            },
            None => DEFAULT_TIMEOUT,
        };
        ScriptMeta { author, desc, looped, timeout }
    }

    /// Reads the header of a script.
    pub fn parse(script: &str) -> (m: Self)
        ensures
            m@ == meta_of(script@),
    {
        let found: Vec<String> = header_lines(script);
        assert(texts(found@).len() == found@.len());
        if found.len() == 0 {
            return ScriptMeta::default();
        }
        let text: String = joined(&found, "\n");
        proof {
            reveal_strlit("\n");
            assert("\n"@ =~= seq!['\n']);
        }
        match parse_json(text.as_str()) {
            Ok(v) => ScriptMeta::from_json(&v),
            Err(_) => ScriptMeta::default(),
        }
    }
}

/// A script without comment lines says nothing of itself.
pub proof fn law_no_comments_no_header(script: Seq<char>)
    requires
        forall|i: int| 0 <= i < lines(script).len() ==> comment(#[trigger] lines(script)[i]) is None,
    ensures
        meta_of(script) == default_meta(),
{
    lemma_no_comments(lines(script));
}

/// Whether a line does not begin a header.
pub open spec fn begins_none(line: Seq<char>) -> bool {
    comment(line) matches Some(c) ==> c.len() == 0 || c[0] != '{'
}

/// Whether a comment line ends a header.
pub open spec fn ends_header(line: Seq<char>) -> bool {
    comment(line) matches Some(c) && c.len() > 0 && c.last() == '}'
}

/// Whether lines are a header: comment lines of which the first begins a header,
/// and none but the last ends one.
pub open spec fn is_header(block: Seq<Seq<char>>) -> bool {
    &&& block.len() > 0
    &&& !begins_none(block[0])
    &&& forall|i: int| 0 <= i < block.len() ==> comment(#[trigger] block[i]) is Some
    &&& forall|i: int| 0 <= i < block.len() - 1 ==> !ends_header(#[trigger] block[i])
}

/// The texts of comment lines.
pub open spec fn comments(block: Seq<Seq<char>>) -> Seq<Seq<char>> {
    block.map_values(|line: Seq<char>| comment(line)->0)
}

/// Only the header of a script counts: the lines before the first that begins a
/// header say nothing of the script, nor do those behind the one that ends it,
/// or from the next that is no comment on.
pub proof fn law_only_the_header_counts(
    script: Seq<char>,
    bare: Seq<char>,
    before: Seq<Seq<char>>,
    block: Seq<Seq<char>>,
    after: Seq<Seq<char>>,
)
    requires
        lines(script) == before + block + after,
        lines(bare) == block,
        forall|i: int| 0 <= i < before.len() ==> begins_none(#[trigger] before[i]),
        is_header(block),
        ends_header(block.last()) || after.len() == 0 || comment(after[0]) is None,
    ensures
        header(lines(script), false) == comments(block),
        header_text(script) == header_text(bare),
        meta_of(script) == meta_of(bare),
{
    assert(before + block + after =~= before + (block + after));
    lemma_header_begins(before, block + after);
    lemma_header_ends(block, after, false);
    assert(block =~= block + seq![]);
    lemma_header_ends(block, seq![], false);
}

proof fn lemma_header_begins(before: Seq<Seq<char>>, rest: Seq<Seq<char>>)
    requires
        forall|i: int| 0 <= i < before.len() ==> begins_none(#[trigger] before[i]),
    ensures
        header(before + rest, false) == header(rest, false),
    decreases before.len(),
{
    if before.len() == 0 {
        assert(before + rest =~= rest);
    } else {
        let tail = before.drop_first();
        assert((before + rest).drop_first() =~= tail + rest);
        assert(begins_none(before[0]));
        assert forall|i: int| 0 <= i < tail.len() implies begins_none(#[trigger] tail[i]) by {
            assert(tail[i] == before[i + 1]);
        }
        lemma_header_begins(tail, rest);
    }
}

proof fn lemma_header_ends(block: Seq<Seq<char>>, after: Seq<Seq<char>>, open: bool)
    requires
        block.len() > 0,
        open || !begins_none(block[0]),
        forall|i: int| 0 <= i < block.len() ==> comment(#[trigger] block[i]) is Some,
        forall|i: int| 0 <= i < block.len() - 1 ==> !ends_header(#[trigger] block[i]),
        ends_header(block.last()) || after.len() == 0 || comment(after[0]) is None,
    ensures
        header(block + after, open) == comments(block),
    decreases block.len(),
{
    let list = block + after;
    let tail = block.drop_first();
    assert(list[0] == block[0] && comment(block[0]) is Some);
    assert(list.drop_first() =~= tail + after);
    if block.len() == 1 {
        assert(tail + after =~= after);
        assert(comments(block) =~= seq![comment(block[0])->0]);
        if !ends_header(block[0]) {
            assert(header(after, true) =~= seq![]);
        }
    } else {
        assert(!ends_header(block[0]));
        assert forall|i: int| 0 <= i < tail.len() implies comment(#[trigger] tail[i]) is Some by {
            assert(tail[i] == block[i + 1]);
        }
        assert forall|i: int| 0 <= i < tail.len() - 1 implies !ends_header(#[trigger] tail[i]) by {
            assert(tail[i] == block[i + 1]);
        }
        lemma_header_ends(tail, after, true);
        assert(comments(block) =~= seq![comment(block[0])->0] + comments(tail));
    }
}

proof fn lemma_no_comments(list: Seq<Seq<char>>)
    requires
        forall|i: int| 0 <= i < list.len() ==> comment(#[trigger] list[i]) is None,
    ensures
        header(list, false).len() == 0,
    decreases list.len(),
{
    if list.len() > 0 {
        assert forall|i: int| 0 <= i < list.drop_first().len() implies comment(
            #[trigger] list.drop_first()[i],
        ) is None by {
            assert(list.drop_first()[i] == list[i + 1]);
        }
        lemma_no_comments(list.drop_first());
    }
}

// ---------------------------------------------------------------------------
// The scope of a script
// ---------------------------------------------------------------------------

/// The variables that a script begins with, of the crate `rhai`.
#[verifier::external_type_specification]
#[verifier::external_body]
pub struct ExScope<'a>(rhai::Scope<'a>);

/// The value of a constant in a scope.
pub enum Constant {
    Signed(int),
    Unsigned(int),
    Text(Seq<char>),
}

/// The constants of a scope, in the order in which they were put there.
pub uninterp spec fn constants(scope: rhai::Scope<'static>) -> Seq<(Seq<char>, Constant)>;

/// `rhai::Scope::new`: a scope with nothing in it.
#[verifier::external_body]
fn new_scope() -> (scope: rhai::Scope<'static>)
    ensures
        constants(scope) == Seq::<(Seq<char>, Constant)>::empty(),
{
    rhai::Scope::new()
}

/// `rhai::Scope::push_constant` with a signed integer: the constant stands
/// behind the others.
#[verifier::external_body]
fn push_signed(scope: &mut rhai::Scope<'static>, name: &str, value: i64)
    ensures
        constants(*final(scope)) == constants(*old(scope)).push(
            (name@, Constant::Signed(value as int)),
        ),
{
    scope.push_constant(name, value);
}

/// `rhai::Scope::push_constant` with an unsigned integer.
#[verifier::external_body]
fn push_unsigned(scope: &mut rhai::Scope<'static>, name: &str, value: u64)
    ensures
        constants(*final(scope)) == constants(*old(scope)).push(
            (name@, Constant::Unsigned(value as int)),
        ),
{
    scope.push_constant(name, value);
}

/// `rhai::Scope::push_constant` with a text.
#[verifier::external_body]
fn push_text(scope: &mut rhai::Scope<'static>, name: &str, value: String)
    ensures
        constants(*final(scope)) == constants(*old(scope)).push((name@, Constant::Text(value@))),
{
    scope.push_constant(name, value);
}

/// The constants that a script is given.
pub open spec fn script_constants(args: ArgsView) -> Seq<(Seq<char>, Constant)> {
    seq![
        ("BOOST"@, Constant::Signed(args.boost as int)),
        ("STRATEGY"@, Constant::Text(args.strategy)),
        ("COMBO"@, Constant::Text(args.combo)),
        ("TURN"@, Constant::Signed(args.turn as int)),
        ("TIMEOUT"@, Constant::Unsigned(args.timeout as int)),
    ]
}

/// The scope in which a script begins.
pub fn init_scope(args: &Args) -> (scope: rhai::Scope<'static>)
    ensures
        constants(scope) == script_constants(args@),
{
    let mut scope: rhai::Scope<'static> = new_scope();
    push_signed(&mut scope, "BOOST", args.boost as i64);
    push_text(&mut scope, "STRATEGY", args.strategy.clone());
    push_text(&mut scope, "COMBO", args.combo.clone());
    push_signed(&mut scope, "TURN", args.turn as i64);
    push_unsigned(&mut scope, "TIMEOUT", args.timeout);
    assert(constants(scope) =~= script_constants(args@));
    scope
}

// ---------------------------------------------------------------------------
// Waiting
// ---------------------------------------------------------------------------

/// The longest stretch of a wait in which a stop request is not noticed.
pub const NAP: u64 = 200000;

/// The next stretch of a wait of `total` of which `waited` is over, unless it
/// is over or the program wants to stop.
pub open spec fn nap(waited: int, total: int, stop: bool) -> Option<int> {
    if stop || waited >= total {
        None
    } else if total - waited < NAP {
        Some(total - waited)
    } else {
        Some(NAP as int)
    }
}

/// The next stretch of a wait.
pub fn next_nap(waited: u64, total: u64, stop: bool) -> (r: Option<u64>)
    ensures
        nap(waited as int, total as int, stop) == match r {
            Some(n) => Some(n as int),
            None => None,
        },
{
    if stop || waited >= total {
        None
    } else if total - waited < NAP {
        Some(total - waited)
    } else {
        Some(NAP)
    }
}

/// The stretches of a wait that nothing interrupts, from `waited` on.
pub open spec fn naps(waited: int, total: int) -> Seq<int>
    decreases total - waited,
{
    match nap(waited, total, false) {
        Some(n) => if n > 0 {
            seq![n] + naps(waited + n, total)
        } else {
            seq![]
        },
        None => seq![],
    }
}

/// The sum of a list of times.
pub open spec fn sum(list: Seq<int>) -> int
    decreases list.len(),
{
    if list.len() == 0 {
        0
    } else {
        list[0] + sum(list.drop_first())
    }
}

/// The stretches of a wait add up to the wait, and none is longer than the
/// longest stretch.
pub proof fn law_naps_add_up(waited: int, total: int)
    requires
        0 <= waited <= total,
    ensures
        sum(naps(waited, total)) == total - waited,
        forall|i: int|
            0 <= i < naps(waited, total).len() ==> 0 < #[trigger] naps(waited, total)[i] <= NAP,
    decreases total - waited,
{
    match nap(waited, total, false) {
        Some(n) => {
            law_naps_add_up(waited + n, total);
            let rest = naps(waited + n, total);
            assert((seq![n] + rest).drop_first() =~= rest);
            assert forall|i: int| 0 <= i < naps(waited, total).len() implies 0 < #[trigger] naps(
                waited,
                total,
            )[i] <= NAP by {
                if i > 0 {
                    assert(naps(waited, total)[i] == rest[i - 1]);
                }
            }
        },
        None => {},
    }
}

// ---------------------------------------------------------------------------
// Values from scripts
// ---------------------------------------------------------------------------

/// The random number of a script: below `max`, taken from the clock. A limit
/// that is not positive counts as one.
pub fn rand(max: i64, micros: i64) -> (r: i64)
    requires
        micros >= 0,
    ensures
        r == micros as int % (if max <= 0 {
            1
        } else {
            max as int
        }),
{
    let limit: i64 = if max <= 0 {
        1
    } else {
        max
    };
    micros % limit
}

/// The low digits of a script's integer, as an unsigned number below `size`.
pub open spec fn low_part(x: i64, size: int) -> int {
    x as int % size
}

/// The low digits of a script's integer, as a signed number of 16 bits.
pub open spec fn low_signed(x: i64) -> int {
    let l = low_part(x, 0x1_0000);
    if l < 0x8000 {
        l
    } else {
        l - 0x1_0000
    }
}

/// The remainder of a division, which is never negative.
pub(crate) fn remainder(x: i64, size: i64) -> (r: i64)
    requires
        size > 0,
    ensures
        r == x as int % size as int,
        0 <= r < size,
{
    if x >= 0 {
        x % size
    } else {
        let k: i64 = -(x + 1);
        let r: i64 = size - 1 - k % size;
        proof {
            vstd::arithmetic::div_mod::lemma_fundamental_div_mod(k as int, size as int);
            let q = k as int / size as int;
            assert(x == size * (-q - 1) + r) by (nonlinear_arith)
                requires
                    k == -(x + 1),
                    k == size * q + k as int % size as int,
                    r == size - 1 - k as int % size as int,
            ;
            assert(size * (-q - 1) == (-q - 1) * size) by (nonlinear_arith);
            vstd::arithmetic::div_mod::lemma_fundamental_div_mod_converse(
                x as int,
                size as int,
                -q - 1,
                r as int,
            );
        }
        r
    }
}

/// A coordinate or a length from a script.
pub fn to_u32(x: i64) -> (r: u32)
    ensures
        r == low_part(x, 0x1_0000_0000),
{
    remainder(x, 0x1_0000_0000) as u32
}

/// A colour value from a script.
pub fn to_u8(x: i64) -> (r: u8)
    ensures
        r == low_part(x, 0x100),
{
    remainder(x, 0x100) as u8
}

/// The position of a stick from a script.
pub fn to_i16(x: i64) -> (r: i16)
    ensures
        r == low_signed(x),
{
    let l: i64 = remainder(x, 0x1_0000);
    if l < 0x8000 {
        l as i16
    } else {
        (l - 0x1_0000) as i16
    }
}

/// The region of an image that a script names, as left, top, width and height.
pub open spec fn region(x: i64, y: i64, w: i64, h: i64) -> (u32, u32, u32, u32) {
    (
        low_part(x, 0x1_0000_0000) as u32,
        low_part(y, 0x1_0000_0000) as u32,
        low_part(w, 0x1_0000_0000) as u32,
        low_part(h, 0x1_0000_0000) as u32,
    )
}

/// The region of an image that a script names.
pub fn to_region(x: i64, y: i64, w: i64, h: i64) -> (r: (u32, u32, u32, u32))
    ensures
        r == region(x, y, w, h),
{
    (to_u32(x), to_u32(y), to_u32(w), to_u32(h))
}

/// The region in which a script looks for a picture: the whole image unless
/// both lengths are positive.
pub fn search_region(x: i64, y: i64, w: i64, h: i64) -> (r: Option<(u32, u32, u32, u32)>)
    ensures
        r == (if w > 0 && h > 0 {
            Some(region(x, y, w, h))
        } else {
            None
        }),
{
    if w > 0 && h > 0 {
        Some(to_region(x, y, w, h))
    } else {
        None
    }
}

/// What a script calls on the gamepad. What it leaves out has the usual value.
#[derive(Debug, Clone, Copy, PartialEq, Eq)]
pub enum PadCall {
    Press { button: Button, hold: Option<u64> },
    Release { button: Button, post: Option<u64> },
    Click { button: Button, hold: Option<u64>, post: Option<u64> },
    LStick { at: Option<(i64, i64)>, duration: Option<u64> },
    RStick { at: Option<(i64, i64)>, duration: Option<u64> },
    Reset,
}

/// The usual time of a press, and behind it.
pub const USUAL: u64 = 100_000;

/// A time that a script gives, or the usual one.
pub open spec fn or_usual(t: Option<u64>, usual: u64) -> u64 {
    match t {
        Some(t) => t,
        None => usual,
    }
}

/// A position of a stick that a script gives, or the middle.
pub open spec fn or_middle(at: Option<(i64, i64)>) -> (int, int) {
    match at {
        Some((x, y)) => (low_signed(x), low_signed(y)),
        None => (0, 0),
    }
}

/// The operation that a call stands for.
pub open spec fn command_of(c: PadCall) -> PadCommand {
    match c {
        PadCall::Press { button, hold } => PadCommand::Press {
            button: button.code(),
            hold: or_usual(hold, USUAL),
        },
        PadCall::Release { button, post } => PadCommand::Release {
            button: button.code(),
            post: or_usual(post, USUAL),
        },
        PadCall::Click { button, hold, post } => PadCommand::Click {
            button: button.code(),
            hold: or_usual(hold, USUAL),
            post: or_usual(post, USUAL),
        },
        PadCall::LStick { at, duration } => PadCommand::LStick {
            x: or_middle(at).0 as i16,
            y: or_middle(at).1 as i16,
            duration: or_usual(duration, 0),
        },
        PadCall::RStick { at, duration } => PadCommand::RStick {
            x: or_middle(at).0 as i16,
            y: or_middle(at).1 as i16,
            duration: or_usual(duration, 0),
        },
        PadCall::Reset => PadCommand::Reset,
    }
}

fn time_or(t: Option<u64>, usual: u64) -> (r: u64)
    ensures
        r == or_usual(t, usual),
{
    match t {
        Some(t) => t,
        None => usual,
    }
}

fn position_or_middle(at: Option<(i64, i64)>) -> (r: (i16, i16))
    ensures
        (r.0 as int, r.1 as int) == or_middle(at),
{
    match at {
        Some((x, y)) => (to_i16(x), to_i16(y)),
        None => (0, 0),
    }
}

/// The operation that a call stands for.
pub fn pad_command(c: PadCall) -> (r: PadCommand)
    ensures
        r == command_of(c),
{
    match c {
        PadCall::Press { button, hold } => PadCommand::Press {
            button: button.xbox(),
            hold: time_or(hold, USUAL),
        },
        PadCall::Release { button, post } => PadCommand::Release {
            button: button.xbox(),
            post: time_or(post, USUAL),
        },
        PadCall::Click { button, hold, post } => PadCommand::Click {
            button: button.xbox(),
            hold: time_or(hold, USUAL),
            post: time_or(post, USUAL),
        },
        PadCall::LStick { at, duration } => {
            let (x, y): (i16, i16) = position_or_middle(at);
            PadCommand::LStick { x, y, duration: time_or(duration, 0) }
        },
        PadCall::RStick { at, duration } => {
            let (x, y): (i16, i16) = position_or_middle(at);
            PadCommand::RStick { x, y, duration: time_or(duration, 0) }
        },
        PadCall::Reset => PadCommand::Reset,
    }
}

/// A coordinate from a script, as a number.
pub open spec fn coordinate(x: i64) -> int {
    low_part(x, 0x1_0000_0000)
}

/// A colour value from a script, as a number.
pub open spec fn colour(x: i64) -> u8 {
    low_part(x, 0x100) as u8
}

/// The red, green and blue of a pixel that a script names; nothing if the frame
/// has no such pixel.
pub fn script_pixel(img: &Image, x: i64, y: i64) -> (r: Option<[i64; 3]>)
    requires
        img.wf(),
    ensures
        match r {
            Some(p) => {
                &&& img.has(coordinate(x), coordinate(y))
                &&& p[0] == img.channel(coordinate(x), coordinate(y), 0)
                &&& p[1] == img.channel(coordinate(x), coordinate(y), 1)
                &&& p[2] == img.channel(coordinate(x), coordinate(y), 2)
            },
            None => !img.has(coordinate(x), coordinate(y)),
        },
{
    let (px, py): (u32, u32) = (to_u32(x), to_u32(y));
    if px < img.width && py < img.height {
        let p: [u8; 3] = get_pixel(img, px, py);
        Some([p[0] as i64, p[1] as i64, p[2] as i64])
    } else {
        None
    }
}

/// Whether a pixel that a script names has the colour that it names.
pub fn script_pixel_equal(img: &Image, x: i64, y: i64, r: i64, g: i64, b: i64) -> (s: Seen)
    requires
        img.wf(),
    ensures
        s == seen_equal(*img, coordinate(x), coordinate(y), colour(r), colour(g), colour(b)),
{
    see_equal(img, to_u32(x), to_u32(y), to_u8(r), to_u8(g), to_u8(b))
}

/// Whether a pixel that a script names is close to the colour that it names.
pub fn script_pixel_like(img: &Image, x: i64, y: i64, r: i64, g: i64, b: i64, v: i64) -> (s: Seen)
    requires
        img.wf(),
    ensures
        s == seen_like(
            *img,
            coordinate(x),
            coordinate(y),
            colour(r),
            colour(g),
            colour(b),
            colour(v),
        ),
{
    see_like(img, to_u32(x), to_u32(y), to_u8(r), to_u8(g), to_u8(b), to_u8(v))
}

/// A number that fits is taken as it is.
pub proof fn law_small_numbers_kept(x: i64)
    ensures
        0 <= x <= u32::MAX ==> low_part(x, 0x1_0000_0000) == x,
        0 <= x <= u8::MAX ==> low_part(x, 0x100) == x,
        i16::MIN <= x <= i16::MAX ==> low_signed(x) == x,
{
}

/// The names that scripts have for the controls.
pub open spec fn control_names() -> Seq<(Seq<char>, Button)> {
    seq![
        ("UP"@, Button::Up),
        ("DOWN"@, Button::Down),
        ("LEFT"@, Button::Left),
        ("RIGHT"@, Button::Right),
        ("START"@, Button::Start),
        ("BACK"@, Button::Back),
        ("LS"@, Button::LS),
        ("RS"@, Button::RS),
        ("LB"@, Button::LB),
        ("RB"@, Button::RB),
        ("GUIDE"@, Button::Guide),
        ("A"@, Button::A),
        ("B"@, Button::B),
        ("X"@, Button::X),
        ("Y"@, Button::Y),
        ("LT"@, Button::LT),
        ("RT"@, Button::RT),
    ]
}

/// The names that scripts have for the controls.
pub fn controls() -> (r: Vec<(&'static str, Button)>)
    ensures
        r@.map_values(|p: (&'static str, Button)| (p.0@, p.1)) == control_names(),
{
    let r: Vec<(&'static str, Button)> = vec![
        ("UP", Button::Up),
        ("DOWN", Button::Down),
        ("LEFT", Button::Left),
        ("RIGHT", Button::Right),
        ("START", Button::Start),
        ("BACK", Button::Back),
        ("LS", Button::LS),
        ("RS", Button::RS),
        ("LB", Button::LB),
        ("RB", Button::RB),
        ("GUIDE", Button::Guide),
        ("A", Button::A),
        ("B", Button::B),
        ("X", Button::X),
        ("Y", Button::Y),
        ("LT", Button::LT),
        ("RT", Button::RT),
    ];
    assert(r@.map_values(|p: (&'static str, Button)| (p.0@, p.1)) =~= control_names());
    r
}

/// Every control has a name.
pub proof fn law_every_control_named(b: Button)
    ensures
        exists|i: int| 0 <= i < control_names().len() && (#[trigger] control_names()[i]).1 == b,
{
    let list = control_names();
    let i: int = match b {
        Button::Up => 0,
        Button::Down => 1,
        Button::Left => 2,
        Button::Right => 3,
        Button::Start => 4,
        Button::Back => 5,
        Button::LS => 6,
        Button::RS => 7,
        Button::LB => 8,
        Button::RB => 9,
        Button::Guide => 10,
        Button::A => 11,
        Button::B => 12,
        Button::X => 13,
        Button::Y => 14,
        Button::LT => 15,
        Button::RT => 16,
    };
    assert(list[i].1 == b);
}

// ---------------------------------------------------------------------------
// Laws of what scripts say and are given
// ---------------------------------------------------------------------------

/// What a header says counts as it is said: the truth value of `loop`, the number
/// of `timeout` and the texts of `author` and `desc`. What it does not say, or says
/// in another kind of value, is as usual: repeated, a day, and nothing.
pub proof fn law_header_counts_as_it_is_said(m: Nodes)
    ensures
        ({
            let said = |key: Seq<char>|
                if m[Seq::<JsonStep>::empty()] matches JsonNode::Object(keys) && keys.contains(
                    key,
                ) {
                    under(m, JsonStep::Key(key))[Seq::<JsonStep>::empty()]
                } else {
                    JsonNode::Null
                };
            let r = meta_in(m);
            &&& said("loop"@) matches JsonNode::Bool(b) ==> r.looped == b
            &&& !(said("loop"@) is Bool) ==> r.looped
            &&& said("timeout"@) matches JsonNode::Whole(n) ==> r.timeout == (if 0 <= n
                <= u64::MAX {
                n
            } else {
                86400
            })
            &&& !(said("timeout"@) is Whole) ==> r.timeout == 86400
            &&& said("author"@) matches JsonNode::Text(s) ==> r.author == s
            &&& !(said("author"@) is Text) ==> r.author.len() == 0
            &&& said("desc"@) matches JsonNode::Text(s) ==> r.desc == s
            &&& !(said("desc"@) is Text) ==> r.desc.len() == 0
        }),
{
}

/// Two headers that say opposite truth values of `loop` give opposite values; what
/// else they say does not matter.
pub proof fn law_loop_and_no_loop_differ(a: Nodes, b: Nodes)
    requires
        member(a, "loop"@) is Some,
        member(b, "loop"@) is Some,
        as_bool(member(a, "loop"@)->0) == Some(true),
        as_bool(member(b, "loop"@)->0) == Some(false),
    ensures
        meta_in(a).looped,
        !meta_in(b).looped,
{
}

/// A script without a header, or whose header is no JSON, is repeated, may take a
/// day, and says nothing; else its header counts.
pub proof fn law_header_or_the_usual(script: Seq<char>)
    ensures
        ({
            let found = header(lines(script), false);
            let doc = json_document(join(found, seq!['\n']));
            let m = meta_of(script);
            &&& found.len() > 0 && doc is Some ==> m == meta_in(doc->0)
            &&& found.len() == 0 || doc is None ==> {
                &&& m.looped
                &&& m.timeout == 86400
                &&& m.author.len() == 0
                &&& m.desc.len() == 0
            }
        }),
{
}

/// A line is a comment exactly when, without the white space around it, it is two
/// slashes and a text; what counts is that text, without the white space around it.
pub proof fn law_comments_begin_with_slashes(line: Seq<char>, text: Seq<char>)
    ensures
        trim(line) == seq!['/', '/'] + text ==> comment(line) == Some(trim(text)),
        comment(line) is Some <==> trim(line).len() >= 2 && trim(line)[0] == '/' && trim(line)[1]
            == '/',
{
    let t = trim(line);
    if t == seq!['/', '/'] + text {
        assert(t.skip(2) =~= text);
        assert(t.subrange(0, 2) =~= seq!['/', '/']);
    }
    if t.len() >= 2 && t[0] == '/' && t[1] == '/' {
        assert(t.subrange(0, 2) =~= seq!['/', '/']);
    }
    if comment(line) is Some {
        assert(t.subrange(0, 2)[0] == '/' && t.subrange(0, 2)[1] == '/');
    }
}

/// A new task is not paused, and in its first turn.
pub proof fn law_task_begins()
    ensures
        !fresh_task().pause,
        fresh_task().cur_turn == 1,
{
}

/// A script is given five constants, whose names differ; each has the value of the
/// argument that it is named after.
pub proof fn law_script_is_given_its_arguments(args: ArgsView, i: int, j: int)
    requires
        0 <= i < j < 5,
    ensures
        script_constants(args).len() == 5,
        script_constants(args)[i].0 != script_constants(args)[j].0,
        script_constants(args).contains(("BOOST"@, Constant::Signed(args.boost as int))),
        script_constants(args).contains(("STRATEGY"@, Constant::Text(args.strategy))),
        script_constants(args).contains(("COMBO"@, Constant::Text(args.combo))),
        script_constants(args).contains(("TURN"@, Constant::Signed(args.turn as int))),
        script_constants(args).contains(("TIMEOUT"@, Constant::Unsigned(args.timeout as int))),
{
    let c = script_constants(args);
    reveal_strlit("BOOST");
    reveal_strlit("STRATEGY");
    reveal_strlit("COMBO");
    reveal_strlit("TURN");
    reveal_strlit("TIMEOUT");
    assert("BOOST"@[0] == 'B' && "COMBO"@[0] == 'C');
    assert("BOOST"@.len() == 5 && "COMBO"@.len() == 5 && "TURN"@.len() == 4);
    assert("STRATEGY"@.len() == 8 && "TIMEOUT"@.len() == 7);
    assert(c[0] == ("BOOST"@, Constant::Signed(args.boost as int)));
    assert(c[1] == ("STRATEGY"@, Constant::Text(args.strategy)));
    assert(c[2] == ("COMBO"@, Constant::Text(args.combo)));
    assert(c[3] == ("TURN"@, Constant::Signed(args.turn as int)));
    assert(c[4] == ("TIMEOUT"@, Constant::Unsigned(args.timeout as int)));
}

/// A wait is cut into stretches of a fifth of a second, of which only the last may
/// be shorter; none follows a stop request or the end of the wait.
pub proof fn law_nap_is_a_fifth_of_a_second(waited: int, total: int, stop: bool)
    ensures
        nap(waited, total, stop) is None <==> stop || waited >= total,
        nap(waited, total, stop) matches Some(n) ==> {
            &&& 0 < n <= 200_000
            &&& waited + n <= total
            &&& n < 200_000 ==> waited + n == total
        },
{
}

/// Of a number from a script only its low digits count: two numbers that differ by
/// a multiple of the size are the same, and what fits stays.
pub proof fn law_low_digits_count(x: i64, y: i64)
    ensures
        (x - y) % 0x1_0000_0000 == 0 ==> low_part(x, 0x1_0000_0000) == low_part(y, 0x1_0000_0000),
        (x - y) % 0x100 == 0 ==> low_part(x, 0x100) == low_part(y, 0x100),
        0 <= low_part(x, 0x1_0000_0000) < 0x1_0000_0000,
        0 <= low_part(x, 0x100) < 0x100,
        (x - low_part(x, 0x1_0000_0000)) % 0x1_0000_0000 == 0,
        (x - low_part(x, 0x100)) % 0x100 == 0,
        -0x8000 <= low_signed(x) < 0x8000,
        (x - low_signed(x)) % 0x1_0000 == 0,
        coordinate(x) == low_part(x, 0x1_0000_0000),
        colour(x) == low_part(x, 0x100),
{
}

/// A region has its four numbers in their order.
pub proof fn law_region_in_order(x: i64, y: i64, w: i64, h: i64)
    ensures
        region(x, y, w, h).0 == low_part(x, 0x1_0000_0000),
        region(x, y, w, h).1 == low_part(y, 0x1_0000_0000),
        region(x, y, w, h).2 == low_part(w, 0x1_0000_0000),
        region(x, y, w, h).3 == low_part(h, 0x1_0000_0000),
{
}

/// A call on the gamepad does to its control what it says, for the times that it
/// gives; a time that is left out is a tenth of a second for buttons and none for
/// sticks, and a stick without a position goes to the middle.
pub proof fn law_calls_do_what_they_say(button: Button, a: u64, b: u64, x: i64, y: i64)
    ensures
        command_of(PadCall::Press { button, hold: Some(a) }) == (PadCommand::Press {
            button: button.code(),
            hold: a,
        }),
        command_of(PadCall::Press { button, hold: None }) == (PadCommand::Press {
            button: button.code(),
            hold: 100_000,
        }),
        command_of(PadCall::Release { button, post: Some(a) }) == (PadCommand::Release {
            button: button.code(),
            post: a,
        }),
        command_of(PadCall::Release { button, post: None }) == (PadCommand::Release {
            button: button.code(),
            post: 100_000,
        }),
        command_of(PadCall::Click { button, hold: Some(a), post: Some(b) }) == (
        PadCommand::Click { button: button.code(), hold: a, post: b }),
        command_of(PadCall::Click { button, hold: Some(a), post: None }) == (PadCommand::Click {
            button: button.code(),
            hold: a,
            post: 100_000,
        }),
        command_of(PadCall::Click { button, hold: None, post: None }) == (PadCommand::Click {
            button: button.code(),
            hold: 100_000,
            post: 100_000,
        }),
        command_of(PadCall::Click { button, hold: None, post: Some(b) }) == (PadCommand::Click {
            button: button.code(),
            hold: 100_000,
            post: b,
        }),
        command_of(PadCall::LStick { at: None, duration: None }) == (PadCommand::LStick {
            x: 0,
            y: 0,
            duration: 0,
        }),
        command_of(PadCall::RStick { at: None, duration: None }) == (PadCommand::RStick {
            x: 0,
            y: 0,
            duration: 0,
        }),
        command_of(PadCall::LStick { at: Some((x, y)), duration: Some(a) }) == (
        PadCommand::LStick { x: low_signed(x) as i16, y: low_signed(y) as i16, duration: a }),
        command_of(PadCall::RStick { at: Some((x, y)), duration: Some(a) }) == (
        PadCommand::RStick { x: low_signed(x) as i16, y: low_signed(y) as i16, duration: a }),
        command_of(PadCall::LStick { at: Some((x, y)), duration: None }) == (PadCommand::LStick {
            x: low_signed(x) as i16,
            y: low_signed(y) as i16,
            duration: 0,
        }),
        command_of(PadCall::RStick { at: Some((x, y)), duration: None }) == (PadCommand::RStick {
            x: low_signed(x) as i16,
            y: low_signed(y) as i16,
            duration: 0,
        }),
        command_of(PadCall::LStick { at: None, duration: Some(a) }) == (PadCommand::LStick {
            x: 0,
            y: 0,
            duration: a,
        }),
        command_of(PadCall::RStick { at: None, duration: Some(a) }) == (PadCommand::RStick {
            x: 0,
            y: 0,
            duration: a,
        }),
        command_of(PadCall::Reset) is Reset,
{
}

/// Every control has one name, and no two have the same.
pub proof fn law_names_of_controls_differ(i: int, j: int)
    requires
        0 <= i < j < control_names().len(),
    ensures
        control_names().len() == 17,
        control_names()[i].0 != control_names()[j].0,
        control_names()[i].1 != control_names()[j].1,
{
    let l = control_names();
    reveal_strlit("UP");
    reveal_strlit("DOWN");
    reveal_strlit("LEFT");
    reveal_strlit("RIGHT");
    reveal_strlit("START");
    reveal_strlit("BACK");
    reveal_strlit("LS");
    reveal_strlit("RS");
    reveal_strlit("LB");
    reveal_strlit("RB");
    reveal_strlit("GUIDE");
    reveal_strlit("A");
    reveal_strlit("B");
    reveal_strlit("X");
    reveal_strlit("Y");
    reveal_strlit("LT");
    reveal_strlit("RT");
    assert(l[i].0.len() == l[j].0.len() ==> l[i].0[0] != l[j].0[0] || l[i].0[1] != l[j].0[1]);
}

/// The names of the controls, for each control.
pub proof fn law_name_of_a_control(b: Button)
    ensures
        control_names().contains((
            match b {
                Button::Up => "UP"@,
                Button::Down => "DOWN"@,
                Button::Left => "LEFT"@,
                Button::Right => "RIGHT"@,
                Button::Start => "START"@,
                Button::Back => "BACK"@,
                Button::LS => "LS"@,
                Button::RS => "RS"@,
                Button::LB => "LB"@,
                Button::RB => "RB"@,
                Button::Guide => "GUIDE"@,
                Button::A => "A"@,
                Button::B => "B"@,
                Button::X => "X"@,
                Button::Y => "Y"@,
                Button::LT => "LT"@,
                Button::RT => "RT"@,
            },
            b,
        )),
{
    let l = control_names();
    let at = match b {
        Button::Up => 0int,
        Button::Down => 1,
        Button::Left => 2,
        Button::Right => 3,
        Button::Start => 4,
        Button::Back => 5,
        Button::LS => 6,
        Button::RS => 7,
        Button::LB => 8,
        Button::RB => 9,
        Button::Guide => 10,
        Button::A => 11,
        Button::B => 12,
        Button::X => 13,
        Button::Y => 14,
        Button::LT => 15,
        Button::RT => 16,
    };
    assert(l[at].1 == b);
}

/// What a header is seen as is what it holds.
pub proof fn law_header_is_seen_as_it_is(m: ScriptMeta)
    ensures
        m@.author == m.author@,
        m@.desc == m.desc@,
        m@.looped == m.looped,
        m@.timeout == m.timeout,
{
}

} // verus!
