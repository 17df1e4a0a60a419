//! What the command line asks for: the program's branches, the items of a plan,
//! and the files of the scripts.

use vstd::prelude::*;
use crate::game::{Args, ArgsView, GameType};
use crate::text::{
    chars_of, join, joined, number, parse_number, rows, same, split, split_at, split_at_first,
    split_once, string_of, texts,
};

verus! {

// ---------------------------------------------------------------------------
// Branches
// ---------------------------------------------------------------------------

/// What the program does.
pub enum Branch {
    /// Start itself again with the rights of an administrator.
    Elevate,
    /// Show the user interface.
    Interface,
    /// Carry a plan out.
    Plan(GameType),
    /// Say that a task is missing.
    NoTask,
    /// Write a picture of the window to a file.
    Shot(GameType),
    /// Activate the window.
    Activate(GameType),
    /// Start the game.
    Launch(GameType),
    /// Run a task.
    Task(GameType, String),
}

/// What the program does, as mathematical values.
pub enum BranchView {
    Elevate,
    Interface,
    Plan(GameType),
    NoTask,
    Shot(GameType),
    Activate(GameType),
    Launch(GameType),
    Task(GameType, Seq<char>),
}

impl View for Branch {
    type V = BranchView;

    open spec fn view(&self) -> BranchView {
        match self {
            Branch::Elevate => BranchView::Elevate,
            Branch::Interface => BranchView::Interface,
            Branch::Plan(g) => BranchView::Plan(*g),
            Branch::NoTask => BranchView::NoTask,
            Branch::Shot(g) => BranchView::Shot(*g),
            Branch::Activate(g) => BranchView::Activate(*g),
            Branch::Launch(g) => BranchView::Launch(*g),
            Branch::Task(g, t) => BranchView::Task(*g, t@),
        }
    }
}

/// What the program does with its arguments. A plan goes before a task, and
/// three names of tasks have a meaning of their own.
pub open spec fn branch_of(args: ArgsView, admin: bool) -> BranchView {
    if !admin {
        BranchView::Elevate
    } else {
        match args.game {
            None => BranchView::Interface,
            Some(g) => if args.plan.len() > 0 {
                BranchView::Plan(g)
            } else {
                match args.task {
                    None => BranchView::NoTask,
                    Some(t) => if t == "shot"@ {
                        BranchView::Shot(g)
                    } else if t == "act"@ {
                        BranchView::Activate(g)
                    } else if t == "launch"@ {
                        BranchView::Launch(g)
                    } else {
                        BranchView::Task(g, t)
                    },
                }
            },
        }
    }
}

/// What the program does with its arguments.
pub fn dispatch(args: &Args, admin: bool) -> (b: Branch)
    ensures
        b@ == branch_of(args@, admin),
{
    if !admin {
        return Branch::Elevate;
    }
    let game: GameType = match args.game {
        Some(game) => game,
        None => {
            return Branch::Interface;
        },
    };
    assert(texts(args.plan@).len() == args.plan@.len());
    if args.plan.len() > 0 {
        return Branch::Plan(game);
    }
    match &args.task {
        None => Branch::NoTask,
        Some(t) => {
            if same(t.as_str(), "shot") {
                Branch::Shot(game)
            } else if same(t.as_str(), "act") {
                Branch::Activate(game)
            } else if same(t.as_str(), "launch") {
                Branch::Launch(game)
            } else {
                Branch::Task(game, t.clone())
            }
        },
    }
}

// ---------------------------------------------------------------------------
// Starting again
// ---------------------------------------------------------------------------

/// A text with a backslash before each quotation mark.
pub open spec fn marks_escaped(s: Seq<char>) -> Seq<char>
    decreases s.len(),
{
    if s.len() == 0 {
        seq![]
    } else if s.last() == '"' {
        marks_escaped(s.drop_last()) + seq!['\\', '"']
    } else {
        marks_escaped(s.drop_last()).push(s.last())
    }
}

/// An argument as the command line has it: in quotation marks if it has a space
/// or a tabulator.
pub open spec fn argument(s: Seq<char>) -> Seq<char> {
    if s.contains(' ') || s.contains('\t') {
        seq!['"'] + marks_escaped(s) + seq!['"']
    } else {
        s
    }
}

fn has_blank(v: &Vec<char>) -> (yes: bool)
    ensures
        yes == (v@.contains(' ') || v@.contains('\t')),
{
    let mut i: usize = 0;
    while i < v.len()
        invariant
            i <= v@.len(),
            forall|k: int| 0 <= k < i ==> (#[trigger] v@[k]) != ' ' && v@[k] != '\t',
        decreases v@.len() - i,
    {
        if v[i] == ' ' || v[i] == '\t' {
            assert(v@[i as int] == ' ' || v@[i as int] == '\t');
            return true;
        }
        i += 1;
    }
    false
}

/// An argument as the command line has it.
pub fn quote(arg: &str) -> (r: String)
    ensures
        r@ == argument(arg@),
{
    let v: Vec<char> = chars_of(arg);
    if !has_blank(&v) {
        return string_of(&v);
    }
    let mut r: String = String::new();
    r.push('"');
    let mut i: usize = 0;
    assert(v@.take(0) =~= seq![]);
    assert(r@ =~= seq!['"'] + marks_escaped(v@.take(0)));
    while i < v.len()
        invariant
            i <= v@.len(),
            r@ == seq!['"'] + marks_escaped(v@.take(i as int)),
        decreases v@.len() - i,
    {
        let ghost had = r@;
        let c: char = v[i];
        proof {
            assert(v@.take(i + 1).drop_last() =~= v@.take(i as int));
            assert(v@.take(i + 1).last() == c);
        }
        if c == '"' {
            r.push('\\');
        }
        r.push(c);
        assert(r@ =~= seq!['"'] + marks_escaped(v@.take(i + 1)));
        i += 1;
    }
    assert(v@.take(i as int) =~= v@);
    r.push('"');
    assert(r@ =~= argument(arg@));
    r
}

/// The arguments as one command line.
pub open spec fn command_line(args: Seq<Seq<char>>) -> Seq<char> {
    join(args.map_values(|s: Seq<char>| argument(s)), seq![' '])
}

/// The arguments as one command line.
pub fn parameters(args: &Vec<String>) -> (r: String)
    ensures
        r@ == command_line(texts(args@)),
{
    let mut list: Vec<String> = Vec::new();
    let mut i: usize = 0;
    while i < args.len()
        invariant
            i <= args@.len(),
            list@.len() == i,
            forall|k: int| 0 <= k < i ==> (#[trigger] list@[k])@ == argument(args@[k]@),
        decreases args@.len() - i,
    {
        list.push(quote(args[i].as_str()));
        i += 1;
    }
    proof {
        reveal_strlit(" ");
        assert(" "@ =~= seq![' ']);
        assert(texts(list@) =~= texts(args@).map_values(|s: Seq<char>| argument(s)));
    }
    joined(&list, " ")
}

// ---------------------------------------------------------------------------
// Plans
// ---------------------------------------------------------------------------

/// Why an item of a plan is refused.
#[derive(Debug)]
pub enum PlanError {
    /// It names no task.
    NoTask(String),
    /// A parameter has no value.
    NoValue(String),
    /// The value of a parameter is no number.
    BadBoost,
    BadTurn,
    BadTimeout,
    /// There is no such parameter.
    Unknown(String),
}

/// Why an item of a plan is refused, as mathematical values.
pub enum PlanFault {
    NoTask(Seq<char>),
    NoValue(Seq<char>),
    BadBoost,
    BadTurn,
    BadTimeout,
    Unknown(Seq<char>),
}

impl View for PlanError {
    type V = PlanFault;

    open spec fn view(&self) -> PlanFault {
        match self {
            PlanError::NoTask(s) => PlanFault::NoTask(s@),
            PlanError::NoValue(s) => PlanFault::NoValue(s@),
            PlanError::BadBoost => PlanFault::BadBoost,
            PlanError::BadTurn => PlanFault::BadTurn,
            PlanError::BadTimeout => PlanFault::BadTimeout,
            PlanError::Unknown(s) => PlanFault::Unknown(s@),
        }
    }
}

impl PlanError {
    /// The message that the user reads.
    pub open spec fn text(self) -> Seq<char> {
        match self@ {
            PlanFault::NoTask(s) => "计划项格式错误："@ + s,
            PlanFault::NoValue(s) => "计划项参数格式错误："@ + s + "（示例：任务A:b=3,t=20）"@,
            PlanFault::BadBoost => "boost 必须是数字"@,
            PlanFault::BadTurn => "turn 必须是数字"@,
            PlanFault::BadTimeout => "timeout 必须是数字"@,
            PlanFault::Unknown(s) => "未知参数："@ + s + "（可用 b/s/c/t/o）"@,
        }
    }

    /// The message that the user reads.
    pub fn message(&self) -> (r: String)
        ensures
            r@ == self.text(),
    {
        match self {
            PlanError::NoTask(s) => {
                let mut r: String = "计划项格式错误：".to_owned();
                r.append(s.as_str());
                r
            },
            PlanError::NoValue(s) => {
                let mut r: String = "计划项参数格式错误：".to_owned();
                r.append(s.as_str());
                r.append("（示例：任务A:b=3,t=20）");
                r
            },
            PlanError::BadBoost => "boost 必须是数字".to_owned(),
            PlanError::BadTurn => "turn 必须是数字".to_owned(),
            PlanError::BadTimeout => "timeout 必须是数字".to_owned(),
            PlanError::Unknown(s) => {
                let mut r: String = "未知参数：".to_owned();
                r.append(s.as_str());
                r.append("（可用 b/s/c/t/o）");
                r
            },
        }
    }
}

/// The arguments behind one parameter, such as `b=3`.
pub open spec fn with_parameter(args: ArgsView, kv: Seq<char>) -> Result<ArgsView, PlanFault> {
    match split_once(kv, '=') {
        None => Err(PlanFault::NoValue(kv)),
        Some((k, v)) => if k == seq!['b'] {
            match number(v, u32::MAX as nat) {
                Some(n) => Ok(ArgsView { boost: n as u32, ..args }),
                None => Err(PlanFault::BadBoost),
            }
        } else if k == seq!['s'] {
            Ok(ArgsView { strategy: v, ..args })
        } else if k == seq!['c'] {
            Ok(ArgsView { combo: v, ..args })
        } else if k == seq!['t'] {
            match number(v, u32::MAX as nat) {
                Some(n) => Ok(ArgsView { turn: n as u32, ..args }),
                None => Err(PlanFault::BadTurn),
            }
        } else if k == seq!['o'] {
            match number(v, u64::MAX as nat) {
                Some(n) => Ok(ArgsView { timeout: n as u64, ..args }),
                None => Err(PlanFault::BadTimeout),
            }
        } else {
            Err(PlanFault::Unknown(k))
        },
    }
}

/// The arguments behind a list of parameters, the first of which counts first.
/// Empty ones are passed over.
pub open spec fn with_parameters(args: ArgsView, list: Seq<Seq<char>>) -> Result<ArgsView, PlanFault>
    decreases list.len(),
{
    if list.len() == 0 {
        Ok(args)
    } else if list[0].len() == 0 {
        with_parameters(args, list.drop_first())
    } else {
        match with_parameter(args, list[0]) {
            Ok(a) => with_parameters(a, list.drop_first()),
            Err(e) => Err(e),
        }
    }
}

/// The task and the parameters of an item of a plan: what stands before and
/// behind the first colon.
pub open spec fn item_parts(item: Seq<char>) -> (Seq<char>, Seq<char>) {
    match split_once(item, ':') {
        Some(p) => p,
        None => (item, seq![]),
    }
}

/// The task of an item of a plan with its arguments, or why it is refused.
pub open spec fn item_of(args: ArgsView, item: Seq<char>) -> Result<
    (Seq<char>, ArgsView),
    PlanFault,
> {
    let (task, params) = item_parts(item);
    if task.len() == 0 {
        Err(PlanFault::NoTask(item))
    } else {
        match with_parameters(args, split(params, ',')) {
            Ok(a) => Ok((task, a)),
            Err(e) => Err(e),
        }
    }
}

fn is_char(v: &Vec<char>, c: char) -> (yes: bool)
    ensures
        yes == (v@ == seq![c]),
{
    let yes: bool = v.len() == 1 && v[0] == c;
    assert(yes ==> v@ =~= seq![c]);
    yes
}

fn set_parameter(args: &mut Args, kv: &Vec<char>) -> (r: Result<(), PlanError>)
    ensures
        match r {
            Ok(_) => with_parameter(old(args)@, kv@) == Ok::<ArgsView, PlanFault>(final(args)@),
            Err(e) => with_parameter(old(args)@, kv@) == Err::<ArgsView, PlanFault>(e@),
        },
{
    let (k, v): (Vec<char>, Vec<char>) = match split_at_first(kv, '=') {
        Some(p) => p,
        None => {
            return Err(PlanError::NoValue(string_of(kv)));
        },
    };
    let text: String = string_of(&v);
    if is_char(&k, 'b') {
        match parse_number(text.as_str(), u32::MAX as u64) {
            Some(n) => {
                args.boost = n as u32;
            },
            None => {
                return Err(PlanError::BadBoost);
            },
        }
    } else if is_char(&k, 's') {
        args.strategy = text;
    } else if is_char(&k, 'c') {
        args.combo = text;
    } else if is_char(&k, 't') {
        match parse_number(text.as_str(), u32::MAX as u64) {
            Some(n) => {
                args.turn = n as u32;
            },
            None => {
                return Err(PlanError::BadTurn);
            },
        }
    } else if is_char(&k, 'o') {
        match parse_number(text.as_str(), u64::MAX) {
            Some(n) => {
                args.timeout = n;
            },
            None => {
                return Err(PlanError::BadTimeout);
            },
        }
    } else {
        return Err(PlanError::Unknown(string_of(&k)));
    }
    Ok(())
}

/// What a reading of an item means.
pub open spec fn item_outcome(r: Result<(String, Args), PlanError>) -> Result<
    (Seq<char>, ArgsView),
    PlanFault,
> {
    match r {
        Ok((task, args)) => Ok((task@, args@)),
        Err(e) => Err(e@),
    }
}

/// Reads an item of a plan, such as `task:b=3,t=20`: the task, and the arguments
/// with the parameters of the item in place of those of the command line.
pub fn plan_item(args: &Args, item: &str) -> (r: Result<(String, Args), PlanError>)
    ensures
        item_outcome(r) == item_of(args@, item@),
{
    let all: Vec<char> = chars_of(item);
    let (task, params): (Vec<char>, Vec<char>) = match split_at_first(&all, ':') {
        Some(p) => p,
        None => (chars_of(item), Vec::new()),
    };
    assert(item_parts(item@) == (task@, params@)) by {
        assert(split_once(item@, ':') is None ==> params@ =~= seq![]);
    }
    if task.len() == 0 {
        return Err(PlanError::NoTask(item.to_owned()));
    }
    let mut task_args: Args = args.clone();
    let list: Vec<Vec<char>> = split_at(&params, ',');
    let ghost parts = rows(list@);
    let mut i: usize = 0;
    assert(parts.skip(0) =~= parts);
    while i < list.len()
        invariant
            i <= list@.len(),
            parts == rows(list@),
            parts == split(params@, ','),
            item_parts(item@) == (task@, params@),
            task@.len() > 0,
            with_parameters(task_args@, parts.skip(i as int)) == with_parameters(args@, parts),
        decreases list@.len() - i,
    {
        let ghost rest = parts.skip(i as int);
        proof {
            assert(rest[0] == list@[i as int]@);
            assert(rest.drop_first() =~= parts.skip(i + 1));
        }
        if list[i].len() > 0 {
            match set_parameter(&mut task_args, &list[i]) {
                Ok(_) => {},
                Err(e) => {
                    return Err(e);
                },
            }
        }
        i += 1;
    }
    assert(parts.skip(i as int) =~= seq![]);
    Ok((string_of(&task), task_args))
}

/// What is done next in a plan.
#[derive(Debug)]
pub enum PlanMove {
    /// Run a task with its arguments.
    Run { task: String, args: Args },
    /// Refuse the item, and with it what is left of the plan.
    Fail(PlanError),
    /// End with the failure of the task that was run.
    Stop,
    /// The plan is done.
    Done,
}

/// What is done next in a plan, as mathematical values.
pub enum PlanStep {
    Run { task: Seq<char>, args: ArgsView },
    Fail(PlanFault),
    Stop,
    Done,
}

impl View for PlanMove {
    type V = PlanStep;

    open spec fn view(&self) -> PlanStep {
        match self {
            PlanMove::Run { task, args } => PlanStep::Run { task: task@, args: args@ },
            PlanMove::Fail(e) => PlanStep::Fail(e@),
            PlanMove::Stop => PlanStep::Stop,
            PlanMove::Done => PlanStep::Done,
        }
    }
}

/// What is done in a plan when the first `done` items were run.
pub open spec fn step_at(args: ArgsView, done: int) -> PlanStep {
    if done >= args.plan.len() {
        PlanStep::Done
    } else {
        match item_of(args, args.plan[done]) {
            Ok((task, a)) => PlanStep::Run { task, args: a },
            Err(e) => PlanStep::Fail(e),
        }
    }
}

/// What is done in a plan behind the item at the place `done`, which was run and
/// has failed or not.
pub open spec fn step_behind(args: ArgsView, done: int, failed: bool) -> PlanStep {
    if failed {
        PlanStep::Stop
    } else {
        step_at(args, done + 1)
    }
}

/// What is done in a plan when the first `done` items were run.
pub fn next_item(args: &Args, done: usize) -> (m: PlanMove)
    requires
        done <= args.plan@.len(),
    ensures
        m@ == step_at(args@, done as int),
        match m {
            PlanMove::Done => done == args.plan@.len(),
            PlanMove::Run { task, args: a } => done < args.plan@.len() && item_of(
                args@,
                args@.plan[done as int],
            ) == Ok::<(Seq<char>, ArgsView), PlanFault>((task@, a@)),
            PlanMove::Fail(e) => done < args.plan@.len() && item_of(
                args@,
                args@.plan[done as int],
            ) == Err::<(Seq<char>, ArgsView), PlanFault>(e@),
            PlanMove::Stop => false,
        },
{
    assert(args@.plan.len() == args.plan@.len());
    if done >= args.plan.len() {
        return PlanMove::Done;
    }
    assert(args@.plan[done as int] == args.plan@[done as int]@);
    match plan_item(args, args.plan[done].as_str()) {
        Ok((task, a)) => PlanMove::Run { task, args: a },
        Err(e) => PlanMove::Fail(e),
    }
}

/// What is done in a plan behind the item at the place `done`, which was run and
/// has failed or not.
pub fn after_item(args: &Args, done: usize, failed: bool) -> (m: PlanMove)
    requires
        done < args.plan@.len(),
    ensures
        m@ == step_behind(args@, done as int, failed),
{
    assert(args.plan.len() == args.plan@.len());
    if failed {
        PlanMove::Stop
    } else {
        next_item(args, done + 1)
    }
}

/// The tasks that are run of a plan, with their arguments, when the first `done`
/// items were run: `fails` says which of the runs fail.
pub open spec fn tasks_run(args: ArgsView, fails: spec_fn(int) -> bool, done: int) -> Seq<
    (Seq<char>, ArgsView),
>
    decreases args.plan.len() - done,
{
    match step_at(args, done) {
        PlanStep::Run { task, args: a } => if done >= args.plan.len() || step_behind(
            args,
            done,
            fails(done),
        ) is Stop {
            seq![(task, a)]
        } else {
            seq![(task, a)] + tasks_run(args, fails, done + 1)
        },
        _ => seq![],
    }
}

/// The tasks of the items of a plan from one place up to another, if none is
/// refused.
pub open spec fn tasks_between(args: ArgsView, from: int, to: int) -> Seq<(Seq<char>, ArgsView)> {
    Seq::new((to - from) as nat, |i: int| item_of(args, args.plan[from + i])->Ok_0)
}

/// A plan is run in order up to the first item that is refused or whose run
/// fails, or to its end: every item before that one is run once, a failing one is
/// run too, and nothing behind it is.
pub proof fn law_plan_is_run_in_order(args: ArgsView, fails: spec_fn(int) -> bool, n: int)
    requires
        0 <= n <= args.plan.len(),
        forall|i: int|
            0 <= i < n ==> item_of(args, #[trigger] args.plan[i]) is Ok && !fails(i),
    ensures
        n == args.plan.len() ==> tasks_run(args, fails, 0) == tasks_between(args, 0, n),
        n < args.plan.len() && item_of(args, args.plan[n]) is Err ==> tasks_run(args, fails, 0)
            == tasks_between(args, 0, n),
        n < args.plan.len() && item_of(args, args.plan[n]) is Ok && fails(n) ==> tasks_run(
            args,
            fails,
            0,
        ) == tasks_between(args, 0, n + 1),
{
    lemma_plan_from(args, fails, 0, n);
    let rest = tasks_run(args, fails, n);
    if n == args.plan.len() || item_of(args, args.plan[n]) is Err {
        assert(rest =~= seq![]);
        assert(tasks_between(args, 0, n) + rest =~= tasks_between(args, 0, n));
    } else if fails(n) {
        assert(rest =~= seq![item_of(args, args.plan[n])->Ok_0]);
        assert(tasks_between(args, 0, n) + rest =~= tasks_between(args, 0, n + 1));
    }
}

proof fn lemma_plan_from(args: ArgsView, fails: spec_fn(int) -> bool, from: int, n: int)
    requires
        0 <= from <= n <= args.plan.len(),
        forall|i: int|
            0 <= i < n ==> item_of(args, #[trigger] args.plan[i]) is Ok && !fails(i),
    ensures
        tasks_run(args, fails, from) == tasks_between(args, from, n) + tasks_run(args, fails, n),
    decreases n - from,
{
    if from == n {
        assert(tasks_between(args, from, n) + tasks_run(args, fails, n) =~= tasks_run(
            args,
            fails,
            n,
        ));
    } else {
        lemma_plan_from(args, fails, from + 1, n);
        let first = item_of(args, args.plan[from])->Ok_0;
        assert(step_behind(args, from, false) == step_at(args, from + 1));
        assert(!(step_at(args, from + 1) is Stop));
        assert(tasks_run(args, fails, from) == seq![first] + tasks_run(args, fails, from + 1));
        assert(tasks_between(args, from, n) =~= seq![first] + tasks_between(args, from + 1, n));
        assert(tasks_run(args, fails, from) =~= tasks_between(args, from, n) + tasks_run(
            args,
            fails,
            n,
        ));
    }
}

/// An item without a colon and with a name is a task with the arguments of the
/// command line.
pub proof fn law_plain_item(args: ArgsView, item: Seq<char>)
    requires
        split_once(item, ':') is None,
        item.len() > 0,
    ensures
        item_of(args, item) == Ok::<(Seq<char>, ArgsView), PlanFault>((item, args)),
{
    let none = Seq::<char>::empty();
    assert(split(none, ',') =~= seq![none]);
    assert(split(none, ',').drop_first() =~= seq![]);
    reveal_with_fuel(with_parameters, 2);
}

/// Parameters change nothing but the five arguments that they stand for.
pub proof fn law_parameters_keep(args: ArgsView, list: Seq<Seq<char>>)
    requires
        with_parameters(args, list) is Ok,
    ensures
        with_parameters(args, list)->Ok_0.game == args.game,
        with_parameters(args, list)->Ok_0.task == args.task,
        with_parameters(args, list)->Ok_0.exe == args.exe,
        with_parameters(args, list)->Ok_0.plan == args.plan,
    decreases list.len(),
{
    if list.len() > 0 {
        if list[0].len() == 0 {
            law_parameters_keep(args, list.drop_first());
        } else {
            law_parameters_keep(with_parameter(args, list[0])->Ok_0, list.drop_first());
        }
    }
}

// ---------------------------------------------------------------------------
// Scripts
// ---------------------------------------------------------------------------

/// The directory with the user's own scripts for a game.
pub open spec fn user_directory(game: Seq<char>) -> Seq<char> {
    "user-"@ + game + "-scripts"@
}

/// The path of a script, part by part: that of the user's own script if there is
/// such a file, and else that of the game.
pub open spec fn path_of(game: Seq<char>, task: Seq<char>, own: bool) -> Seq<Seq<char>> {
    if own {
        seq![user_directory(game), task + ".rhai"@]
    } else {
        seq![game, "scripts"@, task + ".rhai"@]
    }
}

/// The path of a script, part by part.
pub fn script_path(game: &str, task: &str, own: bool) -> (r: Vec<String>)
    ensures
        texts(r@) == path_of(game@, task@, own),
{
    let mut file: String = task.to_owned();
    file.append(".rhai");
    let r: Vec<String> = if own {
        let mut dir: String = "user-".to_owned();
        dir.append(game);
        dir.append("-scripts");
        vec![dir, file]
    } else {
        vec![game.to_owned(), "scripts".to_owned(), file]
    };
    assert(texts(r@) =~= path_of(game@, task@, own));
    r
}

/// The directories in which the scripts of a game are looked for, in order.
pub open spec fn directories(game: Seq<char>) -> Seq<Seq<char>> {
    seq![game + "/scripts"@, user_directory(game)]
}

/// The directories in which the scripts of a game are looked for, in order.
pub fn script_directories(game: &str) -> (r: Vec<String>)
    ensures
        texts(r@) == directories(game@),
{
    let mut first: String = game.to_owned();
    first.append("/scripts");
    let mut second: String = "user-".to_owned();
    second.append(game);
    second.append("-scripts");
    let r: Vec<String> = vec![first, second];
    assert(texts(r@) =~= directories(game@));
    r
}

// ---------------------------------------------------------------------------
// Laws
// ---------------------------------------------------------------------------

/// What the program does: without the rights of an administrator it starts itself
/// again; without a game it shows its interface; a plan goes before a task, and a
/// task is run unless its name has a meaning of its own.
pub proof fn law_branches_of_the_program(args: ArgsView, admin: bool, g: GameType, t: Seq<char>)
    requires
        args.game == Some(g),
    ensures
        branch_of(args, false) is Elevate,
        branch_of(ArgsView { game: None, ..args }, true) is Interface,
        args.plan.len() > 0 ==> branch_of(args, true) == BranchView::Plan(g),
        args.plan.len() == 0 && args.task is None ==> branch_of(args, true) is NoTask,
        args.plan.len() == 0 && args.task == Some(t) ==> {
            let b = branch_of(args, true);
            &&& b == BranchView::Shot(g) <==> t == "shot"@
            &&& b == BranchView::Activate(g) <==> t == "act"@
            &&& b == BranchView::Launch(g) <==> t == "launch"@
            &&& t != "shot"@ && t != "act"@ && t != "launch"@ ==> b == BranchView::Task(g, t)
        },
{
    reveal_strlit("shot");
    reveal_strlit("act");
    reveal_strlit("launch");
    assert("shot"@.len() == 4 && "act"@.len() == 3 && "launch"@.len() == 6);
}

/// An argument without blanks is written as it is. One with blanks stands in
/// quotation marks, and each mark in it has a backslash before it.
pub proof fn law_arguments_are_quoted(s: Seq<char>, c: char)
    ensures
        !s.contains(' ') && !s.contains('\t') ==> argument(s) == s,
        s.contains(' ') || s.contains('\t') ==> argument(s) == seq!['"'] + marks_escaped(s)
            + seq!['"'],
        marks_escaped(Seq::empty()).len() == 0,
        c != '"' ==> marks_escaped(s.push(c)) == marks_escaped(s) + seq![c],
        marks_escaped(s.push('"')) == marks_escaped(s) + seq!['\\', '"'],
{
    assert(s.push(c).drop_last() =~= s);
    assert(s.push('"').drop_last() =~= s);
    assert(marks_escaped(s).push(c) =~= marks_escaped(s) + seq![c]);
}

/// The arguments stand one behind the other in the command line, with a space
/// between two of them.
pub proof fn law_command_line(args: Seq<Seq<char>>, last: Seq<char>)
    ensures
        command_line(Seq::empty()).len() == 0,
        command_line(seq![last]) == argument(last),
        args.len() > 0 ==> command_line(args.push(last)) == command_line(args) + seq![' ']
            + argument(last),
{
    let f = |s: Seq<char>| argument(s);
    assert(seq![last].map_values(f) =~= seq![argument(last)]);
    assert(args.push(last).map_values(f) =~= args.map_values(f).push(argument(last)));
    crate::text::law_join_adds_behind(args.map_values(f), argument(last), seq![' ']);
}

/// A parameter sets the argument that its letter stands for to its value, and no
/// other. A number that is none is refused, and so are other letters and what has no
/// value.
pub proof fn law_parameter_sets_its_argument(args: ArgsView, k: Seq<char>, v: Seq<char>)
    requires
        !k.contains('='),
    ensures
        ({
            let r = with_parameter(args, k + seq!['='] + v);
            let small = number(v, 0xFFFF_FFFF);
            let large = number(v, 0xFFFF_FFFF_FFFF_FFFF);
            &&& k == seq!['b'] && small is Some ==> r == Ok::<ArgsView, PlanFault>(
                ArgsView { boost: small->0 as u32, ..args },
            )
            &&& k == seq!['b'] && small is None ==> r == Err::<ArgsView, PlanFault>(
                PlanFault::BadBoost,
            )
            &&& k == seq!['t'] && small is Some ==> r == Ok::<ArgsView, PlanFault>(
                ArgsView { turn: small->0 as u32, ..args },
            )
            &&& k == seq!['t'] && small is None ==> r == Err::<ArgsView, PlanFault>(
                PlanFault::BadTurn,
            )
            &&& k == seq!['o'] && large is Some ==> r == Ok::<ArgsView, PlanFault>(
                ArgsView { timeout: large->0 as u64, ..args },
            )
            &&& k == seq!['o'] && large is None ==> r == Err::<ArgsView, PlanFault>(
                PlanFault::BadTimeout,
            )
            &&& k == seq!['s'] ==> r == Ok::<ArgsView, PlanFault>(ArgsView { strategy: v, ..args })
            &&& k == seq!['c'] ==> r == Ok::<ArgsView, PlanFault>(ArgsView { combo: v, ..args })
            &&& k != seq!['b'] && k != seq!['t'] && k != seq!['o'] && k != seq!['s'] && k
                != seq!['c'] ==> r == Err::<ArgsView, PlanFault>(PlanFault::Unknown(k))
        }),
        with_parameter(args, k) == Err::<ArgsView, PlanFault>(PlanFault::NoValue(k)),
{
    let kv = k + seq!['='] + v;
    let n = k.len() as int;
    assert forall|i: int| 0 <= i < n implies (#[trigger] kv[i]) != '=' by {
        assert(k.contains(k[i]));
    }
    crate::text::lemma_position_is(kv, '=', n);
    assert(kv.take(n) =~= k);
    assert(kv.skip(n + 1) =~= v);
    assert forall|i: int| 0 <= i < n implies (#[trigger] k[i]) != '=' by {
        assert(k.contains(k[i]));
    }
    crate::text::lemma_position_is(k, '=', n);
    assert(seq!['b'][0] == 'b' && seq!['t'][0] == 't' && seq!['o'][0] == 'o');
    assert(seq!['s'][0] == 's' && seq!['c'][0] == 'c');
}

/// Parameters count one behind the other, so that a later one replaces an earlier
/// one; empty ones are passed over, and the first that is refused refuses all.
pub proof fn law_parameters_one_by_one(args: ArgsView, list: Seq<Seq<char>>, kv: Seq<char>)
    ensures
        with_parameters(args, Seq::empty()) == Ok::<ArgsView, PlanFault>(args),
        with_parameters(args, list) is Err ==> with_parameters(args, list.push(kv))
            == with_parameters(args, list),
        with_parameters(args, list) is Ok && kv.len() == 0 ==> with_parameters(args, list.push(kv))
            == with_parameters(args, list),
        with_parameters(args, list) is Ok && kv.len() > 0 ==> with_parameters(args, list.push(kv))
            == with_parameter(with_parameters(args, list)->Ok_0, kv),
    decreases list.len(),
{
    let longer = list.push(kv);
    if list.len() == 0 {
        assert(longer.drop_first() =~= Seq::empty());
        reveal_with_fuel(with_parameters, 2);
    } else {
        assert(longer.drop_first() =~= list.drop_first().push(kv));
        if list[0].len() == 0 {
            law_parameters_one_by_one(args, list.drop_first(), kv);
        } else if with_parameter(args, list[0]) is Ok {
            law_parameters_one_by_one(
                with_parameter(args, list[0])->Ok_0,
                list.drop_first(),
                kv,
            );
        }
    }
}

/// An item of a plan is a task and, behind a colon, its parameters, with commas
/// between them. An item without a task is refused, and so is one with a parameter
/// that is.
pub proof fn law_items_of_a_plan(args: ArgsView, task: Seq<char>, params: Seq<char>)
    requires
        !task.contains(':'),
    ensures
        ({
            let item = task + seq![':'] + params;
            let r = with_parameters(args, split(params, ','));
            &&& task.len() == 0 ==> item_of(args, item) == Err::<(Seq<char>, ArgsView), PlanFault>(
                PlanFault::NoTask(item),
            )
            &&& task.len() > 0 && r is Ok ==> item_of(args, item) == Ok::<
                (Seq<char>, ArgsView),
                PlanFault,
            >((task, r->Ok_0))
            &&& task.len() > 0 && r is Err ==> item_of(args, item) == Err::<
                (Seq<char>, ArgsView),
                PlanFault,
            >(r->Err_0)
        }),
        item_of(args, Seq::empty()) == Err::<(Seq<char>, ArgsView), PlanFault>(
            PlanFault::NoTask(Seq::empty()),
        ),
{
    let item = task + seq![':'] + params;
    let n = task.len() as int;
    assert forall|i: int| 0 <= i < n implies (#[trigger] item[i]) != ':' by {
        assert(task.contains(task[i]));
    }
    crate::text::lemma_position_is(item, ':', n);
    assert(item.take(n) =~= task);
    assert(item.skip(n + 1) =~= params);
}

/// A plan begins with its first item; behind an item comes the next one, or the end
/// of the plan behind the last. A run that failed ends the plan, and so does an item
/// that is refused.
pub proof fn law_steps_of_a_plan(args: ArgsView, done: int, failed: bool)
    requires
        0 <= done < args.plan.len(),
    ensures
        step_at(args, args.plan.len() as int) is Done,
        item_of(args, args.plan[done]) matches Ok((task, a)) ==> step_at(args, done) == (
        PlanStep::Run { task, args: a }),
        item_of(args, args.plan[done]) matches Err(e) ==> step_at(args, done) == PlanStep::Fail(e),
        step_behind(args, done, true) is Stop,
        step_behind(args, done, false) == step_at(args, done + 1),
{
}

/// The script of a task lies in the directory of its game, or in that of the user if
/// the user has one of the same name; both directories are looked through, that of
/// the game first.
pub proof fn law_where_scripts_lie(game: Seq<char>, task: Seq<char>)
    ensures
        user_directory(game) == "user-"@ + game + "-scripts"@,
        path_of(game, task, true).len() == 2,
        path_of(game, task, true)[0] == "user-"@ + game + "-scripts"@,
        path_of(game, task, true)[1] == task + ".rhai"@,
        path_of(game, task, false).len() == 3,
        path_of(game, task, false)[0] == game,
        path_of(game, task, false)[1] == "scripts"@,
        path_of(game, task, false)[2] == task + ".rhai"@,
        directories(game).len() == 2,
        directories(game)[0] == game + "/scripts"@,
        directories(game)[1] == "user-"@ + game + "-scripts"@,
{
}

/// Why an item is refused, in words.
pub proof fn law_why_an_item_is_refused(e: PlanError)
    ensures
        e matches PlanError::NoTask(s) ==> e.text() == "计划项格式错误："@ + s@,
        e matches PlanError::NoValue(s) ==> e.text() == "计划项参数格式错误："@ + s@
            + "（示例：任务A:b=3,t=20）"@,
        e is BadBoost ==> e.text() == "boost 必须是数字"@,
        e is BadTurn ==> e.text() == "turn 必须是数字"@,
        e is BadTimeout ==> e.text() == "timeout 必须是数字"@,
        e matches PlanError::Unknown(s) ==> e.text() == "未知参数："@ + s@ + "（可用 b/s/c/t/o）"@,
{
}

/// What branches, refusals and steps are seen as is what they hold.
pub proof fn law_moves_are_seen_as_they_are(b: Branch, e: PlanError, m: PlanMove)
    ensures
        b is Elevate <==> b@ is Elevate,
        b is Interface <==> b@ is Interface,
        b is NoTask <==> b@ is NoTask,
        b matches Branch::Plan(g) ==> b@ == BranchView::Plan(g),
        b matches Branch::Shot(g) ==> b@ == BranchView::Shot(g),
        b matches Branch::Activate(g) ==> b@ == BranchView::Activate(g),
        b matches Branch::Launch(g) ==> b@ == BranchView::Launch(g),
        b matches Branch::Task(g, t) ==> b@ == BranchView::Task(g, t@),
        e is BadBoost <==> e@ is BadBoost,
        e is BadTurn <==> e@ is BadTurn,
        e is BadTimeout <==> e@ is BadTimeout,
        e matches PlanError::NoTask(s) ==> e@ == PlanFault::NoTask(s@),
        e matches PlanError::NoValue(s) ==> e@ == PlanFault::NoValue(s@),
        e matches PlanError::Unknown(s) ==> e@ == PlanFault::Unknown(s@),
        m is Stop <==> m@ is Stop,
        m is Done <==> m@ is Done,
        m matches PlanMove::Fail(f) ==> m@ == PlanStep::Fail(f@),
        m matches PlanMove::Run { task, args } ==> m@ == (PlanStep::Run {
            task: task@,
            args: args@,
        }),
{
}

/// What a reading of an item means: its task and arguments, or why it is refused.
pub proof fn law_readings_of_items(task: String, args: Args, e: PlanError)
    ensures
        item_outcome(Ok((task, args))) == Ok::<(Seq<char>, ArgsView), PlanFault>((task@, args@)),
        item_outcome(Err(e)) == Err::<(Seq<char>, ArgsView), PlanFault>(e@),
{
}

} // verus!
