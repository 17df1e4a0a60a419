//! The games, and what the program is told on its command line.

use vstd::prelude::*;
use crate::{ap, dna, nte};
use crate::text::{copy_text, copy_texts, text_of, texts};

verus! {

/// A game that the program can play.
#[derive(Debug, Clone, Copy, PartialEq, Eq, Structural)]
pub enum GameType {
    Ap,
    Dna,
    Nte,
}

impl GameType {
    /// The short name, which is also the name of the game's directory.
    pub open spec fn short(self) -> Seq<char> {
        match self {
            GameType::Ap => "ap"@,
            GameType::Dna => "dna"@,
            GameType::Nte => "nte"@,
        }
    }

    /// The name that the user reads.
    pub open spec fn shown(self) -> Seq<char> {
        match self {
            GameType::Ap => "蓝色星原：旅谣"@,
            GameType::Dna => "两个陀螺"@,
            GameType::Nte => "海特洛"@,
        }
    }

    /// The title of the window.
    pub open spec fn window(self) -> Seq<char> {
        match self {
            GameType::Ap => ap::WINDOW_TITLE@,
            GameType::Dna => dna::WINDOW_TITLE@,
            GameType::Nte => nte::WINDOW_TITLE@,
        }
    }

    pub fn name(&self) -> (s: &'static str)
        ensures
            s@ == self.short(),
    {
        match self {
            GameType::Ap => "ap",
            GameType::Dna => "dna",
            GameType::Nte => "nte",
        }
    }

    pub fn display(&self) -> (s: &'static str)
        ensures
            s@ == self.shown(),
    {
        match self {
            GameType::Ap => "蓝色星原：旅谣",
            GameType::Dna => "两个陀螺",
            GameType::Nte => "海特洛",
        }
    }

    pub fn title(&self) -> (s: &'static str)
        ensures
            s@ == self.window(),
    {
        match self {
            GameType::Ap => ap::WINDOW_TITLE,
            GameType::Dna => dna::WINDOW_TITLE,
            GameType::Nte => nte::WINDOW_TITLE,
        }
    }
}

/// Two games never share a name or a window title.
pub proof fn law_games_differ(a: GameType, b: GameType)
    ensures
        a.short() == b.short() ==> a == b,
        a.window() == b.window() ==> a == b,
{
    reveal_strlit("ap");
    reveal_strlit("dna");
    reveal_strlit("nte");
    reveal_strlit("二重螺旋  ");
    reveal_strlit("异环  ");
    reveal_strlit("AzurPromilia");
    assert("dna"@[0] == 'd');
    assert("nte"@[0] == 'n');
    assert(GameType::Ap.window().len() == 12);
    assert(GameType::Dna.window().len() == 6);
    assert(GameType::Nte.window().len() == 4);
}

/// What the program is told on its command line.
#[derive(Debug)]
pub struct Args {
    pub game: Option<GameType>,
    pub task: Option<String>,
    pub exe: Option<String>,
    pub plan: Vec<String>,
    pub boost: u32,
    pub strategy: String,
    pub combo: String,
    pub turn: u32,
    pub timeout: u64,
}

/// The arguments as mathematical values.
pub struct ArgsView {
    pub game: Option<GameType>,
    pub task: Option<Seq<char>>,
    pub exe: Option<Seq<char>>,
    pub plan: Seq<Seq<char>>,
    pub boost: u32,
    pub strategy: Seq<char>,
    pub combo: Seq<char>,
    pub turn: u32,
    pub timeout: u64,
}

impl View for Args {
    type V = ArgsView;

    open spec fn view(&self) -> ArgsView {
        ArgsView {
            game: self.game,
            task: text_of(self.task),
            exe: text_of(self.exe),
            plan: texts(self.plan@),
            boost: self.boost,
            strategy: self.strategy@,
            combo: self.combo@,
            turn: self.turn,
            timeout: self.timeout,
        }
    }
}

impl Clone for Args {
    fn clone(&self) -> (r: Self)
        ensures
            r@ == self@,
    {
        Args {
            game: self.game,
            task: copy_text(&self.task),
            exe: copy_text(&self.exe),
            plan: copy_texts(&self.plan),
            boost: self.boost,
            strategy: self.strategy.clone(),
            combo: self.combo.clone(),
            turn: self.turn,
            timeout: self.timeout,
        }
    }
}

/// What the games are called, in the directories, for the user, and in the titles
/// of their windows.
pub proof fn law_names_of_games(g: GameType)
    ensures
        g is Dna ==> g.short() == "dna"@ && g.shown() == "两个陀螺"@ && g.window() == "二重螺旋  "@,
        g is Nte ==> g.short() == "nte"@ && g.shown() == "海特洛"@ && g.window() == "异环  "@,
        g is Ap ==> g.short() == "ap"@ && g.shown() == "蓝色星原：旅谣"@ && g.window()
            == "AzurPromilia"@,
{
}

/// What the arguments are seen as is what they hold.
pub proof fn law_arguments_are_seen_as_they_are(a: Args, i: int)
    ensures
        a@.game == a.game,
        a@.task is Some <==> a.task is Some,
        a.task matches Some(t) ==> a@.task == Some(t@),
        a@.exe is Some <==> a.exe is Some,
        a.exe matches Some(e) ==> a@.exe == Some(e@),
        a@.plan.len() == a.plan@.len(),
        0 <= i < a.plan@.len() ==> a@.plan[i] == a.plan@[i]@,
        a@.boost == a.boost,
        a@.strategy == a.strategy@,
        a@.combo == a.combo@,
        a@.turn == a.turn,
        a@.timeout == a.timeout,
{
}

} // verus!
