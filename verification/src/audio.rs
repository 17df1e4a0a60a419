//! The switches of the sounds that are listened for, and when the listener is
//! started and stopped.

use vstd::prelude::*;
use crate::text::same;

verus! {

// ---------------------------------------------------------------------------
// Switches
// ---------------------------------------------------------------------------

/// The switches of the sounds, by name, and what is known of the listener:
/// whether there is one, whether it is to be set up anew, and whether it is
/// known what to listen for.
pub struct Switchboard {
    pub switches: Vec<(String, bool)>,
    pub monitor: bool,
    pub rebuild: bool,
    pub prepared: bool,
}

/// The names and positions of a list of switches.
pub open spec fn positions(list: Seq<(String, bool)>) -> Seq<(Seq<char>, bool)> {
    list.map_values(|p: (String, bool)| (p.0@, p.1))
}

/// The place of the first switch with a name, or the number of switches.
pub open spec fn place(list: Seq<(Seq<char>, bool)>, name: Seq<char>) -> int
    decreases list.len(),
{
    if list.len() == 0 || list[0].0 == name {
        0
    } else {
        1 + place(list.drop_first(), name)
    }
}

/// Whether the switch with a name is on; one that is not there is off.
pub open spec fn is_on(list: Seq<(Seq<char>, bool)>, name: Seq<char>) -> bool {
    let i = place(list, name);
    i < list.len() && list[i].1
}

/// The switches behind a change of one; one that was not there comes last.
pub open spec fn switched(list: Seq<(Seq<char>, bool)>, name: Seq<char>, on: bool) -> Seq<
    (Seq<char>, bool),
> {
    let i = place(list, name);
    if i < list.len() {
        list.update(i, (name, on))
    } else {
        list.push((name, on))
    }
}

/// The switches with those that were not there, off, behind them.
pub open spec fn known(list: Seq<(Seq<char>, bool)>, names: Seq<Seq<char>>) -> Seq<
    (Seq<char>, bool),
>
    decreases names.len(),
{
    if names.len() == 0 {
        list
    } else {
        let l = known(list, names.drop_last());
        if place(l, names.last()) < l.len() {
            l
        } else {
            l.push((names.last(), false))
        }
    }
}

/// Whether any switch is on.
pub open spec fn any_on(list: Seq<(Seq<char>, bool)>) -> bool {
    exists|i: int| 0 <= i < list.len() && (#[trigger] list[i]).1
}

proof fn lemma_place(list: Seq<(Seq<char>, bool)>, name: Seq<char>)
    ensures
        0 <= place(list, name) <= list.len(),
        place(list, name) < list.len() ==> list[place(list, name)].0 == name,
        forall|k: int| 0 <= k < place(list, name) ==> (#[trigger] list[k]).0 != name,
    decreases list.len(),
{
    if list.len() != 0 && list[0].0 != name {
        lemma_place(list.drop_first(), name);
        assert forall|k: int| 0 <= k < place(list, name) implies (#[trigger] list[k]).0 != name by {
            if k > 0 {
                assert(list.drop_first()[k - 1] == list[k]);
            }
        }
    }
}

proof fn lemma_place_is(list: Seq<(Seq<char>, bool)>, name: Seq<char>, i: int)
    requires
        0 <= i <= list.len(),
        i < list.len() ==> list[i].0 == name,
        forall|k: int| 0 <= k < i ==> (#[trigger] list[k]).0 != name,
    ensures
        place(list, name) == i,
{
    lemma_place(list, name);
    let p = place(list, name);
    if p < i {
        assert(list[p].0 != name);
    }
    if i < p {
        assert(list[i].0 != name);
    }
}

impl Switchboard {
    /// The names and positions of the switches.
    pub open spec fn view(self) -> Seq<(Seq<char>, bool)> {
        positions(self.switches@)
    }

    pub fn new() -> (s: Self)
        ensures
            s@ == Seq::<(Seq<char>, bool)>::empty(),
            !s.monitor,
            !s.rebuild,
            !s.prepared,
    {
        let s = Switchboard {
            switches: Vec::new(),
            monitor: false,
            rebuild: false,
            prepared: false,
        };
        assert(s@ =~= Seq::<(Seq<char>, bool)>::empty());
        s
    }

    fn find(&self, name: &str) -> (i: usize)
        ensures
            i == place(self@, name@),
            i <= self.switches@.len(),
    {
        let mut i: usize = 0;
        while i < self.switches.len()
            invariant
                i <= self.switches@.len(),
                forall|k: int| 0 <= k < i ==> (#[trigger] self@[k]).0 != name@,
            decreases self.switches@.len() - i,
        {
            if same(self.switches[i].0.as_str(), name) {
                proof {
                    lemma_place_is(self@, name@, i as int);
                }
                return i;
            }
            i += 1;
        }
        proof {
            lemma_place_is(self@, name@, i as int);
        }
        i
    }
}

/// Turns a switch. To turn one on sets the listener up anew, or starts it:
/// says whether it is to be started.
pub fn set_switch(board: &mut Switchboard, name: &str, on: bool) -> (start: bool)
    ensures
        final(board)@ == switched(old(board)@, name@, on),
        final(board).rebuild == (old(board).rebuild || (on && old(board).monitor)),
        start == (on && !old(board).monitor && old(board).prepared),
        final(board).monitor == (old(board).monitor || start),
        final(board).prepared == old(board).prepared,
{
    let i: usize = board.find(name);
    if i < board.switches.len() {
        board.switches.set(i, (name.to_owned(), on));
    } else {
        board.switches.push((name.to_owned(), on));
    }
    assert(board@ =~= switched(old(board)@, name@, on));
    if on {
        if board.monitor {
            board.rebuild = true;
        }
        maybe_spawn(board)
    } else {
        false
    }
}

/// Whether a switch is on.
pub fn get_switch(board: &Switchboard, name: &str) -> (on: bool)
    ensures
        on == is_on(board@, name@),
{
    let i: usize = board.find(name);
    i < board.switches.len() && board.switches[i].1
}

/// Turns all switches off: says whether the listener is to be stopped.
pub fn disable_all(board: &mut Switchboard) -> (stop: bool)
    ensures
        final(board)@ == old(board)@.map_values(|p: (Seq<char>, bool)| (p.0, false)),
        stop == old(board).monitor,
        !final(board).monitor,
        final(board).rebuild == old(board).rebuild,
        final(board).prepared == old(board).prepared,
{
    let mut i: usize = 0;
    while i < board.switches.len()
        invariant
            i <= board.switches@.len(),
            board.switches@.len() == old(board).switches@.len(),
            forall|k: int|
                0 <= k < i ==> (#[trigger] board@[k]) == (old(board)@[k].0, false),
            forall|k: int|
                i <= k < board.switches@.len() ==> (#[trigger] board@[k]) == old(board)@[k],
            board.monitor == old(board).monitor,
            board.rebuild == old(board).rebuild,
            board.prepared == old(board).prepared,
        decreases board.switches@.len() - i,
    {
        let ghost was = board@;
        let name: String = board.switches[i].0.clone();
        board.switches.set(i, (name, false));
        proof {
            assert(was[i as int] == old(board)@[i as int]);
            assert(board@ =~= was.update(i as int, (was[i as int].0, false)));
        }
        i += 1;
    }
    assert(board@ =~= old(board)@.map_values(|p: (Seq<char>, bool)| (p.0, false)));
    proof {
        assert(!any_on(board@)) by {
            assert forall|k: int| 0 <= k < board@.len() implies !(#[trigger] board@[k]).1 by {}
        }
    }
    maybe_stop(board)
}

/// Starts the listener, if there is none and it is known what to listen
/// for: says whether it is to be started.
pub fn maybe_spawn(board: &mut Switchboard) -> (start: bool)
    ensures
        start == (!old(board).monitor && old(board).prepared),
        final(board).monitor == (old(board).monitor || start),
        final(board)@ == old(board)@,
        final(board).rebuild == old(board).rebuild,
        final(board).prepared == old(board).prepared,
{
    if board.monitor {
        return false;
    }
    if !board.prepared {
        return false;
    }
    board.monitor = true;
    true
}

/// Stops the listener, if there is one and no switch is on: says whether it
/// is to be stopped.
pub fn maybe_stop(board: &mut Switchboard) -> (stop: bool)
    ensures
        stop == (old(board).monitor && !any_on(old(board)@)),
        final(board).monitor == (old(board).monitor && !stop),
        final(board)@ == old(board)@,
        final(board).rebuild == old(board).rebuild,
        final(board).prepared == old(board).prepared,
{
    let mut i: usize = 0;
    while i < board.switches.len()
        invariant
            i <= board.switches@.len(),
            *board == *old(board),
            forall|k: int| 0 <= k < i ==> !(#[trigger] board@[k]).1,
        decreases board.switches@.len() - i,
    {
        if board.switches[i].1 {
            assert(board@[i as int].1);
            return false;
        }
        i += 1;
    }
    if board.monitor {
        board.monitor = false;
        true
    } else {
        false
    }
}

/// Learns what to listen for: the sounds get switches, which are off unless
/// they are there already.
pub fn ensure_started(board: &mut Switchboard, names: &Vec<&'static str>)
    ensures
        final(board)@ == known(old(board)@, names@.map_values(|s: &'static str| s@)),
        final(board).prepared,
        final(board).monitor == old(board).monitor,
        final(board).rebuild == old(board).rebuild,
{
    let ghost all = names@.map_values(|s: &'static str| s@);
    let mut i: usize = 0;
    assert(all.take(0) =~= seq![]);
    while i < names.len()
        invariant
            i <= names@.len(),
            all == names@.map_values(|s: &'static str| s@),
            board@ == known(old(board)@, all.take(i as int)),
            board.monitor == old(board).monitor,
            board.rebuild == old(board).rebuild,
        decreases names@.len() - i,
    {
        let ghost was = board@;
        let at: usize = board.find(names[i]);
        proof {
            assert(all.take(i + 1).drop_last() =~= all.take(i as int));
            assert(all.take(i + 1).last() == names@[i as int]@);
        }
        if at >= board.switches.len() {
            board.switches.push((names[i].to_owned(), false));
            assert(board@ =~= was.push((names@[i as int]@, false)));
        }
        i += 1;
    }
    assert(all.take(i as int) =~= all);
    board.prepared = true;
}

/// The sounds that are switched on, by their places in the list.
pub fn enabled(board: &Switchboard, names: &Vec<&'static str>) -> (r: Vec<usize>)
    ensures
        forall|k: int|
            0 <= k < r@.len() ==> (#[trigger] r@[k]) < names@.len() && is_on(
                board@,
                names@[r@[k] as int]@,
            ),
        forall|k: int, l: int| 0 <= k < l < r@.len() ==> r@[k] < r@[l],
        forall|i: int|
            0 <= i < names@.len() && is_on(board@, (#[trigger] names@[i])@) ==> r@.contains(
                i as usize,
            ),
{
    let mut r: Vec<usize> = Vec::new();
    let mut i: usize = 0;
    while i < names.len()
        invariant
            i <= names@.len(),
            forall|k: int|
                0 <= k < r@.len() ==> (#[trigger] r@[k]) < i && is_on(
                    board@,
                    names@[r@[k] as int]@,
                ),
            forall|k: int, l: int| 0 <= k < l < r@.len() ==> r@[k] < r@[l],
            forall|j: int|
                0 <= j < i && is_on(board@, (#[trigger] names@[j])@) ==> r@.contains(j as usize),
        decreases names@.len() - i,
    {
        if get_switch(board, names[i]) {
            let ghost had = r@;
            r.push(i);
            assert(r@[had.len() as int] == i);
            assert forall|j: int|
                0 <= j < i + 1 && is_on(board@, (#[trigger] names@[j])@) implies r@.contains(
                j as usize,
            ) by {
                if j < i {
                    assert(had.contains(j as usize));
                    let k = choose|k: int| 0 <= k < had.len() && had[k] == j as usize;
                    assert(r@[k] == j as usize);
                }
            }
        }
        i += 1;
    }
    r
}

/// A switch that was turned is as it was turned, and no other has changed.
pub proof fn law_switch_is_set(
    list: Seq<(Seq<char>, bool)>,
    name: Seq<char>,
    on: bool,
    other: Seq<char>,
)
    ensures
        is_on(switched(list, name, on), name) == on,
        other != name ==> is_on(switched(list, name, on), other) == is_on(list, other),
{
    lemma_place(list, name);
    lemma_place(list, other);
    let i = place(list, name);
    let after = switched(list, name, on);
    lemma_place_is(after, name, i);
    if other != name {
        let j = place(list, other);
        if j < list.len() {
            lemma_place_is(after, other, j);
        } else {
            lemma_place_is(after, other, after.len() as int);
        }
    }
}

/// Whether no two switches have the same name.
pub open spec fn names_differ(list: Seq<(Seq<char>, bool)>) -> bool {
    forall|i: int, j: int|
        0 <= i < j < list.len() ==> (#[trigger] list[i]).0 != (#[trigger] list[j]).0
}

/// No two switches ever have the same name: none have at the beginning, and
/// neither to turn a switch, nor to turn all of them off, nor to learn what to
/// listen for changes that.
pub proof fn law_names_stay_different(
    list: Seq<(Seq<char>, bool)>,
    name: Seq<char>,
    on: bool,
    names: Seq<Seq<char>>,
)
    requires
        names_differ(list),
    ensures
        names_differ(Seq::empty()),
        names_differ(switched(list, name, on)),
        names_differ(list.map_values(|p: (Seq<char>, bool)| (p.0, false))),
        names_differ(known(list, names)),
    decreases names.len(),
{
    lemma_place(list, name);
    if names.len() > 0 {
        law_names_stay_different(list, name, on, names.drop_last());
        lemma_place(known(list, names.drop_last()), names.last());
    }
}

/// When all switches are turned off, none is on.
pub proof fn law_all_off(list: Seq<(Seq<char>, bool)>, name: Seq<char>)
    ensures
        !is_on(list.map_values(|p: (Seq<char>, bool)| (p.0, false)), name),
        !any_on(list.map_values(|p: (Seq<char>, bool)| (p.0, false))),
{
    let off = list.map_values(|p: (Seq<char>, bool)| (p.0, false));
    lemma_place(off, name);
}

/// To learn what to listen for turns no switch.
pub proof fn law_known_keeps(list: Seq<(Seq<char>, bool)>, names: Seq<Seq<char>>, name: Seq<char>)
    ensures
        is_on(known(list, names), name) == is_on(list, name),
        list.len() <= known(list, names).len(),
        known(list, names).take(list.len() as int) == list,
    decreases names.len(),
{
    if names.len() == 0 {
        assert(list.take(list.len() as int) =~= list);
    } else {
        law_known_keeps(list, names.drop_last(), name);
        let l = known(list, names.drop_last());
        lemma_place(l, names.last());
        if place(l, names.last()) >= l.len() {
            let all = l.push((names.last(), false));
            assert(all.take(list.len() as int) =~= l.take(list.len() as int));
            lemma_place(l, name);
            let j = place(l, name);
            if j < l.len() {
                lemma_place_is(all, name, j);
            } else if name == names.last() {
                lemma_place_is(all, name, l.len() as int);
            } else {
                lemma_place_is(all, name, all.len() as int);
            }
        }
    }
}

/// A switch is on exactly when the first one with its name is, and there is one.
pub proof fn law_first_switch_counts(list: Seq<(Seq<char>, bool)>, name: Seq<char>, i: int)
    requires
        0 <= i < list.len(),
        list[i].0 == name,
        forall|k: int| 0 <= k < i ==> (#[trigger] list[k]).0 != name,
    ensures
        is_on(list, name) == list[i].1,
        switched(list, name, true)[i] == (name, true),
        switched(list, name, false)[i] == (name, false),
        switched(list, name, true).len() == list.len(),
{
    lemma_place_is(list, name, i);
}

/// A switch that is not there is off; to turn it puts it behind the others.
pub proof fn law_new_switch_comes_last(list: Seq<(Seq<char>, bool)>, name: Seq<char>, on: bool)
    requires
        forall|k: int| 0 <= k < list.len() ==> (#[trigger] list[k]).0 != name,
    ensures
        !is_on(list, name),
        switched(list, name, on) == list.push((name, on)),
        known(list, seq![name]) == list.push((name, false)),
        any_on(list) <==> exists|k: int| 0 <= k < list.len() && #[trigger] list[k].1,
{
    lemma_place_is(list, name, list.len() as int);
    assert(seq![name].drop_last() =~= seq![]);
    assert(known(list, seq![name].drop_last()) == list);
}

/// Every sound that is listened for has a switch.
pub proof fn law_sounds_have_switches(
    list: Seq<(Seq<char>, bool)>,
    names: Seq<Seq<char>>,
    i: int,
)
    requires
        0 <= i < names.len(),
    ensures
        exists|k: int| 0 <= k < known(list, names).len() && #[trigger] known(list, names)[k].0
            == names[i],
    decreases names.len(),
{
    let l = known(list, names.drop_last());
    let all = known(list, names);
    lemma_place(l, names.last());
    if i < names.len() - 1 {
        law_sounds_have_switches(list, names.drop_last(), i);
        let k = choose|k: int| 0 <= k < l.len() && #[trigger] l[k].0 == names.drop_last()[i];
        assert(all[k] == l[k]);
    } else if place(l, names.last()) < l.len() {
        assert(all[place(l, names.last())].0 == names[i]);
    } else {
        assert(all[l.len() as int].0 == names[i]);
    }
}

/// The switches are seen with their names and positions, one for one.
pub proof fn law_switches_are_seen_as_they_are(b: Switchboard, i: int)
    ensures
        b@.len() == b.switches@.len(),
        0 <= i < b@.len() ==> b@[i].0 == b.switches@[i].0@ && b@[i].1 == b.switches@[i].1,
{
}

} // verus!
