//! Text as sequences of characters.

use vstd::prelude::*;

verus! {

// ---------------------------------------------------------------------------
// Strings
// ---------------------------------------------------------------------------

/// `String::push`: the character is put behind the text.
pub assume_specification[ String::push ](s: &mut String, c: char)
    ensures
        final(s)@ == old(s)@.push(c),
;

/// `String::pop`: the last character is taken off and returned; an empty text
/// stays empty.
pub assume_specification[ String::pop ](s: &mut String) -> (c: Option<char>)
    ensures
        old(s)@.len() == 0 ==> c is None && final(s)@ == old(s)@,
        old(s)@.len() > 0 ==> c == Some(old(s)@.last()) && final(s)@ == old(s)@.drop_last(),
;

/// `String::clear`: nothing is left of the text.
pub assume_specification[ String::clear ](s: &mut String)
    ensures
        final(s)@ == Seq::<char>::empty(),
;

/// The texts of a list of strings.
pub open spec fn texts(list: Seq<String>) -> Seq<Seq<char>> {
    list.map_values(|s: String| s@)
}

/// The texts of a list of character lists.
pub open spec fn rows(list: Seq<Vec<char>>) -> Seq<Seq<char>> {
    list.map_values(|s: Vec<char>| s@)
}

/// The text of a string that may be missing.
pub open spec fn text_of(s: Option<String>) -> Option<Seq<char>> {
    match s {
        Some(s) => Some(s@),
        None => None,
    }
}

/// Whether two texts are the same.
pub fn same(a: &str, b: &str) -> (yes: bool)
    ensures
        yes == (a@ == b@),
{
    a.to_owned() == b.to_owned()
}

/// The characters of a text.
pub fn chars_of(s: &str) -> (v: Vec<char>)
    ensures
        v@ == s@,
{
    let mut v: Vec<char> = Vec::new();
    for c in it: s.chars()
        invariant
            it.seq() == s@,
            v@ == it.seq().take(it.index()),
    {
        v.push(c);
    }
    v
}

/// The text that a list of characters spells.
pub fn string_of(v: &Vec<char>) -> (s: String)
    ensures
        s@ == v@,
{
    let mut s: String = String::new();
    let mut i: usize = 0;
    while i < v.len()
        invariant
            i <= v@.len(),
            s@ == v@.take(i as int),
        decreases v@.len() - i,
    {
        s.push(v[i]);
        proof {
            assert(v@.take(i + 1) =~= v@.take(i as int).push(v@[i as int]));
        }
        i += 1;
    }
    assert(v@.take(v@.len() as int) =~= v@);
    s
}

/// Copies a list of strings.
pub fn copy_texts(list: &Vec<String>) -> (r: Vec<String>)
    ensures
        texts(r@) == texts(list@),
{
    let mut r: Vec<String> = Vec::new();
    let mut i: usize = 0;
    while i < list.len()
        invariant
            i <= list@.len(),
            r@.len() == i,
            forall|k: int| 0 <= k < i ==> (#[trigger] r@[k])@ == list@[k]@,
        decreases list@.len() - i,
    {
        r.push(list[i].clone());
        i += 1;
    }
    assert(texts(r@) =~= texts(list@));
    r
}

/// Copies a string that may be missing.
pub fn copy_text(s: &Option<String>) -> (r: Option<String>)
    ensures
        text_of(r) == text_of(*s),
{
    match s {
        Some(s) => Some(s.clone()),
        None => None,
    }
}

/// Whether a text is in a list.
pub fn is_listed(list: &Vec<String>, s: &str) -> (yes: bool)
    ensures
        yes == texts(list@).contains(s@),
{
    let mut i: usize = 0;
    while i < list.len()
        invariant
            i <= list@.len(),
            forall|k: int| 0 <= k < i ==> (#[trigger] texts(list@)[k]) != s@,
        decreases list@.len() - i,
    {
        if same(list[i].as_str(), s) {
            assert(texts(list@)[i as int] == s@);
            return true;
        }
        i += 1;
    }
    false
}

/// Copies part of a list of characters.
pub fn part_of(v: &Vec<char>, from: usize, to: usize) -> (r: Vec<char>)
    requires
        from <= to <= v@.len(),
    ensures
        r@ == v@.subrange(from as int, to as int),
{
    let mut r: Vec<char> = Vec::new();
    let mut i: usize = from;
    while i < to
        invariant
            from <= i <= to <= v@.len(),
            r@ == v@.subrange(from as int, i as int),
        decreases to - i,
    {
        r.push(v[i]);
        proof {
            assert(v@.subrange(from as int, i + 1) =~= v@.subrange(from as int, i as int).push(
                v@[i as int],
            ));
        }
        i += 1;
    }
    r
}

// ---------------------------------------------------------------------------
// Searching and splitting
// ---------------------------------------------------------------------------

/// The position of the first `c`, or the length of the text if there is none.
pub open spec fn position(s: Seq<char>, c: char) -> int
    decreases s.len(),
{
    if s.len() == 0 || s[0] == c {
        0
    } else {
        1 + position(s.drop_first(), c)
    }
}

/// What `position` finds.
pub proof fn lemma_position_of(s: Seq<char>, c: char)
    ensures
        0 <= position(s, c) <= s.len(),
        position(s, c) < s.len() ==> s[position(s, c)] == c,
        forall|k: int| 0 <= k < position(s, c) ==> (#[trigger] s[k]) != c,
    decreases s.len(),
{
    if s.len() != 0 && s[0] != c {
        lemma_position_of(s.drop_first(), c);
        assert forall|k: int| 0 <= k < position(s, c) implies (#[trigger] s[k]) != c by {
            if k > 0 {
                assert(s.drop_first()[k - 1] == s[k]);
            }
        }
    }
}

/// `position` is what it finds.
pub proof fn lemma_position_is(s: Seq<char>, c: char, i: int)
    requires
        0 <= i <= s.len(),
        i < s.len() ==> s[i] == c,
        forall|k: int| 0 <= k < i ==> (#[trigger] s[k]) != c,
    ensures
        position(s, c) == i,
{
    lemma_position_of(s, c);
    let p = position(s, c);
    if p < i {
        assert(s[p] != c);
    }
    if i < p {
        assert(s[i] != c);
    }
}

/// The position of the first `c` from `from` on, or the length of the list.
pub fn find_from(v: &Vec<char>, from: usize, c: char) -> (i: usize)
    requires
        from <= v@.len(),
    ensures
        from <= i <= v@.len(),
        i - from == position(v@.skip(from as int), c),
{
    let mut i: usize = from;
    while i < v.len() && v[i] != c
        invariant
            from <= i <= v@.len(),
            forall|k: int| from <= k < i ==> (#[trigger] v@[k]) != c,
        decreases v@.len() - i,
    {
        i += 1;
    }
    proof {
        let rest = v@.skip(from as int);
        assert forall|k: int| 0 <= k < i - from implies (#[trigger] rest[k]) != c by {
            assert(rest[k] == v@[k + from]);
        }
        lemma_position_is(rest, c, i - from);
    }
    i
}

/// The parts of a text between the separators: one more than there are
/// separators.
pub open spec fn split(s: Seq<char>, sep: char) -> Seq<Seq<char>>
    decreases s.len(),
{
    let i = position(s, sep);
    if 0 <= i < s.len() {
        seq![s.take(i)] + split(s.skip(i + 1), sep)
    } else {
        seq![s]
    }
}

/// Splits a text at every separator.
pub fn split_at(v: &Vec<char>, sep: char) -> (parts: Vec<Vec<char>>)
    ensures
        rows(parts@) == split(v@, sep),
{
    let mut parts: Vec<Vec<char>> = Vec::new();
    let mut from: usize = 0;
    assert(v@.skip(0) =~= v@);
    assert(rows(parts@) + split(v@.skip(0), sep) =~= split(v@, sep));
    loop
        invariant_except_break
            from <= v@.len(),
            rows(parts@) + split(v@.skip(from as int), sep) == split(v@, sep),
        ensures
            rows(parts@) == split(v@, sep),
        decreases v@.len() - from,
    {
        let ghost rest = v@.skip(from as int);
        let ghost before = parts@;
        let i: usize = find_from(v, from, sep);
        let part: Vec<char> = part_of(v, from, i);
        parts.push(part);
        proof {
            lemma_position_of(rest, sep);
            assert(part@ =~= rest.take(i - from));
            assert(rows(parts@) =~= rows(before).push(part@));
            if i < v@.len() {
                assert(v@.skip(i + 1) =~= rest.skip(i - from + 1));
                assert(rows(parts@) + split(v@.skip(i + 1), sep) =~= rows(before) + split(rest, sep));
            } else {
                assert(rest.take(i - from) =~= rest);
                assert(rows(parts@) =~= rows(before) + split(rest, sep));
            }
        }
        if i >= v.len() {
            break;
        }
        from = i + 1;
    }
    parts
}

/// What stands before and behind the first separator, if there is one.
pub open spec fn split_once(s: Seq<char>, sep: char) -> Option<(Seq<char>, Seq<char>)> {
    let i = position(s, sep);
    if i < s.len() {
        Some((s.take(i), s.skip(i + 1)))
    } else {
        None
    }
}

/// Splits a text at the first separator.
pub fn split_at_first(v: &Vec<char>, sep: char) -> (parts: Option<(Vec<char>, Vec<char>)>)
    ensures
        split_once(v@, sep) == match parts {
            Some(p) => Some((p.0@, p.1@)),
            None => None,
        },
{
    assert(v@.skip(0) =~= v@);
    let i: usize = find_from(v, 0, sep);
    if i < v.len() {
        let a: Vec<char> = part_of(v, 0, i);
        let b: Vec<char> = part_of(v, i + 1, v.len());
        assert(a@ =~= v@.take(i as int));
        assert(b@ =~= v@.skip(i + 1));
        Some((a, b))
    } else {
        None
    }
}

/// A line without the carriage return that a line feed may follow.
pub open spec fn without_return(s: Seq<char>) -> Seq<char> {
    if s.len() > 0 && s.last() == '\r' {
        s.drop_last()
    } else {
        s
    }
}

/// The lines of a text. A line ends with a line feed, or a carriage return and
/// a line feed, or the end of the text; nothing follows a last line feed.
pub open spec fn lines(s: Seq<char>) -> Seq<Seq<char>>
    decreases s.len(),
{
    let i = position(s, '\n');
    if s.len() == 0 {
        Seq::empty()
    } else if 0 <= i < s.len() {
        seq![without_return(s.take(i))] + lines(s.skip(i + 1))
    } else {
        seq![s]
    }
}

/// Splits a text into lines.
pub fn lines_of(v: &Vec<char>) -> (r: Vec<Vec<char>>)
    ensures
        rows(r@) == lines(v@),
{
    let mut r: Vec<Vec<char>> = Vec::new();
    let mut from: usize = 0;
    assert(v@.skip(0) =~= v@);
    assert(rows(r@) + lines(v@.skip(0)) =~= lines(v@));
    while from < v.len()
        invariant
            from <= v@.len(),
            rows(r@) + lines(v@.skip(from as int)) == lines(v@),
        decreases v@.len() - from,
    {
        let ghost rest = v@.skip(from as int);
        let ghost before = r@;
        let i: usize = find_from(v, from, '\n');
        proof {
            lemma_position_of(rest, '\n');
        }
        if i < v.len() {
            let mut to: usize = i;
            if to > from && v[to - 1] == '\r' {
                to -= 1;
            }
            let line: Vec<char> = part_of(v, from, to);
            proof {
                assert(v@.subrange(from as int, i as int) =~= rest.take(i - from));
                assert(line@ =~= without_return(rest.take(i - from)));
                assert(v@.skip(i + 1) =~= rest.skip(i - from + 1));
            }
            r.push(line);
            proof {
                assert(rows(r@) =~= rows(before).push(line@));
                assert(rows(r@) + lines(v@.skip(i + 1)) =~= rows(before) + lines(rest));
            }
            from = i + 1;
        } else {
            let line: Vec<char> = part_of(v, from, i);
            assert(line@ =~= rest);
            r.push(line);
            proof {
                assert(rows(r@) =~= rows(before).push(line@));
                assert(v@.skip(i as int) =~= Seq::<char>::empty());
                assert(rows(r@) + lines(v@.skip(i as int)) =~= rows(before) + lines(rest));
            }
            from = i;
        }
    }
    assert(v@.skip(from as int) =~= Seq::<char>::empty());
    assert(rows(r@) + lines(v@.skip(from as int)) =~= rows(r@));
    r
}

/// Whether `part` occurs in `s`.
pub open spec fn contains_text(s: Seq<char>, part: Seq<char>) -> bool {
    exists|i: int| 0 <= i <= s.len() - part.len() && #[trigger] occurs_at(s, part, i)
}

/// Whether `part` occurs in `s` at position `i`.
pub open spec fn occurs_at(s: Seq<char>, part: Seq<char>, i: int) -> bool {
    s.subrange(i, i + part.len()) == part
}

/// Whether a text begins with another.
pub open spec fn starts_with(s: Seq<char>, prefix: Seq<char>) -> bool {
    prefix.len() <= s.len() && occurs_at(s, prefix, 0)
}

/// The name of a file without its extension, if it has the given one.
pub open spec fn stem(file: Seq<char>, extension: Seq<char>) -> Option<Seq<char>> {
    let n = file.len() - extension.len() - 1;
    if n > 0 && file[n] == '.' && occurs_at(file, extension, n + 1) {
        Some(file.take(n))
    } else {
        None
    }
}

/// The name of a file without its extension, if it has the given one.
pub fn stem_of(file: &str, extension: &str) -> (r: Option<String>)
    ensures
        text_of(r) == stem(file@, extension@),
{
    let v: Vec<char> = chars_of(file);
    let e: Vec<char> = chars_of(extension);
    assert(v.len() == v@.len());
    assert(e.len() == e@.len());
    if v.len() <= e.len() || v.len() - e.len() <= 1 {
        return None;
    }
    let n: usize = v.len() - e.len() - 1;
    if v[n] == '.' && stands_at(&v, &e, n + 1) {
        let name: Vec<char> = part_of(&v, 0, n);
        assert(name@ =~= file@.take(n as int));
        Some(string_of(&name))
    } else {
        None
    }
}

/// Whether `part` stands at position `i`.
pub fn stands_at(v: &Vec<char>, part: &Vec<char>, i: usize) -> (yes: bool)
    requires
        i + part@.len() <= v@.len(),
    ensures
        yes == occurs_at(v@, part@, i as int),
{
    let mut k: usize = 0;
    assert(v.len() == v@.len());
    while k < part.len()
        invariant
            k <= part@.len(),
            i + part@.len() <= v@.len() <= usize::MAX,
            forall|j: int| 0 <= j < k ==> v@[i + j] == #[trigger] part@[j],
        decreases part@.len() - k,
    {
        if v[i + k] != part[k] {
            assert(v@.subrange(i as int, i + part@.len())[k as int] != part@[k as int]);
            return false;
        }
        k += 1;
    }
    assert(v@.subrange(i as int, i + part@.len()) =~= part@);
    true
}

/// Whether a text begins with another.
pub fn begins_with(v: &Vec<char>, prefix: &Vec<char>) -> (yes: bool)
    ensures
        yes == starts_with(v@, prefix@),
{
    prefix.len() <= v.len() && stands_at(v, prefix, 0)
}

/// Whether a text occurs in another.
pub fn has_part(v: &Vec<char>, part: &Vec<char>) -> (yes: bool)
    ensures
        yes == contains_text(v@, part@),
{
    if part.len() > v.len() {
        return false;
    }
    let last: usize = v.len() - part.len();
    let mut i: usize = 0;
    while i <= last
        invariant
            i <= last + 1,
            last == v@.len() - part@.len(),
            forall|k: int| 0 <= k < i ==> !#[trigger] occurs_at(v@, part@, k),
        decreases last + 1 - i,
    {
        if stands_at(v, part, i) {
            return true;
        }
        if i == last {
            return false;
        }
        i += 1;
    }
    false
}

// ---------------------------------------------------------------------------
// Trimming and joining
// ---------------------------------------------------------------------------

/// The characters with the Unicode property `White_Space`.
pub open spec fn is_blank(c: char) -> bool {
    ||| '\u{9}' <= c <= '\u{d}'
    ||| c == ' '
    ||| c == '\u{85}'
    ||| c == '\u{a0}'
    ||| c == '\u{1680}'
    ||| '\u{2000}' <= c <= '\u{200a}'
    ||| c == '\u{2028}'
    ||| c == '\u{2029}'
    ||| c == '\u{202f}'
    ||| c == '\u{205f}'
    ||| c == '\u{3000}'
}

/// Whether a character is white space.
pub fn blank(c: char) -> (yes: bool)
    ensures
        yes == is_blank(c),
{
    ('\u{9}' <= c && c <= '\u{d}') || c == ' ' || c == '\u{85}' || c == '\u{a0}' || c == '\u{1680}'
        || ('\u{2000}' <= c && c <= '\u{200a}') || c == '\u{2028}' || c == '\u{2029}' || c
        == '\u{202f}' || c == '\u{205f}' || c == '\u{3000}'
}

/// A text without the white space at its front.
pub open spec fn trim_front(s: Seq<char>) -> Seq<char>
    decreases s.len(),
{
    if s.len() > 0 && is_blank(s[0]) {
        trim_front(s.drop_first())
    } else {
        s
    }
}

/// A text without the white space at its end.
pub open spec fn trim_back(s: Seq<char>) -> Seq<char>
    decreases s.len(),
{
    if s.len() > 0 && is_blank(s.last()) {
        trim_back(s.drop_last())
    } else {
        s
    }
}

/// A text without the white space around it.
pub open spec fn trim(s: Seq<char>) -> Seq<char> {
    trim_back(trim_front(s))
}

/// Takes the white space around a text away.
pub fn trimmed(v: &Vec<char>) -> (r: Vec<char>)
    ensures
        r@ == trim(v@),
{
    let mut from: usize = 0;
    assert(v@.skip(0) =~= v@);
    while from < v.len() && blank(v[from])
        invariant
            from <= v@.len(),
            trim_front(v@.skip(from as int)) == trim_front(v@),
        decreases v@.len() - from,
    {
        assert(v@.skip(from as int).drop_first() =~= v@.skip(from + 1));
        from += 1;
    }
    let ghost front = v@.skip(from as int);
    assert(trim_front(v@) == front);
    let mut to: usize = v.len();
    assert(v@.subrange(from as int, to as int) =~= front);
    while to > from && blank(v[to - 1])
        invariant
            from <= to <= v@.len(),
            trim_back(v@.subrange(from as int, to as int)) == trim_back(front),
        decreases to,
    {
        assert(v@.subrange(from as int, to as int).drop_last() =~= v@.subrange(
            from as int,
            to - 1,
        ));
        to -= 1;
    }
    part_of(v, from, to)
}

/// Texts one behind the other, with a separator between them.
pub open spec fn join(parts: Seq<Seq<char>>, sep: Seq<char>) -> Seq<char>
    decreases parts.len(),
{
    if parts.len() == 0 {
        Seq::empty()
    } else if parts.len() == 1 {
        parts[0]
    } else {
        join(parts.drop_last(), sep) + sep + parts.last()
    }
}

/// Joins texts.
pub fn joined(parts: &Vec<String>, sep: &str) -> (s: String)
    ensures
        s@ == join(texts(parts@), sep@),
{
    let mut s: String = String::new();
    let mut i: usize = 0;
    assert(join(texts(parts@).take(0), sep@) =~= Seq::<char>::empty());
    while i < parts.len()
        invariant
            i <= parts@.len(),
            s@ == join(texts(parts@).take(i as int), sep@),
        decreases parts@.len() - i,
    {
        let ghost all = texts(parts@);
        proof {
            assert(all.take(i + 1).drop_last() =~= all.take(i as int));
            assert(all.take(i + 1).last() == parts@[i as int]@);
        }
        if i > 0 {
            s.append(sep);
            s.append(parts[i].as_str());
        } else {
            assert(all.take(1)[0] == parts@[0]@);
            s = parts[i].clone();
        }
        i += 1;
    }
    assert(texts(parts@).take(parts@.len() as int) =~= texts(parts@));
    s
}

// ---------------------------------------------------------------------------
// Numbers
// ---------------------------------------------------------------------------

/// The character of a decimal digit.
pub open spec fn digit(d: int) -> char {
    seq!['0', '1', '2', '3', '4', '5', '6', '7', '8', '9'][d]
}

/// A number in decimal digits.
pub open spec fn decimal(n: nat) -> Seq<char>
    decreases n,
{
    if n < 10 {
        seq![digit(n as int)]
    } else {
        decimal(n / 10).push(digit((n % 10) as int))
    }
}

/// A number in decimal digits, at least two of them.
pub open spec fn two_digits(n: nat) -> Seq<char> {
    if n < 10 {
        seq!['0'] + decimal(n)
    } else {
        decimal(n)
    }
}

fn digit_char(d: u64) -> (c: char)
    requires
        d < 10,
    ensures
        c == digit(d as int),
{
    if d == 0 {
        '0'
    } else if d == 1 {
        '1'
    } else if d == 2 {
        '2'
    } else if d == 3 {
        '3'
    } else if d == 4 {
        '4'
    } else if d == 5 {
        '5'
    } else if d == 6 {
        '6'
    } else if d == 7 {
        '7'
    } else if d == 8 {
        '8'
    } else {
        '9'
    }
}

/// Writes a number in decimal digits.
pub fn decimal_text(n: u64) -> (s: String)
    ensures
        s@ == decimal(n as nat),
    decreases n,
{
    if n < 10 {
        let mut s: String = String::new();
        s.push(digit_char(n));
        assert(s@ =~= decimal(n as nat));
        s
    } else {
        let mut s: String = decimal_text(n / 10);
        s.push(digit_char(n % 10));
        s
    }
}

/// Writes a number in at least two decimal digits.
pub fn two_digit_text(n: u64) -> (s: String)
    ensures
        s@ == two_digits(n as nat),
{
    if n < 10 {
        let mut s: String = String::new();
        s.push('0');
        let d: String = decimal_text(n);
        s.append(d.as_str());
        assert(s@ =~= two_digits(n as nat));
        s
    } else {
        decimal_text(n)
    }
}

/// Whether a character is a decimal digit.
pub open spec fn is_digit(c: char) -> bool {
    '0' <= c <= '9'
}

/// The value of a decimal digit.
pub open spec fn digit_value(c: char) -> int {
    c as int - '0' as int
}

/// The number that decimal digits spell.
pub open spec fn value(s: Seq<char>) -> nat
    decreases s.len(),
{
    if s.len() == 0 {
        0
    } else {
        (10 * value(s.drop_last()) + digit_value(s.last())) as nat
    }
}

/// Whether a text is one or more decimal digits.
pub open spec fn all_digits(s: Seq<char>) -> bool {
    &&& s.len() > 0
    &&& forall|i: int| 0 <= i < s.len() ==> is_digit(#[trigger] s[i])
}

/// A text without the plus sign that a number may have.
pub open spec fn without_plus(s: Seq<char>) -> Seq<char> {
    if s.len() > 1 && s[0] == '+' {
        s.skip(1)
    } else {
        s
    }
}

/// The unsigned number that a text spells, if it spells one that is at most
/// `max`: decimal digits, with a plus sign before them or none.
pub open spec fn number(s: Seq<char>, max: nat) -> Option<nat> {
    let d = without_plus(s);
    if all_digits(d) && value(d) <= max {
        Some(value(d))
    } else {
        None
    }
}

/// The value of a decimal digit.
pub fn value_of_digit(c: char) -> (d: u64)
    requires
        is_digit(c),
    ensures
        d == digit_value(c),
        d < 10,
{
    (c as u64) - 48
}

proof fn lemma_value_grows(s: Seq<char>, n: int)
    requires
        0 <= n <= s.len(),
        forall|i: int| 0 <= i < s.len() ==> is_digit(#[trigger] s[i]),
    ensures
        value(s.take(n)) <= value(s),
    decreases s.len(),
{
    if n < s.len() {
        assert(s.drop_last().take(n) =~= s.take(n));
        lemma_value_grows(s.drop_last(), n);
    } else {
        assert(s.take(n) =~= s);
    }
}

proof fn lemma_digits_value(n: nat)
    ensures
        all_digits(decimal(n)),
        value(decimal(n)) == n,
    decreases n,
{
    if n >= 10 {
        lemma_digits_value(n / 10);
        let d = decimal(n / 10);
        let c = digit((n % 10) as int);
        assert(d.push(c).drop_last() =~= d);
        assert(is_digit(c) && digit_value(c) == n % 10);
        assert forall|i: int| 0 <= i < d.push(c).len() implies is_digit(#[trigger] d.push(c)[i]) by {
            if i < d.len() {
                assert(is_digit(d[i]));
            }
        }
    } else {
        let s = seq![digit(n as int)];
        assert(s.drop_last() =~= seq![]);
        assert(value(s.drop_last()) == 0);
        assert(is_digit(s[0]) && digit_value(s[0]) == n);
    }
}

/// A number that is written in decimal digits is read back.
pub proof fn law_number_is_read_back(n: nat, max: nat)
    requires
        n <= max,
    ensures
        number(decimal(n), max) == Some(n),
{
    lemma_digits_value(n);
    assert(is_digit(decimal(n)[0]));
}

/// Reads an unsigned number that is at most `max`.
pub fn parse_number(s: &str, max: u64) -> (r: Option<u64>)
    ensures
        number(s@, max as nat) == match r {
            Some(n) => Some(n as nat),
            None => None,
        },
{
    let v: Vec<char> = chars_of(s);
    let from: usize = if v.len() > 1 && v[0] == '+' { 1 } else { 0 };
    let ghost d = without_plus(s@);
    assert(d =~= v@.skip(from as int));
    if v.len() == from {
        return None;
    }
    let mut n: u64 = 0;
    let mut i: usize = from;
    assert(d.take(0) =~= Seq::<char>::empty());
    while i < v.len()
        invariant
            from <= i <= v@.len(),
            from <= 1,
            d == v@.skip(from as int),
            d == without_plus(s@),
            forall|k: int| 0 <= k < i - from ==> is_digit(#[trigger] d[k]),
            n == value(d.take(i - from)),
            n <= max,
        decreases v@.len() - i,
    {
        let c: char = v[i];
        assert(d[i - from] == c);
        if c < '0' || c > '9' {
            return None;
        }
        let x: u64 = value_of_digit(c);
        proof {
            assert(d.take(i - from + 1).drop_last() =~= d.take(i - from));
            assert(value(d.take(i - from + 1)) == 10 * n + x);
        }
        if n > (max - 0) / 10 || n * 10 > max - x.min(max) || x > max {
            proof {
                assert(10 * n + x > max);
                if all_digits(d) {
                    lemma_value_grows(d, i - from + 1);
                }
            }
            return None;
        }
        n = n * 10 + x;
        i += 1;
    }
    assert(d.take(d.len() as int) =~= d);
    Some(n)
}

// ---------------------------------------------------------------------------
// Laws
// ---------------------------------------------------------------------------

/// The parts of a text, joined with the separator, are the text again, and no part
/// has a separator in it.
pub proof fn law_split_is_joined(s: Seq<char>, sep: char)
    ensures
        split(s, sep).len() > 0,
        join(split(s, sep), seq![sep]) == s,
        forall|i: int|
            0 <= i < split(s, sep).len() ==> !(#[trigger] split(s, sep)[i]).contains(sep),
    decreases s.len(),
{
    lemma_position_of(s, sep);
    let i = position(s, sep);
    if i < s.len() {
        let rest = s.skip(i + 1);
        law_split_is_joined(rest, sep);
        lemma_join_front(s.take(i), split(rest, sep), seq![sep]);
        assert(s =~= s.take(i) + seq![sep] + rest);
        assert forall|k: int| 0 <= k < split(s, sep).len() implies !(#[trigger] split(
            s,
            sep,
        )[k]).contains(sep) by {
            if k > 0 {
                assert(split(s, sep)[k] == split(rest, sep)[k - 1]);
            }
        }
    }
}

proof fn lemma_join_front(first: Seq<char>, parts: Seq<Seq<char>>, sep: Seq<char>)
    requires
        parts.len() > 0,
    ensures
        join(seq![first] + parts, sep) == first + sep + join(parts, sep),
    decreases parts.len(),
{
    let all = seq![first] + parts;
    if parts.len() == 1 {
        assert(all.drop_last() =~= seq![first]);
        reveal_with_fuel(join, 3);
        assert(all.last() == parts[0]);
        assert(join(all, sep) =~= first + sep + join(parts, sep));
    } else {
        assert(all.drop_last() =~= seq![first] + parts.drop_last());
        lemma_join_front(first, parts.drop_last(), sep);
        assert(join(all, sep) =~= first + sep + join(parts, sep));
    }
}

/// Texts are joined one behind the other with the separator between two of them,
/// and nowhere else.
pub proof fn law_join_adds_behind(parts: Seq<Seq<char>>, last: Seq<char>, sep: Seq<char>)
    ensures
        join(Seq::empty(), sep).len() == 0,
        join(seq![last], sep) == last,
        parts.len() > 0 ==> join(parts.push(last), sep) == join(parts, sep) + sep + last,
{
    assert(parts.push(last).drop_last() =~= parts);
}

/// A text is cut at the first separator: what stands before it has none, and both
/// parts with the separator between them are the text. Only a text without a
/// separator is not cut.
pub proof fn law_split_once_cuts_at_the_first(s: Seq<char>, sep: char)
    ensures
        split_once(s, sep) is None <==> !s.contains(sep),
        split_once(s, sep) matches Some((a, b)) ==> s == a + seq![sep] + b && !a.contains(sep),
{
    lemma_position_of(s, sep);
    let i = position(s, sep);
    if i < s.len() {
        assert(s.contains(s[i]));
        assert(s =~= s.take(i) + seq![sep] + s.skip(i + 1));
    }
}

/// The lines of a text: the text up to the first line feed, without a carriage
/// return at its end, and then those of the rest. The last line is as it is, and
/// an empty text has none.
pub proof fn law_lines_end_with_line_feeds(first: Seq<char>, rest: Seq<char>)
    requires
        !first.contains('\n'),
    ensures
        lines(Seq::empty()).len() == 0,
        first.len() > 0 ==> lines(first) == seq![first],
        lines(first + seq!['\r', '\n'] + rest) == seq![first] + lines(rest),
        first.len() == 0 || first.last() != '\r' ==> lines(first + seq!['\n'] + rest) == seq![
            first,
        ] + lines(rest),
{
    lemma_position_is(first, '\n', first.len() as int);
    let a = first + seq!['\r', '\n'] + rest;
    let n = first.len() as int;
    assert forall|k: int| 0 <= k < n + 1 implies (#[trigger] a[k]) != '\n' by {
        if k < n {
            assert(first.contains(first[k]));
        }
    }
    lemma_position_is(a, '\n', n + 1);
    assert(a.take(n + 1).drop_last() =~= first);
    assert(a.take(n + 1).last() == '\r');
    assert(a.skip(n + 2) =~= rest);
    let b = first + seq!['\n'] + rest;
    assert forall|k: int| 0 <= k < n implies (#[trigger] b[k]) != '\n' by {
        assert(first.contains(first[k]));
    }
    lemma_position_is(b, '\n', n);
    assert(b.take(n) =~= first);
    assert(b.skip(n + 1) =~= rest);
}

/// A text occurs in another exactly when that one is made of something, the text,
/// and something.
pub proof fn law_part_stands_between(s: Seq<char>, part: Seq<char>)
    ensures
        contains_text(s, part) <==> exists|a: Seq<char>, b: Seq<char>|
            s == #[trigger] (a + part + b),
        starts_with(s, part) <==> exists|b: Seq<char>| s == #[trigger] (part + b),
{
    if contains_text(s, part) {
        let i = choose|i: int| 0 <= i <= s.len() - part.len() && #[trigger] occurs_at(s, part, i);
        assert(s =~= s.take(i) + part + s.skip(i + part.len()));
    }
    if exists|a: Seq<char>, b: Seq<char>| s == #[trigger] (a + part + b) {
        let (a, b) = choose|a: Seq<char>, b: Seq<char>| s == #[trigger] (a + part + b);
        assert(s.subrange(a.len() as int, (a.len() + part.len()) as int) =~= part);
        assert(occurs_at(s, part, a.len() as int));
    }
    if starts_with(s, part) {
        assert(s =~= part + s.skip(part.len() as int));
    }
    if exists|b: Seq<char>| s == #[trigger] (part + b) {
        let b = choose|b: Seq<char>| s == #[trigger] (part + b);
        assert(s.subrange(0, part.len() as int) =~= part);
    }
}

/// A file has an extension exactly when it is a name that is not empty, a point
/// and the extension; the name is what is left of it.
pub proof fn law_name_point_extension(file: Seq<char>, name: Seq<char>, extension: Seq<char>)
    ensures
        stem(file, extension) == Some(name) <==> name.len() > 0 && file == name + seq!['.']
            + extension,
{
    let n = file.len() - extension.len() - 1;
    if stem(file, extension) == Some(name) {
        assert(file =~= name + seq!['.'] + extension);
    }
    if name.len() > 0 && file == name + seq!['.'] + extension {
        assert(file.subrange(n + 1, n + 1 + extension.len()) =~= extension);
        assert(file.take(n) =~= name);
    }
}

/// What is trimmed away is white space, and what is left begins and ends with
/// something else, or is empty.
pub proof fn law_trim_takes_the_blanks(s: Seq<char>)
    ensures
        exists|a: Seq<char>, b: Seq<char>|
            {
                &&& s == #[trigger] (a + trim(s) + b)
                &&& forall|i: int| 0 <= i < a.len() ==> is_blank(#[trigger] a[i])
                &&& forall|i: int| 0 <= i < b.len() ==> is_blank(#[trigger] b[i])
            },
        trim(s).len() > 0 ==> !is_blank(trim(s)[0]) && !is_blank(trim(s).last()),
{
    lemma_trim_front(s);
    let t = trim_front(s);
    lemma_trim_back(t);
    let a = s.take(s.len() - t.len());
    let b = t.skip(trim(s).len() as int);
    assert(s =~= a + trim(s) + b);
    if trim(s).len() > 0 {
        assert(trim(s)[0] == t[0]);
    }
}

proof fn lemma_trim_front(s: Seq<char>)
    ensures
        trim_front(s).len() <= s.len(),
        trim_front(s) == s.skip(s.len() - trim_front(s).len()),
        forall|i: int| 0 <= i < s.len() - trim_front(s).len() ==> is_blank(#[trigger] s[i]),
        trim_front(s).len() > 0 ==> !is_blank(trim_front(s)[0]),
    decreases s.len(),
{
    if s.len() > 0 && is_blank(s[0]) {
        let r = s.drop_first();
        lemma_trim_front(r);
        assert(r.skip(r.len() - trim_front(r).len()) =~= s.skip(s.len() - trim_front(r).len()));
        assert forall|i: int| 0 <= i < s.len() - trim_front(s).len() implies is_blank(
            #[trigger] s[i],
        ) by {
            if i > 0 {
                assert(r[i - 1] == s[i]);
            }
        }
    } else {
        assert(s.skip(0) =~= s);
    }
}

proof fn lemma_trim_back(s: Seq<char>)
    ensures
        trim_back(s).len() <= s.len(),
        trim_back(s) == s.take(trim_back(s).len() as int),
        forall|i: int| trim_back(s).len() <= i < s.len() ==> is_blank(#[trigger] s[i]),
        trim_back(s).len() > 0 ==> !is_blank(trim_back(s).last()),
    decreases s.len(),
{
    if s.len() > 0 && is_blank(s.last()) {
        let r = s.drop_last();
        lemma_trim_back(r);
        assert(r.take(trim_back(r).len() as int) =~= s.take(trim_back(r).len() as int));
        assert forall|i: int| trim_back(s).len() <= i < s.len() implies is_blank(
            #[trigger] s[i],
        ) by {
            if i < r.len() {
                assert(r[i] == s[i]);
            }
        }
    } else {
        assert(s.take(s.len() as int) =~= s);
    }
}

/// The white space, by the numbers of the characters.
pub proof fn law_blanks(c: char)
    ensures
        is_blank(c) <==> {
            let n = c as u32;
            ||| n >= 9 && n <= 13
            ||| n == 0x20
            ||| n == 0x85
            ||| n == 0xa0
            ||| n == 0x1680
            ||| n >= 0x2000 && n <= 0x200a
            ||| n == 0x2028
            ||| n == 0x2029
            ||| n == 0x202f
            ||| n == 0x205f
            ||| n == 0x3000
        },
{
}

/// A number is written without zeros before it, and the digit behind a number is
/// its ones.
pub proof fn law_decimal_digits(n: nat, d: nat)
    requires
        d < 10,
    ensures
        decimal(d).len() == 1,
        decimal(d)[0] as int == '0' as int + d,
        n > 0 ==> decimal(10 * n + d) == decimal(n) + decimal(d),
        n > 0 ==> decimal(n)[0] != '0',
    decreases n,
{
    if n > 0 {
        assert((10 * n + d) / 10 == n);
        assert((10 * n + d) % 10 == d);
        assert(decimal(10 * n + d) =~= decimal(n) + decimal(d));
        if n >= 10 {
            law_decimal_digits(n / 10, d);
            lemma_decimal_not_empty(n / 10);
            assert(decimal(n)[0] == decimal(n / 10)[0]);
        }
    }
}

proof fn lemma_decimal_not_empty(n: nat)
    ensures
        decimal(n).len() > 0,
    decreases n,
{
    if n >= 10 {
        lemma_decimal_not_empty(n / 10);
    }
}

/// A text is read as a number exactly when it is digits, with a plus before them
/// or none, and the number is not too large. A digit behind a number makes it ten
/// times as large and adds itself; a zero before it changes nothing.
pub proof fn law_numbers_are_read(s: Seq<char>, c: char, max: nat)
    ensures
        number(s, max) is Some ==> number(s, max)->0 <= max,
        number(s, max) is Some ==> s.len() > 0 && forall|i: int|
            0 <= i < s.len() ==> '0' <= #[trigger] s[i] <= '9' || (i == 0 && s[0] == '+' && s.len()
                > 1),
        number(s, max) is Some && '0' <= c <= '9' ==> number(s.push(c), max) == (if 10 * number(
            s,
            max,
        )->0 + (c as int - '0' as int) <= max {
            Some((10 * number(s, max)->0 + (c as int - '0' as int)) as nat)
        } else {
            None
        }),
        !('0' <= c <= '9') ==> number(s.push(c), max) is None,
        s.len() > 0 && '0' <= s[0] <= '9' ==> number(seq!['+'] + s, max) == number(s, max),
        '0' <= c <= '9' && c as int - '0' as int <= max ==> number(seq![c], max) == Some(
            (c as int - '0' as int) as nat,
        ),
{
    let d = without_plus(s);
    let e = without_plus(s.push(c));
    if number(s, max) is Some {
        assert(d.len() > 0);
        assert forall|i: int| 0 <= i < s.len() implies '0' <= #[trigger] s[i] <= '9' || (i == 0
            && s[0] == '+' && s.len() > 1) by {
            if d == s {
                assert(is_digit(d[i]));
            } else if i > 0 {
                assert(is_digit(d[i - 1]));
            }
        }
        assert(e =~= d.push(c)) by {
            if s.len() == 1 && s[0] == '+' {
                assert(is_digit(d[0]));
            }
        }
        assert(e.drop_last() =~= d);
        if is_digit(c) {
            assert forall|i: int| 0 <= i < e.len() implies is_digit(#[trigger] e[i]) by {
                if i < d.len() {
                    assert(is_digit(d[i]));
                }
            }
        }
    }
    if !is_digit(c) {
        if all_digits(e) {
            assert(e.last() == c);
            assert(is_digit(e[e.len() - 1]));
        }
    }
    if s.len() > 0 && '0' <= s[0] <= '9' {
        assert((seq!['+'] + s).skip(1) =~= s);
        assert(without_plus(s) == s);
    }
    if is_digit(c) {
        let one = seq![c];
        assert(one.drop_last() =~= seq![]);
        assert(value(one.drop_last()) == 0);
    }
}

/// A number in at least two digits is the number, with a zero before it where it
/// has only one.
pub proof fn law_two_digits(n: nat)
    ensures
        n < 10 ==> two_digits(n) == seq!['0'] + decimal(n),
        n >= 10 ==> two_digits(n) == decimal(n),
        n < 100 ==> two_digits(n).len() == 2,
{
    if 10 <= n < 100 {
        law_decimal_digits(n / 10, n % 10);
        law_decimal_digits(0, n / 10);
        assert(10 * (n / 10) + n % 10 == n);
    }
}

/// The texts of a list are those of its strings, one for one.
pub proof fn law_texts_one_for_one(list: Seq<String>, chars: Seq<Vec<char>>, s: String, i: int)
    ensures
        texts(list).len() == list.len(),
        0 <= i < list.len() ==> texts(list)[i] == list[i]@,
        rows(chars).len() == chars.len(),
        0 <= i < chars.len() ==> rows(chars)[i] == chars[i]@,
        text_of(Some(s)) == Some(s@),
        text_of(None) is None,
{
}

} // verus!
