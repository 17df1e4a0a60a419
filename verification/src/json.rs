//! JSON documents, as the crate `serde_json` reads and writes them.

use vstd::prelude::*;
use crate::text::{text_of, texts};

verus! {

/// A JSON value of the crate `serde_json`.
#[verifier::external_type_specification]
#[verifier::external_body]
pub struct ExValue(serde_json::Value);

/// Why a text is no JSON document.
#[verifier::external_type_specification]
#[verifier::external_body]
pub struct ExError(serde_json::Error);

/// One step from a JSON value to a value inside it.
pub enum JsonStep {
    Key(Seq<char>),
    Item(int),
}

/// What stands at one place of a JSON document. A number is whole if it was
/// written as an integer of at most 64 bits, and else a fraction, known by the
/// bits of its double precision float. An object has its keys, in the order in
/// which they are walked.
pub enum JsonNode {
    Null,
    Bool(bool),
    Whole(int),
    Fraction(u64),
    Text(Seq<char>),
    List(nat),
    Object(Seq<Seq<char>>),
}

/// A JSON document: what stands at each of its places, by the steps that lead
/// there.
pub type Nodes = Map<Seq<JsonStep>, JsonNode>;

/// What a JSON value holds.
pub uninterp spec fn json_nodes(v: serde_json::Value) -> Map<Seq<JsonStep>, JsonNode>;

/// The document that `serde_json::from_str` reads from a text, if it is JSON.
pub uninterp spec fn json_document(text: Seq<char>) -> Option<Map<Seq<JsonStep>, JsonNode>>;

/// The value at the top of a document.
pub open spec fn root(m: Nodes) -> JsonNode {
    m[Seq::<JsonStep>::empty()]
}

/// The document that begins one step down.
pub open spec fn under(m: Nodes, step: JsonStep) -> Nodes {
    Map::new(|p: Seq<JsonStep>| m.contains_key(seq![step] + p), |p: Seq<JsonStep>| m[seq![step] + p])
}

/// The member of an object with the given key, if the document is an object
/// that has it.
pub open spec fn member(m: Nodes, key: Seq<char>) -> Option<Nodes> {
    match root(m) {
        JsonNode::Object(keys) => if keys.contains(key) {
            Some(under(m, JsonStep::Key(key)))
        } else {
            None
        },
        _ => None,
    }
}

/// The item of a list at the given place, if the document is a list that long.
pub open spec fn item(m: Nodes, i: int) -> Option<Nodes> {
    match root(m) {
        JsonNode::List(len) => if 0 <= i < len {
            Some(under(m, JsonStep::Item(i)))
        } else {
            None
        },
        _ => None,
    }
}

/// The text, if the value is one.
pub open spec fn as_text(m: Nodes) -> Option<Seq<char>> {
    match root(m) {
        JsonNode::Text(s) => Some(s),
        _ => None,
    }
}

/// The truth value, if the value is one.
pub open spec fn as_bool(m: Nodes) -> Option<bool> {
    match root(m) {
        JsonNode::Bool(b) => Some(b),
        _ => None,
    }
}

/// The integer, if the value is one from `low` to `high`.
pub open spec fn as_whole(m: Nodes, low: int, high: int) -> Option<int> {
    match root(m) {
        JsonNode::Whole(n) => if low <= n <= high {
            Some(n)
        } else {
            None
        },
        _ => None,
    }
}

/// The keys, if the value is an object.
pub open spec fn as_keys(m: Nodes) -> Option<Seq<Seq<char>>> {
    match root(m) {
        JsonNode::Object(keys) => Some(keys),
        _ => None,
    }
}

/// The number of items, if the value is a list.
pub open spec fn as_length(m: Nodes) -> Option<nat> {
    match root(m) {
        JsonNode::List(len) => Some(len),
        _ => None,
    }
}

/// The documents that optional values hold.
pub open spec fn nodes_of(v: Option<&serde_json::Value>) -> Option<Nodes> {
    match v {
        Some(v) => Some(json_nodes(*v)),
        None => None,
    }
}

/// `serde_json::from_str`: what it reads is a function of the text alone.
#[verifier::external_body]
pub(crate) fn parse_json(text: &str) -> (r: Result<serde_json::Value, serde_json::Error>)
    ensures
        json_document(text@) == match r {
            Ok(v) => Some(json_nodes(v)),
            Err(_) => None,
        },
{
    serde_json::from_str(text)
}

/// `serde_json::Value::get` with a key: the member of an object.
#[verifier::external_body]
pub(crate) fn get_member<'a>(v: &'a serde_json::Value, key: &str) -> (r: Option<
    &'a serde_json::Value,
>)
    ensures
        nodes_of(r) == member(json_nodes(*v), key@),
{
    v.get(key)
}

/// `serde_json::Value::get` with a number: the item of a list.
#[verifier::external_body]
pub(crate) fn get_item<'a>(v: &'a serde_json::Value, i: usize) -> (r: Option<&'a serde_json::Value>)
    ensures
        nodes_of(r) == item(json_nodes(*v), i as int),
{
    v.get(i)
}

/// `serde_json::Value::as_str`: the text, if the value is one.
#[verifier::external_body]
pub(crate) fn get_text(v: &serde_json::Value) -> (r: Option<String>)
    ensures
        text_of(r) == as_text(json_nodes(*v)),
{
    v.as_str().map(String::from)
}

/// `serde_json::Value::as_bool`: the truth value, if the value is one.
#[verifier::external_body]
pub(crate) fn get_bool(v: &serde_json::Value) -> (r: Option<bool>)
    ensures
        r == as_bool(json_nodes(*v)),
{
    v.as_bool()
}

/// `serde_json::Value::as_u64`: the integer, if the value is one that fits.
#[verifier::external_body]
pub(crate) fn get_u64(v: &serde_json::Value) -> (r: Option<u64>)
    ensures
        as_whole(json_nodes(*v), 0, u64::MAX as int) == match r {
            Some(n) => Some(n as int),
            None => None,
        },
{
    v.as_u64()
}

/// `serde_json::Value::as_i64`: the integer, if the value is one that fits. An
/// integer that does not fit is a positive one of 64 bits.
#[verifier::external_body]
pub(crate) fn get_i64(v: &serde_json::Value) -> (r: Option<i64>)
    ensures
        as_whole(json_nodes(*v), i64::MIN as int, i64::MAX as int) == match r {
            Some(n) => Some(n as int),
            None => None,
        },
        r is None ==> (root(json_nodes(*v)) matches JsonNode::Whole(n) ==> 0 <= n <= u64::MAX),
{
    v.as_i64()
}

/// `serde_json::Value::as_f64` of a value that is no integer: the bits of the
/// number, if the value is one.
#[verifier::external_body]
pub(crate) fn get_fraction(v: &serde_json::Value) -> (r: Option<u64>)
    requires
        !(root(json_nodes(*v)) is Whole),
    ensures
        r == (match root(json_nodes(*v)) {
            JsonNode::Fraction(bits) => Some(bits),
            _ => None,
        }),
{
    v.as_f64().map(|x| x.to_bits())
}

/// `serde_json::Value::as_array`: the number of items, if the value is a list.
#[verifier::external_body]
pub(crate) fn get_length(v: &serde_json::Value) -> (r: Option<usize>)
    ensures
        as_length(json_nodes(*v)) == match r {
            Some(n) => Some(n as nat),
            None => None,
        },
{
    v.as_array().map(|a| a.len())
}

/// `serde_json::Value::as_object`: the keys in the order in which the object's
/// map walks them, none twice, if the value is an object.
#[verifier::external_body]
pub(crate) fn get_keys(v: &serde_json::Value) -> (r: Option<Vec<String>>)
    ensures
        as_keys(json_nodes(*v)) == match r {
            Some(keys) => Some(texts(keys@)),
            None => None,
        },
        r matches Some(keys) ==> texts(keys@).no_duplicates(),
{
    v.as_object().map(|m| m.keys().cloned().collect())
}

/// A JSON number: an integer, or the bits of a double precision float.
#[derive(Debug, Clone, Copy, PartialEq, Eq)]
pub enum Number {
    Unsigned(u64),
    Negative(i64),
    Fraction(u64),
}

/// The number, if the value is one.
pub open spec fn as_number(m: Nodes) -> Option<Number> {
    match root(m) {
        JsonNode::Whole(n) => if 0 <= n <= u64::MAX {
            Some(Number::Unsigned(n as u64))
        } else if i64::MIN <= n < 0 {
            Some(Number::Negative(n as i64))
        } else {
            None
        },
        JsonNode::Fraction(bits) => Some(Number::Fraction(bits)),
        _ => None,
    }
}

/// The number, if the value is one.
pub fn get_number(v: &serde_json::Value) -> (r: Option<Number>)
    ensures
        r == as_number(json_nodes(*v)),
{
    match get_u64(v) {
        Some(n) => Some(Number::Unsigned(n)),
        None => match get_i64(v) {
            Some(n) => Some(Number::Negative(n)),
            None => match get_fraction(v) {
                Some(bits) => Some(Number::Fraction(bits)),
                None => None,
            },
        },
    }
}

/// The text of a member, if there is such a text.
pub open spec fn member_text(m: Nodes, key: Seq<char>) -> Option<Seq<char>> {
    match member(m, key) {
        Some(m) => as_text(m),
        None => None,
    }
}

/// The text of a member, if there is such a text.
pub fn get_member_text(v: &serde_json::Value, key: &str) -> (r: Option<String>)
    ensures
        text_of(r) == member_text(json_nodes(*v), key@),
{
    match get_member(v, key) {
        Some(v) => get_text(v),
        None => None,
    }
}

/// The text of a member of a member, if there is such a text.
pub open spec fn inner_text(m: Nodes, outer: Seq<char>, key: Seq<char>) -> Option<Seq<char>> {
    match member(m, outer) {
        Some(m) => member_text(m, key),
        None => None,
    }
}

/// The text of a member of a member, if there is such a text.
pub fn get_inner_text(v: &serde_json::Value, outer: &str, key: &str) -> (r: Option<String>)
    ensures
        text_of(r) == inner_text(json_nodes(*v), outer@, key@),
{
    match get_member(v, outer) {
        Some(v) => get_member_text(v, key),
        None => None,
    }
}

/// The texts among the first `n` items of a list.
pub open spec fn texts_before(m: Nodes, n: nat) -> Seq<Seq<char>>
    decreases n,
{
    if n == 0 {
        seq![]
    } else {
        match as_text(under(m, JsonStep::Item(n - 1))) {
            Some(s) => texts_before(m, (n - 1) as nat).push(s),
            None => texts_before(m, (n - 1) as nat),
        }
    }
}

/// The texts among the items of a list; none if the value is no list.
pub open spec fn texts_in(m: Nodes) -> Seq<Seq<char>> {
    match as_length(m) {
        Some(n) => texts_before(m, n),
        None => seq![],
    }
}

/// The texts in a member that is a list; none if there is no such member.
pub open spec fn member_texts(m: Nodes, key: Seq<char>) -> Seq<Seq<char>> {
    match member(m, key) {
        Some(m) => texts_in(m),
        None => seq![],
    }
}

/// The texts in a member that is a list.
pub fn get_member_texts(v: &serde_json::Value, key: &str) -> (r: Vec<String>)
    ensures
        texts(r@) == member_texts(json_nodes(*v), key@),
{
    let mut r: Vec<String> = Vec::new();
    assert(texts(r@) =~= seq![]);
    let list: &serde_json::Value = match get_member(v, key) {
        Some(list) => list,
        None => {
            return r;
        },
    };
    let len: usize = match get_length(list) {
        Some(len) => len,
        None => {
            return r;
        },
    };
    let ghost m = json_nodes(*list);
    let mut i: usize = 0;
    while i < len
        invariant
            i <= len,
            m == json_nodes(*list),
            as_length(m) == Some(len as nat),
            texts(r@) == texts_before(m, i as nat),
        decreases len - i,
    {
        let ghost before = r@;
        match get_item(list, i) {
            Some(x) => match get_text(x) {
                Some(s) => {
                    r.push(s);
                    assert(texts(r@) =~= texts(before).push(s@));
                },
                None => {},
            },
            None => {},
        }
        i += 1;
    }
    r
}

// ---------------------------------------------------------------------------
// Writing
// ---------------------------------------------------------------------------

/// A hexadecimal digit.
pub open spec fn hex(d: int) -> char {
    seq!['0', '1', '2', '3', '4', '5', '6', '7', '8', '9', 'a', 'b', 'c', 'd', 'e', 'f'][d]
}

/// Whether a character is one of the first control characters.
pub open spec fn is_control(c: char) -> bool {
    (c as u32) < 32
}

/// How a character is written in a JSON text.
pub open spec fn escaped(c: char) -> Seq<char> {
    if c == '"' || c == '\\' {
        seq!['\\', c]
    } else if c == '\u{8}' {
        seq!['\\', 'b']
    } else if c == '\t' {
        seq!['\\', 't']
    } else if c == '\n' {
        seq!['\\', 'n']
    } else if c == '\u{c}' {
        seq!['\\', 'f']
    } else if c == '\r' {
        seq!['\\', 'r']
    } else if is_control(c) {
        seq!['\\', 'u', '0', '0', hex(c as int / 16), hex(c as int % 16)]
    } else {
        seq![c]
    }
}

/// How the characters of a text are written in JSON.
pub open spec fn all_escaped(s: Seq<char>) -> Seq<char>
    decreases s.len(),
{
    if s.len() == 0 {
        seq![]
    } else {
        all_escaped(s.drop_last()) + escaped(s.last())
    }
}

/// How a text is written in JSON.
pub open spec fn quoted(s: Seq<char>) -> Seq<char> {
    seq!['"'] + all_escaped(s) + seq!['"']
}

/// How an object with two texts is written in JSON, one member on each line.
pub open spec fn pretty_pair(a: Seq<char>, x: Seq<char>, b: Seq<char>, y: Seq<char>) -> Seq<char> {
    seq!['{', '\n', ' ', ' '] + quoted(a) + seq![':', ' '] + quoted(x) + seq![',', '\n', ' ', ' ']
        + quoted(b) + seq![':', ' '] + quoted(y) + seq!['\n', '}']
}

/// Whether a key stands before another one by its first character.
pub open spec fn in_order(a: Seq<char>, b: Seq<char>) -> bool {
    a.len() > 0 && b.len() > 0 && (a[0] as u32) < (b[0] as u32)
}

/// Whether a document is an object with a text.
pub open spec fn has_text(m: Option<Nodes>, key: Seq<char>, s: Seq<char>) -> bool {
    match m {
        Some(m) => member_text(m, key) == Some(s),
        None => false,
    }
}

/// `serde_json::to_string_pretty` of an object with two texts, whose keys are in
/// order: the object is written with one member on each line, and what is
/// written reads back as an object with the two texts.
#[verifier::external_body]
pub(crate) fn write_pair(a: &str, x: &str, b: &str, y: &str) -> (r: String)
    requires
        in_order(a@, b@),
    ensures
        r@ == pretty_pair(a@, x@, b@, y@),
        has_text(json_document(r@), a@, x@),
        has_text(json_document(r@), b@, y@),
{
    let mut m = serde_json::Map::new();
    m.insert(a.to_string(), x.into());
    m.insert(b.to_string(), y.into());
    serde_json::to_string_pretty(&serde_json::Value::Object(m)).unwrap()
}

// ---------------------------------------------------------------------------
// Laws
// ---------------------------------------------------------------------------

/// The member of an object is what stands behind its key, and there is one exactly
/// when the object has the key.
pub proof fn law_members_by_key(m: Nodes, key: Seq<char>, p: Seq<JsonStep>)
    ensures
        member(m, key) is Some <==> (m[Seq::empty()] matches JsonNode::Object(keys)
            && keys.contains(key)),
        member(m, key) matches Some(u) ==> {
            &&& u.contains_key(p) <==> m.contains_key(seq![JsonStep::Key(key)] + p)
            &&& u.contains_key(p) ==> u[p] == m[seq![JsonStep::Key(key)] + p]
        },
{
}

/// The item of a list is what stands behind its place, and there is one exactly
/// when the list is long enough.
pub proof fn law_items_by_place(m: Nodes, i: int, p: Seq<JsonStep>)
    ensures
        item(m, i) is Some <==> (m[Seq::empty()] matches JsonNode::List(n) && 0 <= i < n),
        item(m, i) matches Some(u) ==> {
            &&& u.contains_key(p) <==> m.contains_key(seq![JsonStep::Item(i)] + p)
            &&& u.contains_key(p) ==> u[p] == m[seq![JsonStep::Item(i)] + p]
        },
{
}

/// A value is read as what it is, and as nothing else.
pub proof fn law_values_by_kind(m: Nodes, low: int, high: int)
    ensures
        ({
            let top = m[Seq::<JsonStep>::empty()];
            &&& forall|s: Seq<char>|
                #[trigger] as_text(m) == Some(s) <==> top == JsonNode::Text(s)
            &&& forall|b: bool| #[trigger] as_bool(m) == Some(b) <==> top == JsonNode::Bool(b)
            &&& forall|n: int|
                #[trigger] as_whole(m, low, high) == Some(n) <==> top == JsonNode::Whole(n) && low
                    <= n <= high
            &&& forall|n: nat| #[trigger] as_length(m) == Some(n) <==> top == JsonNode::List(n)
            &&& as_text(m) is Some ==> top == JsonNode::Text(as_text(m)->0)
            &&& as_bool(m) is Some ==> top == JsonNode::Bool(as_bool(m)->0)
            &&& as_length(m) is Some ==> top == JsonNode::List(as_length(m)->0)
            &&& as_keys(m) is Some <==> top is Object
            &&& as_keys(m) matches Some(keys) ==> top == JsonNode::Object(keys)
            &&& as_number(m) == (match top {
                JsonNode::Whole(n) if 0 <= n <= 0xFFFF_FFFF_FFFF_FFFF => Some(
                    Number::Unsigned(n as u64),
                ),
                JsonNode::Whole(n) if -0x8000_0000_0000_0000 <= n < 0 => Some(
                    Number::Negative(n as i64),
                ),
                JsonNode::Fraction(bits) => Some(Number::Fraction(bits)),
                _ => None,
            })
        }),
{
}

/// The text of a member, and of a member of a member, is that which stands behind
/// the keys.
pub proof fn law_texts_by_keys(m: Nodes, outer: Seq<char>, key: Seq<char>, s: Seq<char>)
    ensures
        member_text(m, key) == Some(s) <==> {
            &&& m[Seq::empty()] matches JsonNode::Object(keys) && keys.contains(key)
            &&& under(m, JsonStep::Key(key))[Seq::empty()] == JsonNode::Text(s)
        },
        inner_text(m, outer, key) == Some(s) <==> {
            &&& m[Seq::empty()] matches JsonNode::Object(keys) && keys.contains(outer)
            &&& member_text(under(m, JsonStep::Key(outer)), key) == Some(s)
        },
        m.contains_key(seq![JsonStep::Key(key)]) ==> under(m, JsonStep::Key(key))[Seq::empty()]
            == m[seq![JsonStep::Key(key)]],
{
    assert(seq![JsonStep::Key(key)] + Seq::empty() =~= seq![JsonStep::Key(key)]);
}

/// The texts of a list are those of its items that are texts, in their order: an
/// item at the end that is a text comes last, and one that is not changes nothing.
pub proof fn law_texts_of_items(m: Nodes, n: nat, key: Seq<char>)
    ensures
        texts_before(m, 0).len() == 0,
        as_text(under(m, JsonStep::Item(n as int))) matches Some(s) ==> texts_before(m, n + 1)
            == texts_before(m, n).push(s),
        as_text(under(m, JsonStep::Item(n as int))) is None ==> texts_before(m, n + 1)
            == texts_before(m, n),
        m[Seq::empty()] == JsonNode::List(n) ==> texts_in(m) == texts_before(m, n),
        !(m[Seq::empty()] is List) ==> texts_in(m).len() == 0,
        member(m, key) is None ==> member_texts(m, key).len() == 0,
        member(m, key) matches Some(u) ==> member_texts(m, key) == texts_in(u),
{
}

/// In a text that is written as JSON, quotation marks, backslashes and control
/// characters are escaped, and all else is written as it is, in its order.
pub proof fn law_texts_are_escaped(s: Seq<char>, c: char)
    ensures
        all_escaped(Seq::empty()).len() == 0,
        all_escaped(s.push(c)) == all_escaped(s) + escaped(c),
        (c as u32) >= 32 && c != '"' && c != '\\' ==> escaped(c) == seq![c],
        escaped('"') == seq!['\\', '"'],
        escaped('\\') == seq!['\\', '\\'],
        escaped('\n') == seq!['\\', 'n'],
        escaped('\r') == seq!['\\', 'r'],
        escaped('\t') == seq!['\\', 't'],
        escaped('\u{8}') == seq!['\\', 'b'],
        escaped('\u{c}') == seq!['\\', 'f'],
        (c as u32) < 32 && escaped(c).len() > 2 ==> escaped(c).len() == 6 && escaped(c).take(4)
            == seq!['\\', 'u', '0', '0'] && escaped(c)[4] == hex(c as int / 16) && escaped(c)[5]
            == hex(c as int % 16),
        quoted(s) == seq!['"'] + all_escaped(s) + seq!['"'],
{
    if (c as u32) < 32 && escaped(c).len() > 2 {
        assert(escaped(c).take(4) =~= seq!['\\', 'u', '0', '0']);
    }
    assert(s.push(c).drop_last() =~= s);
}

} // verus!
