//! The game `nte`: its elements, characters and teleport points.

use vstd::prelude::*;
use crate::json::{
    as_keys, as_whole, get_i64, get_inner_text, get_item, get_keys, get_member, get_member_text,
    get_member_texts, inner_text, item, json_document, json_nodes, member, member_text,
    member_texts, parse_json, under, JsonStep, Nodes,
};
use crate::text::{
    begins_with, chars_of, copy_text, copy_texts, is_listed, rows, same, split, split_at, starts_with,
    stem, stem_of, string_of, text_of, texts,
};

verus! {

/// The title of the window of the game.
pub const WINDOW_TITLE: &'static str = "异环  ";

// ---------------------------------------------------------------------------
// Elements
// ---------------------------------------------------------------------------

/// The name of an element; none for a number that is no element.
pub open spec fn element_text(e: u8) -> Seq<char> {
    match e {
        1 => "光"@,
        2 => "灵"@,
        3 => "咒"@,
        4 => "暗"@,
        5 => "魂"@,
        6 => "相"@,
        _ => ""@,
    }
}

/// The number of the element with the given name.
pub open spec fn element_number(s: Seq<char>) -> Option<u8> {
    if s == "光"@ {
        Some(1)
    } else if s == "灵"@ {
        Some(2)
    } else if s == "咒"@ {
        Some(3)
    } else if s == "暗"@ {
        Some(4)
    } else if s == "魂"@ {
        Some(5)
    } else if s == "相"@ {
        Some(6)
    } else {
        None
    }
}

/// The number of the element with the given name.
pub fn parse_element(s: &str) -> (e: Option<u8>)
    ensures
        e == element_number(s@),
{
    if same(s, "光") {
        Some(1)
    } else if same(s, "灵") {
        Some(2)
    } else if same(s, "咒") {
        Some(3)
    } else if same(s, "暗") {
        Some(4)
    } else if same(s, "魂") {
        Some(5)
    } else if same(s, "相") {
        Some(6)
    } else {
        None
    }
}

/// The name of an element.
pub fn element_name(e: u8) -> (s: &'static str)
    ensures
        s@ == element_text(e),
{
    match e {
        1 => "光",
        2 => "灵",
        3 => "咒",
        4 => "暗",
        5 => "魂",
        6 => "相",
        _ => "",
    }
}

/// An element is known by its name.
pub proof fn law_element_by_name(e: u8)
    requires
        1 <= e <= 6,
    ensures
        element_number(element_text(e)) == Some(e),
{
    reveal_strlit("光");
    reveal_strlit("灵");
    reveal_strlit("咒");
    reveal_strlit("暗");
    reveal_strlit("魂");
    reveal_strlit("相");
    assert("光"@[0] == '光');
    assert("灵"@[0] == '灵');
    assert("咒"@[0] == '咒');
    assert("暗"@[0] == '暗');
    assert("魂"@[0] == '魂');
    assert("相"@[0] == '相');
}

/// A name that is known is the name of the element that it gives.
pub proof fn law_name_of_element(s: Seq<char>)
    requires
        element_number(s) is Some,
    ensures
        element_text(element_number(s)->0) == s,
        1 <= element_number(s)->0 <= 6,
{
}

// ---------------------------------------------------------------------------
// Characters
// ---------------------------------------------------------------------------

/// A character of the game.
#[derive(Debug)]
pub struct Character {
    pub name: String,
    pub asset_name: String,
    pub tag: Vec<String>,
    pub element: u8,
    pub debug_info: Option<String>,
}

/// A character as mathematical values.
pub struct CharacterView {
    pub name: Seq<char>,
    pub asset_name: Seq<char>,
    pub tag: Seq<Seq<char>>,
    pub element: u8,
    pub debug_info: Option<Seq<char>>,
}

impl View for Character {
    type V = CharacterView;

    open spec fn view(&self) -> CharacterView {
        CharacterView {
            name: self.name@,
            asset_name: self.asset_name@,
            tag: texts(self.tag@),
            element: self.element,
            debug_info: text_of(self.debug_info),
        }
    }
}

/// The character that stands for nobody.
pub open spec fn nobody() -> CharacterView {
    CharacterView {
        name: seq![],
        asset_name: seq![],
        tag: seq![],
        element: 0,
        debug_info: None,
    }
}

impl Default for Character {
    fn default() -> (c: Self)
        ensures
            c@ == nobody(),
    {
        let c = Character {
            name: String::new(),
            asset_name: String::new(),
            tag: Vec::new(),
            element: 0,
            debug_info: None,
        };
        assert(c.name@ =~= seq![]);
        assert(c.asset_name@ =~= seq![]);
        assert(texts(c.tag@) =~= seq![]);
        c
    }
}

impl Clone for Character {
    fn clone(&self) -> (c: Self)
        ensures
            c@ == self@,
    {
        Character {
            name: self.name.clone(),
            asset_name: self.asset_name.clone(),
            tag: copy_texts(&self.tag),
            element: self.element,
            debug_info: copy_text(&self.debug_info),
        }
    }
}

/// The characters of a list.
pub open spec fn people(list: Seq<Character>) -> Seq<CharacterView> {
    list.map_values(|c: Character| c@)
}

/// What the data file says of a character.
pub struct CharacterRow {
    pub asset_path: Option<String>,
    pub name: Option<String>,
    pub element: Option<String>,
    pub tags: Vec<String>,
}

/// What the data file says of a character, as mathematical values.
pub struct RowView {
    pub asset_path: Option<Seq<char>>,
    pub name: Option<Seq<char>>,
    pub element: Option<Seq<char>>,
    pub tags: Seq<Seq<char>>,
}

impl View for CharacterRow {
    type V = RowView;

    open spec fn view(&self) -> RowView {
        RowView {
            asset_path: text_of(self.asset_path),
            name: text_of(self.name),
            element: text_of(self.element),
            tags: texts(self.tags@),
        }
    }
}

/// The rows of a list.
pub open spec fn row_views(list: Seq<CharacterRow>) -> Seq<RowView> {
    list.map_values(|r: CharacterRow| r@)
}

/// Why the characters could not be read.
#[derive(Debug)]
pub enum CharacterError {
    NotJson,
    NoRows,
    NoAsset,
    NoName,
    NoElement,
    UnknownElement { element: String, name: String },
}

/// Why the characters could not be read, as mathematical values.
pub enum CharacterFault {
    NotJson,
    NoRows,
    NoAsset,
    NoName,
    NoElement,
    UnknownElement { element: Seq<char>, name: Seq<char> },
}

impl View for CharacterError {
    type V = CharacterFault;

    open spec fn view(&self) -> CharacterFault {
        match self {
            CharacterError::NotJson => CharacterFault::NotJson,
            CharacterError::NoRows => CharacterFault::NoRows,
            CharacterError::NoAsset => CharacterFault::NoAsset,
            CharacterError::NoName => CharacterFault::NoName,
            CharacterError::NoElement => CharacterFault::NoElement,
            CharacterError::UnknownElement { element, name } => CharacterFault::UnknownElement {
                element: element@,
                name: name@,
            },
        }
    }
}

impl CharacterError {
    /// The message that the user reads.
    pub open spec fn text(self) -> Seq<char> {
        match self@ {
            CharacterFault::NotJson => "解析 nte/DataTable/Character/DT_Character.json 失败"@,
            CharacterFault::NoRows => "DT_Character.json 缺少 Rows"@,
            CharacterFault::NoAsset => "缺少 ItemIconBig.AssetPathName"@,
            CharacterFault::NoName => "缺少 ItemName.SourceString"@,
            CharacterFault::NoElement => "缺少 ElementData.CharacterElementType"@,
            CharacterFault::UnknownElement { element, name } => "未知元素类型："@ + element
                + "（角色 "@ + name + "）"@,
        }
    }

    /// The message that the user reads.
    pub fn message(&self) -> (s: String)
        ensures
            s@ == self.text(),
    {
        match self {
            CharacterError::NotJson => "解析 nte/DataTable/Character/DT_Character.json 失败".to_owned(),
            CharacterError::NoRows => "DT_Character.json 缺少 Rows".to_owned(),
            CharacterError::NoAsset => "缺少 ItemIconBig.AssetPathName".to_owned(),
            CharacterError::NoName => "缺少 ItemName.SourceString".to_owned(),
            CharacterError::NoElement => "缺少 ElementData.CharacterElementType".to_owned(),
            CharacterError::UnknownElement { element, name } => {
                let mut s: String = "未知元素类型：".to_owned();
                s.append(element.as_str());
                s.append("（角色 ");
                s.append(name.as_str());
                s.append("）");
                s
            },
        }
    }
}

/// What the characters are, or why they cannot be read.
pub type People = Result<Seq<CharacterView>, CharacterFault>;

/// The name of the picture at a path: what stands behind the last slash.
pub open spec fn asset_of(path: Seq<char>) -> Seq<char> {
    split(path, '/').last()
}

/// The characters before the others, unless those cannot be read.
pub open spec fn before(first: Seq<CharacterView>, rest: People) -> People {
    match rest {
        Ok(list) => Ok(first + list),
        Err(e) => Err(e),
    }
}

/// The characters in a list of rows. A row whose picture was met before, in
/// `seen` or in an earlier row, is passed over.
pub open spec fn characters(list: Seq<RowView>, seen: Seq<Seq<char>>) -> People
    decreases list.len(),
{
    if list.len() == 0 {
        Ok(seq![])
    } else {
        let r = list[0];
        match r.asset_path {
            None => Err(CharacterFault::NoAsset),
            Some(path) => {
                let asset = asset_of(path);
                if seen.contains(asset) {
                    characters(list.drop_first(), seen)
                } else if r.name is None {
                    Err(CharacterFault::NoName)
                } else if r.element is None {
                    Err(CharacterFault::NoElement)
                } else {
                    match element_number(r.element->0) {
                        None => Err(
                            CharacterFault::UnknownElement {
                                element: r.element->0,
                                name: r.name->0,
                            },
                        ),
                        Some(e) => before(
                            seq![
                                CharacterView {
                                    name: r.name->0,
                                    asset_name: asset,
                                    tag: r.tags,
                                    element: e,
                                    debug_info: None,
                                },
                            ],
                            characters(list.drop_first(), seen.push(asset)),
                        ),
                    }
                }
            },
        }
    }
}

proof fn lemma_split_not_empty(s: Seq<char>, sep: char)
    ensures
        split(s, sep).len() > 0,
    decreases s.len(),
{
}

/// The name of the picture at a path.
pub fn asset_name(path: &str) -> (s: String)
    ensures
        s@ == asset_of(path@),
{
    let parts: Vec<Vec<char>> = split_at(&chars_of(path), '/');
    proof {
        lemma_split_not_empty(path@, '/');
        assert(rows(parts@).len() == parts@.len());
        assert(rows(parts@).last() == parts@.last()@);
    }
    string_of(&parts[parts.len() - 1])
}

/// What a reading of the characters means.
pub open spec fn outcome(r: Result<Vec<Character>, CharacterError>) -> People {
    match r {
        Ok(list) => Ok(people(list@)),
        Err(e) => Err(e@),
    }
}

/// The characters in a list of rows.
pub fn characters_of(list: &Vec<CharacterRow>) -> (r: Result<Vec<Character>, CharacterError>)
    ensures
        outcome(r) == characters(row_views(list@), seq![]),
{
    let mut seen: Vec<String> = Vec::new();
    let mut out: Vec<Character> = Vec::new();
    let mut i: usize = 0;
    let ghost all = row_views(list@);
    assert(all.skip(0) =~= all);
    assert(texts(seen@) =~= seq![]);
    assert(people(out@) =~= seq![]);
    proof {
        lemma_before_nothing(characters(all, seq![]));
    }
    while i < list.len()
        invariant
            i <= list@.len(),
            all == row_views(list@),
            before(people(out@), characters(all.skip(i as int), texts(seen@))) == characters(
                all,
                seq![],
            ),
        decreases list@.len() - i,
    {
        let row: &CharacterRow = &list[i];
        let ghost rest = all.skip(i as int);
        let ghost had = people(out@);
        let ghost met = texts(seen@);
        proof {
            assert(rest[0] == row@);
            assert(rest.drop_first() =~= all.skip(i + 1));
        }
        let path: &String = match &row.asset_path {
            Some(path) => path,
            None => {
                return Err(CharacterError::NoAsset);
            },
        };
        let asset: String = asset_name(path.as_str());
        i += 1;
        if is_listed(&seen, asset.as_str()) {
            continue;
        }
        let name: &String = match &row.name {
            Some(name) => name,
            None => {
                return Err(CharacterError::NoName);
            },
        };
        let element: &String = match &row.element {
            Some(element) => element,
            None => {
                return Err(CharacterError::NoElement);
            },
        };
        match parse_element(element.as_str()) {
            None => {
                return Err(
                    CharacterError::UnknownElement { element: element.clone(), name: name.clone() },
                );
            },
            Some(e) => {
                seen.push(asset.clone());
                let c = Character {
                    name: name.clone(),
                    asset_name: asset,
                    tag: copy_texts(&row.tags),
                    element: e,
                    debug_info: None,
                };
                let ghost view = c@;
                out.push(c);
                proof {
                    assert(texts(seen@) =~= met.push(asset@));
                    assert(people(out@) =~= had.push(view));
                    let others = characters(all.skip(i as int), texts(seen@));
                    lemma_before_one(had, view, others);
                }
            },
        }
    }
    proof {
        assert(all.skip(i as int) =~= seq![]);
        assert(people(out@) + seq![] =~= people(out@));
    }
    Ok(out)
}

proof fn lemma_before_nothing(rest: People)
    ensures
        before(seq![], rest) == rest,
{
    match rest {
        Ok(list) => {
            assert(Seq::<CharacterView>::empty() + list =~= list);
        },
        Err(_) => {},
    }
}

proof fn lemma_before_one(had: Seq<CharacterView>, c: CharacterView, rest: People)
    ensures
        before(had.push(c), rest) == before(had, before(seq![c], rest)),
{
    match rest {
        Ok(list) => {
            assert(had.push(c) + list =~= had + (seq![c] + list));
        },
        Err(_) => {},
    }
}

/// No two characters have the same picture.
pub proof fn law_pictures_differ(list: Seq<RowView>, seen: Seq<Seq<char>>)
    requires
        characters(list, seen) is Ok,
    ensures
        forall|i: int|
            0 <= i < characters(list, seen)->Ok_0.len() ==> !seen.contains(
                #[trigger] characters(list, seen)->Ok_0[i].asset_name,
            ),
        forall|i: int, j: int|
            0 <= i < j < characters(list, seen)->Ok_0.len()
                ==> #[trigger] characters(list, seen)->Ok_0[i].asset_name
                != #[trigger] characters(list, seen)->Ok_0[j].asset_name,
    decreases list.len(),
{
    if list.len() > 0 {
        let asset = asset_of(list[0].asset_path->0);
        if seen.contains(asset) {
            law_pictures_differ(list.drop_first(), seen);
        } else {
            let rest = characters(list.drop_first(), seen.push(asset));
            law_pictures_differ(list.drop_first(), seen.push(asset));
            let all = characters(list, seen)->Ok_0;
            let others = rest->Ok_0;
            assert(seen.push(asset)[seen.len() as int] == asset);
            assert forall|i: int| 1 <= i < all.len() implies all[i] == others[i - 1] && all[i].asset_name
                != asset && !seen.contains(#[trigger] all[i].asset_name) by {
                let n = others[i - 1].asset_name;
                if seen.contains(n) {
                    let k = choose|k: int| 0 <= k < seen.len() && seen[k] == n;
                    assert(seen.push(asset)[k] == n);
                }
            }
            assert forall|i: int, j: int| 0 <= i < j < all.len() implies #[trigger] all[i].asset_name
                != #[trigger] all[j].asset_name by {
                if i > 0 {
                    assert(all[i] == others[i - 1]);
                    assert(all[j] == others[j - 1]);
                    assert(others[i - 1].asset_name != others[j - 1].asset_name);
                } else {
                    assert(all[j].asset_name != asset);
                }
            }
        }
    }
}

/// What a JSON document says of a character.
pub open spec fn row_in(m: Nodes) -> RowView {
    RowView {
        asset_path: inner_text(m, "ItemIconBig"@, "AssetPathName"@),
        name: inner_text(m, "ItemName"@, "SourceString"@),
        element: inner_text(m, "ElementData"@, "CharacterElementType"@),
        tags: member_texts(m, "PlayerViewTagArray"@),
    }
}

/// The rows of an object, in the order of its keys.
pub open spec fn rows_of(m: Nodes, keys: Seq<Seq<char>>) -> Seq<RowView> {
    keys.map_values(|key: Seq<char>| row_in(under(m, JsonStep::Key(key))))
}

/// The rows of a document, if it has rows: the members of the object `Rows` in
/// the first item of its list.
pub open spec fn rows_in(m: Nodes) -> Option<Seq<RowView>> {
    match item(m, 0) {
        None => None,
        Some(first) => match member(first, "Rows"@) {
            None => None,
            Some(all) => match as_keys(all) {
                None => None,
                Some(keys) => Some(rows_of(all, keys)),
            },
        },
    }
}

/// The characters in a data file.
pub open spec fn characters_in(text: Seq<char>) -> People {
    match json_document(text) {
        None => Err(CharacterFault::NotJson),
        Some(m) => match rows_in(m) {
            None => Err(CharacterFault::NoRows),
            Some(list) => characters(list, seq![]),
        },
    }
}

fn read_row(v: &serde_json::Value) -> (r: CharacterRow)
    ensures
        r@ == row_in(json_nodes(*v)),
{
    CharacterRow {
        asset_path: get_inner_text(v, "ItemIconBig", "AssetPathName"),
        name: get_inner_text(v, "ItemName", "SourceString"),
        element: get_inner_text(v, "ElementData", "CharacterElementType"),
        tags: get_member_texts(v, "PlayerViewTagArray"),
    }
}

/// The rows of a JSON value, if it has rows.
pub fn character_rows(v: &serde_json::Value) -> (r: Option<Vec<CharacterRow>>)
    ensures
        rows_in(json_nodes(*v)) == match r {
            Some(list) => Some(row_views(list@)),
            None => None,
        },
{
    let first: &serde_json::Value = match get_item(v, 0) {
        Some(first) => first,
        None => {
            return None;
        },
    };
    let all: &serde_json::Value = match get_member(first, "Rows") {
        Some(all) => all,
        None => {
            return None;
        },
    };
    let keys: Vec<String> = match get_keys(all) {
        Some(keys) => keys,
        None => {
            return None;
        },
    };
    let ghost m = json_nodes(*all);
    let ghost names = texts(keys@);
    let mut list: Vec<CharacterRow> = Vec::new();
    let mut i: usize = 0;
    assert(row_views(list@) =~= rows_of(m, names.take(0)));
    while i < keys.len()
        invariant
            i <= keys@.len(),
            m == json_nodes(*all),
            names == texts(keys@),
            as_keys(m) == Some(names),
            row_views(list@) == rows_of(m, names.take(i as int)),
        decreases keys@.len() - i,
    {
        let ghost had = row_views(list@);
        assert(names[i as int] == keys@[i as int]@);
        assert(names.contains(keys@[i as int]@));
        match get_member(all, keys[i].as_str()) {
            Some(info) => {
                let row: CharacterRow = read_row(info);
                list.push(row);
                proof {
                    assert(row_views(list@) =~= had.push(row@));
                    assert(rows_of(m, names.take(i + 1)) =~= rows_of(m, names.take(i as int)).push(
                        row@,
                    ));
                }
            },
            None => {
                assert(false);
            },
        }
        i += 1;
    }
    assert(names.take(i as int) =~= names);
    Some(list)
}

/// Reads the characters from the text of the data file.
pub fn load_characters(text: &str) -> (r: Result<Vec<Character>, CharacterError>)
    ensures
        outcome(r) == characters_in(text@),
{
    match parse_json(text) {
        Err(_) => Err(CharacterError::NotJson),
        Ok(v) => match character_rows(&v) {
            None => Err(CharacterError::NoRows),
            Some(list) => characters_of(&list),
        },
    }
}

// ---------------------------------------------------------------------------
// Portraits
// ---------------------------------------------------------------------------

/// The regions of the frame with the portraits of the team, as left, top, width
/// and height.
pub fn avatar_rois() -> (r: [(u32, u32, u32, u32); 4])
    ensures
        r@ == seq![
            (1162u32, 133u32, 64u32, 64u32),
            (1162u32, 221u32, 64u32, 64u32),
            (1162u32, 309u32, 64u32, 64u32),
            (1162u32, 397u32, 64u32, 64u32),
        ],
{
    let r: [(u32, u32, u32, u32); 4] = [
        (1162, 133, 64, 64),
        (1162, 221, 64, 64),
        (1162, 309, 64, 64),
        (1162, 397, 64, 64),
    ];
    assert(r@ =~= seq![
        (1162u32, 133u32, 64u32, 64u32),
        (1162u32, 221u32, 64u32, 64u32),
        (1162u32, 309u32, 64u32, 64u32),
        (1162u32, 397u32, 64u32, 64u32),
    ]);
    r
}

/// Whether a picture file shows a character: its name begins with the name of
/// the character's picture.
pub open spec fn shows(stem: Seq<char>, c: CharacterView) -> bool {
    starts_with(stem, c.asset_name)
}

/// Whether the first character that a picture file shows stands at place `i`.
pub open spec fn first_shown(list: Seq<CharacterView>, stem: Seq<char>, i: int) -> bool {
    &&& 0 <= i < list.len()
    &&& shows(stem, list[i])
    &&& forall|k: int| 0 <= k < i ==> !shows(stem, #[trigger] list[k])
}

/// Whether a picture file shows no character.
pub open spec fn shows_nobody(list: Seq<CharacterView>, stem: Seq<char>) -> bool {
    forall|k: int| 0 <= k < list.len() ==> !shows(stem, #[trigger] list[k])
}

/// The first character that a picture file shows, if it shows one.
pub fn shown_character(list: &Vec<Character>, stem: &str) -> (r: Option<usize>)
    ensures
        match r {
            Some(i) => first_shown(people(list@), stem@, i as int),
            None => shows_nobody(people(list@), stem@),
        },
{
    let s: Vec<char> = chars_of(stem);
    let mut i: usize = 0;
    while i < list.len()
        invariant
            i <= list@.len(),
            s@ == stem@,
            forall|k: int| 0 <= k < i ==> !shows(stem@, #[trigger] people(list@)[k]),
        decreases list@.len() - i,
    {
        assert(people(list@)[i as int] == list@[i as int]@);
        if begins_with(&s, &chars_of(list[i].asset_name.as_str())) {
            return Some(i);
        }
        i += 1;
    }
    None
}

/// The characters that portraits are compared with.
pub struct AvatarMatcher {
    pub list: Vec<Character>,
}

/// Why there are no portraits to compare with.
#[derive(Debug, Clone, Copy, PartialEq, Eq, Structural)]
pub enum AvatarError {
    /// There is no picture file.
    NoFiles,
    /// No picture file shows a character.
    NoMatch,
}

/// The directory with the pictures of the characters.
pub const AVATAR_DIR: &'static str = "nte/UI_Icon/AvatarImage/CustomAvatar/256";

impl AvatarError {
    /// The message that the user reads.
    pub open spec fn text(self) -> Seq<char> {
        match self {
            AvatarError::NoFiles => "未在 "@ + AVATAR_DIR@ + " 找到任何头像素材"@,
            AvatarError::NoMatch => "未在 "@ + AVATAR_DIR@ + " 找到匹配角色的头像素材"@,
        }
    }

    /// The message that the user reads.
    pub fn message(&self) -> (s: String)
        ensures
            s@ == self.text(),
    {
        let mut s: String = "未在 ".to_owned();
        s.append(AVATAR_DIR);
        match self {
            AvatarError::NoFiles => s.append(" 找到任何头像素材"),
            AvatarError::NoMatch => s.append(" 找到匹配角色的头像素材"),
        }
        s
    }
}

/// The name of a picture, if a file is one.
pub open spec fn picture_of(file: Seq<char>) -> Option<Seq<char>> {
    stem(file, "png"@)
}

/// Whether the file at place `f` is a picture whose first character stands at
/// place `c`.
pub open spec fn pictures(
    files: Seq<Seq<char>>,
    list: Seq<CharacterView>,
    f: int,
    c: int,
) -> bool {
    picture_of(files[f]) matches Some(s) && first_shown(list, s, c)
}

/// Whether `pairs` are all the pictures among the first `n` files that show
/// somebody, in order, each with the first character that it shows.
pub open spec fn lists_pictures(
    files: Seq<Seq<char>>,
    list: Seq<CharacterView>,
    n: int,
    pairs: Seq<(usize, usize)>,
) -> bool {
    &&& forall|k: int|
        0 <= k < pairs.len() ==> (#[trigger] pairs[k]).0 < n && pictures(
            files,
            list,
            pairs[k].0 as int,
            pairs[k].1 as int,
        )
    &&& forall|k: int, l: int| 0 <= k < l < pairs.len() ==> (#[trigger] pairs[k]).0 < (#[trigger] pairs[l]).0
    &&& forall|f: int|
        0 <= f < n && !is_listed_file(pairs, f) ==> match picture_of(#[trigger] files[f]) {
            Some(s) => shows_nobody(list, s),
            None => true,
        }
}

/// Whether a file is in a list of pairs.
pub open spec fn is_listed_file(pairs: Seq<(usize, usize)>, f: int) -> bool {
    exists|k: int| 0 <= k < pairs.len() && (#[trigger] pairs[k]).0 == f
}

/// Whether there is a picture among the first `n` files.
pub open spec fn has_picture(files: Seq<Seq<char>>, n: int) -> bool {
    exists|f: int| 0 <= f < n && picture_of(#[trigger] files[f]) is Some
}

/// The pictures among files that show somebody, each with the first character
/// that it shows.
pub fn find_pictures(list: &Vec<Character>, files: &Vec<String>) -> (r: Result<
    Vec<(usize, usize)>,
    AvatarError,
>)
    ensures
        match r {
            Ok(pairs) => pairs@.len() > 0 && lists_pictures(
                texts(files@),
                people(list@),
                files@.len() as int,
                pairs@,
            ),
            Err(AvatarError::NoFiles) => !has_picture(texts(files@), files@.len() as int),
            Err(AvatarError::NoMatch) => {
                &&& has_picture(texts(files@), files@.len() as int)
                &&& lists_pictures(texts(files@), people(list@), files@.len() as int, seq![])
            },
        },
{
    let ghost names = texts(files@);
    let ghost all = people(list@);
    let mut pairs: Vec<(usize, usize)> = Vec::new();
    let mut found: bool = false;
    let mut i: usize = 0;
    while i < files.len()
        invariant
            i <= files@.len(),
            names == texts(files@),
            all == people(list@),
            found == has_picture(names, i as int),
            lists_pictures(names, all, i as int, pairs@),
        decreases files@.len() - i,
    {
        let ghost had = pairs@;
        assert(names[i as int] == files@[i as int]@);
        let picture: Option<String> = stem_of(files[i].as_str(), "png");
        assert(picture is Some ==> picture_of(names[i as int]) is Some);
        if picture.is_some() {
            found = true;
        }
        let mut place: Option<usize> = None;
        match &picture {
            Some(s) => {
                place = shown_character(list, s.as_str());
            },
            None => {},
        }
        match place {
            Some(c) => {
                pairs.push((i, c));
                assert(pairs@[had.len() as int] == (i, c));
                assert(pictures(names, all, i as int, c as int));
            },
            None => {},
        }
        proof {
            assert forall|f: int|
                0 <= f < i + 1 && !is_listed_file(pairs@, f) implies match picture_of(
                #[trigger] names[f],
            ) {
                Some(s) => shows_nobody(all, s),
                None => true,
            } by {
                if f < i {
                    if is_listed_file(had, f) {
                        let k = choose|k: int| 0 <= k < had.len() && (#[trigger] had[k]).0 == f;
                        assert(pairs@[k].0 == f);
                    }
                } else if place is Some {
                    assert(pairs@[had.len() as int].0 == i);
                }
            }
            assert forall|k: int| 0 <= k < pairs@.len() implies (#[trigger] pairs@[k]).0 < i + 1
                && pictures(names, all, pairs@[k].0 as int, pairs@[k].1 as int) by {
                if k < had.len() {
                    assert(pairs@[k] == had[k]);
                }
            }
            if has_picture(names, i + 1) && !has_picture(names, i as int) {
                let f = choose|f: int|
                    0 <= f < i + 1 && picture_of(#[trigger] names[f]) is Some;
                assert(f == i);
            }
            if has_picture(names, i as int) {
                let f = choose|f: int|
                    0 <= f < i && picture_of(#[trigger] names[f]) is Some;
                assert(picture_of(names[f]) is Some);
            }
        }
        i += 1;
    }
    if !found {
        return Err(AvatarError::NoFiles);
    }
    if pairs.len() == 0 {
        assert(pairs@ =~= seq![]);
        return Err(AvatarError::NoMatch);
    }
    Ok(pairs)
}

impl AvatarMatcher {
    /// Takes the characters, with the pictures among files that show them: the
    /// places of the pictures and of their characters.
    pub fn load(list: Vec<Character>, files: &Vec<String>) -> (r: Result<
        (Self, Vec<(usize, usize)>),
        AvatarError,
    >)
        ensures
            match r {
                Ok((m, pairs)) => {
                    &&& m.list == list
                    &&& pairs@.len() > 0
                    &&& lists_pictures(
                        texts(files@),
                        people(list@),
                        files@.len() as int,
                        pairs@,
                    )
                },
                Err(AvatarError::NoFiles) => !has_picture(texts(files@), files@.len() as int),
                Err(AvatarError::NoMatch) => {
                    &&& has_picture(texts(files@), files@.len() as int)
                    &&& lists_pictures(texts(files@), people(list@), files@.len() as int, seq![])
                },
            },
    {
        match find_pictures(&list, files) {
            Ok(pairs) => Ok((AvatarMatcher { list }, pairs)),
            Err(e) => Err(e),
        }
    }

    /// The last character with the given name, if there is one.
    pub fn character(&self, name: &str) -> (r: Option<&Character>)
        ensures
            match r {
                Some(c) => exists|i: int|
                    {
                        &&& 0 <= i < self.list@.len()
                        &&& (#[trigger] self.list@[i]) == *c
                        &&& c@.name == name@
                        &&& forall|k: int|
                            i < k < self.list@.len() ==> (#[trigger] self.list@[k])@.name != name@
                    },
                None => forall|k: int|
                    0 <= k < self.list@.len() ==> (#[trigger] self.list@[k])@.name != name@,
            },
    {
        let mut i: usize = self.list.len();
        while i > 0
            invariant
                i <= self.list@.len(),
                forall|k: int|
                    i <= k < self.list@.len() ==> (#[trigger] self.list@[k])@.name != name@,
            decreases i,
        {
            i -= 1;
            if same(self.list[i].name.as_str(), name) {
                assert(self.list@[i as int]@.name == name@);
                return Some(&self.list[i]);
            }
        }
        None
    }

    /// The member of the team at a portrait: nobody if the portrait is not in
    /// the frame; else the character whose name was found, or nobody, with what
    /// the comparison says of itself.
    pub fn team_member(&self, report: Option<(Option<&str>, &str)>) -> (c: Character)
        ensures
            match report {
                None => c@ == nobody(),
                Some((verdict, debug)) => {
                    &&& c@.debug_info == Some(debug@)
                    &&& is_member(people(self.list@), verdict, c@)
                },
            },
    {
        match report {
            None => Character::default(),
            Some((verdict, debug)) => {
                let mut c: Character = match verdict {
                    Some(name) => match self.character(name) {
                        Some(found) => {
                            proof {
                                let i = choose|i: int|
                                    {
                                        &&& 0 <= i < self.list@.len()
                                        &&& (#[trigger] self.list@[i]) == *found
                                        &&& found@.name == name@
                                        &&& forall|k: int|
                                            i < k < self.list@.len() ==> (
                                            #[trigger] self.list@[k])@.name != name@
                                    };
                                let p = people(self.list@);
                                assert(p[i] == found@);
                                assert forall|k: int| i < k < p.len() implies (
                                #[trigger] p[k]).name != name@ by {
                                    assert(p[k] == self.list@[k]@);
                                }
                                assert(last_named(p, name@, i));
                            }
                            found.clone()
                        },
                        None => {
                            proof {
                                let p = people(self.list@);
                                assert forall|k: int| 0 <= k < p.len() implies (
                                #[trigger] p[k]).name != name@ by {
                                    assert(p[k] == self.list@[k]@);
                                }
                            }
                            Character::default()
                        },
                    },
                    None => Character::default(),
                };
                c.debug_info = Some(debug.to_owned());
                c
            },
        }
    }
}

/// Whether the last character with a name stands at place `i`.
pub open spec fn last_named(list: Seq<CharacterView>, name: Seq<char>, i: int) -> bool {
    &&& 0 <= i < list.len()
    &&& list[i].name == name
    &&& forall|k: int| i < k < list.len() ==> (#[trigger] list[k]).name != name
}

/// Whether a character is, but for its debug text, the last of a list that has
/// the name that was found, or nobody if there is none or no name was found.
pub open spec fn is_member(
    list: Seq<CharacterView>,
    verdict: Option<&str>,
    c: CharacterView,
) -> bool {
    let bare = CharacterView { debug_info: None, ..c };
    match verdict {
        None => bare == nobody(),
        Some(name) => {
            ||| exists|i: int|
                #[trigger] last_named(list, name@, i) && CharacterView {
                    debug_info: None,
                    ..list[i]
                } == bare
            ||| bare == nobody() && forall|k: int|
                0 <= k < list.len() ==> (#[trigger] list[k]).name != name@
        },
    }
}

// ---------------------------------------------------------------------------
// Teleport points
// ---------------------------------------------------------------------------

/// A point that can be teleported to: its area, the kind of its list and its
/// place there.
#[derive(Debug)]
pub struct TpPoint {
    pub area: String,
    pub kind: i64,
    pub index: i64,
}

/// The teleport points with their names, and the areas in the order in which
/// the map walks them.
pub struct TpData {
    pub areas: Vec<String>,
    pub points: Vec<(String, TpPoint)>,
}

/// A teleport point as mathematical values.
pub struct PointView {
    pub area: Seq<char>,
    pub kind: i64,
    pub index: i64,
}

impl View for TpPoint {
    type V = PointView;

    open spec fn view(&self) -> PointView {
        PointView { area: self.area@, kind: self.kind, index: self.index }
    }
}

/// The names and points of a list.
pub open spec fn named_points(list: Seq<(String, TpPoint)>) -> Seq<(Seq<char>, PointView)> {
    list.map_values(|p: (String, TpPoint)| (p.0@, p.1@))
}

/// The names of the points.
pub open spec fn point_names(list: Seq<(String, TpPoint)>) -> Seq<Seq<char>> {
    list.map_values(|p: (String, TpPoint)| p.0@)
}

/// An integer member, or zero.
pub open spec fn member_number(m: Nodes, key: Seq<char>) -> int {
    match member(m, key) {
        Some(m) => match as_whole(m, i64::MIN as int, i64::MAX as int) {
            Some(n) => n,
            None => 0,
        },
        None => 0,
    }
}

/// The point that a JSON document describes.
pub open spec fn point_in(m: Nodes) -> PointView {
    PointView {
        area: match member_text(m, "area"@) {
            Some(s) => s,
            None => seq![],
        },
        kind: member_number(m, "type"@) as i64,
        index: member_number(m, "index"@) as i64,
    }
}

/// The points of an object, in the order of its keys.
pub open spec fn points_of(m: Nodes, keys: Seq<Seq<char>>) -> Seq<(Seq<char>, PointView)> {
    keys.map_values(|key: Seq<char>| (key, point_in(under(m, JsonStep::Key(key)))))
}

/// The points of a document: none if it has no object of points.
pub open spec fn points_in(m: Nodes) -> Seq<(Seq<char>, PointView)> {
    match member(m, "tp"@) {
        None => seq![],
        Some(all) => match as_keys(all) {
            None => seq![],
            Some(keys) => points_of(all, keys),
        },
    }
}

fn read_number(v: &serde_json::Value, key: &str) -> (n: i64)
    ensures
        n == member_number(json_nodes(*v), key@),
{
    match get_member(v, key) {
        Some(x) => match get_i64(x) {
            Some(n) => n,
            None => 0,
        },
        None => 0,
    }
}

fn read_point(v: &serde_json::Value) -> (p: TpPoint)
    ensures
        p@ == point_in(json_nodes(*v)),
{
    let area: String = match get_member_text(v, "area") {
        Some(s) => s,
        None => String::new(),
    };
    TpPoint { area, kind: read_number(v, "type"), index: read_number(v, "index") }
}

impl TpData {
    /// No two points have the same name.
    pub open spec fn wf(self) -> bool {
        point_names(self.points@).no_duplicates()
    }

    /// The areas and points of a JSON value.
    pub fn from_json(v: &serde_json::Value) -> (r: Self)
        ensures
            r.wf(),
            texts(r.areas@) == member_texts(json_nodes(*v), "areas"@),
            named_points(r.points@) == points_in(json_nodes(*v)),
    {
        let areas: Vec<String> = get_member_texts(v, "areas");
        let mut points: Vec<(String, TpPoint)> = Vec::new();
        assert(named_points(points@) =~= seq![]);
        let all: &serde_json::Value = match get_member(v, "tp") {
            Some(all) => all,
            None => {
                return TpData { areas, points };
            },
        };
        let keys: Vec<String> = match get_keys(all) {
            Some(keys) => keys,
            None => {
                return TpData { areas, points };
            },
        };
        let ghost m = json_nodes(*all);
        let ghost names = texts(keys@);
        let mut i: usize = 0;
        assert(named_points(points@) =~= points_of(m, names.take(0)));
        while i < keys.len()
            invariant
                i <= keys@.len(),
                m == json_nodes(*all),
                names == texts(keys@),
                as_keys(m) == Some(names),
                named_points(points@) == points_of(m, names.take(i as int)),
            decreases keys@.len() - i,
        {
            let ghost had = named_points(points@);
            assert(names[i as int] == keys@[i as int]@);
            assert(names.contains(keys@[i as int]@));
            match get_member(all, keys[i].as_str()) {
                Some(info) => {
                    let p: TpPoint = read_point(info);
                    let ghost pv = p@;
                    points.push((keys[i].clone(), p));
                    proof {
                        assert(named_points(points@) =~= had.push((names[i as int], pv)));
                        assert(points_of(m, names.take(i + 1)) =~= points_of(
                            m,
                            names.take(i as int),
                        ).push((names[i as int], pv)));
                    }
                },
                None => {
                    assert(false);
                },
            }
            i += 1;
        }
        assert(names.take(i as int) =~= names);
        assert(point_names(points@) =~= names) by {
            assert forall|k: int| 0 <= k < points@.len() implies (#[trigger] point_names(
                points@,
            )[k]) == names[k] by {
                assert(named_points(points@)[k].0 == points_of(m, names)[k].0);
            }
            assert(named_points(points@).len() == points_of(m, names).len());
        }
        TpData { areas, points }
    }

    /// The point with the given name, if there is one.
    pub fn find(&self, name: &str) -> (r: Option<&TpPoint>)
        requires
            self.wf(),
        ensures
            match r {
                Some(p) => named_points(self.points@).contains((name@, p@)),
                None => !point_names(self.points@).contains(name@),
            },
    {
        let mut i: usize = 0;
        while i < self.points.len()
            invariant
                i <= self.points@.len(),
                forall|k: int| 0 <= k < i ==> (#[trigger] point_names(self.points@)[k]) != name@,
            decreases self.points@.len() - i,
        {
            if same(self.points[i].0.as_str(), name) {
                assert(named_points(self.points@)[i as int] == (name@, self.points@[i as int].1@));
                return Some(&self.points[i].1);
            }
            i += 1;
        }
        None
    }
}

/// Reads the teleport points from the text of the data file, if it is JSON.
pub fn load_tp(text: &str) -> (r: Option<TpData>)
    ensures
        match json_document(text@) {
            Some(m) => {
                &&& r matches Some(tp)
                &&& tp.wf()
                &&& texts(tp.areas@) == member_texts(m, "areas"@)
                &&& named_points(tp.points@) == points_in(m)
            },
            None => r is None,
        },
{
    match parse_json(text) {
        Ok(v) => Some(TpData::from_json(&v)),
        Err(_) => None,
    }
}

// ---------------------------------------------------------------------------
// Laws
// ---------------------------------------------------------------------------

/// The elements have the numbers from one to six; other numbers have no name, and
/// other names no number.
pub proof fn law_elements_in_order(e: u8, s: Seq<char>)
    ensures
        element_number("光"@) == Some(1u8) && element_text(1) == "光"@,
        element_number("灵"@) == Some(2u8) && element_text(2) == "灵"@,
        element_number("咒"@) == Some(3u8) && element_text(3) == "咒"@,
        element_number("暗"@) == Some(4u8) && element_text(4) == "暗"@,
        element_number("魂"@) == Some(5u8) && element_text(5) == "魂"@,
        element_number("相"@) == Some(6u8) && element_text(6) == "相"@,
        e == 0 || e > 6 ==> element_text(e).len() == 0,
        s.len() != 1 ==> element_number(s) is None,
{
    reveal_strlit("光");
    reveal_strlit("灵");
    reveal_strlit("咒");
    reveal_strlit("暗");
    reveal_strlit("魂");
    reveal_strlit("相");
    reveal_strlit("");
    assert("光"@[0] == '光' && "灵"@[0] == '灵' && "咒"@[0] == '咒');
    assert("暗"@[0] == '暗' && "魂"@[0] == '魂' && "相"@[0] == '相');
}

/// The name of a picture is what stands behind the last slash of its path, or the
/// whole path if there is no slash.
pub proof fn law_picture_behind_the_last_slash(path: Seq<char>, name: Seq<char>)
    requires
        !name.contains('/'),
    ensures
        asset_of(name) == name,
        asset_of(path + seq!['/'] + name) == name,
    decreases path.len(),
{
    crate::text::lemma_position_is(name, '/', name.len() as int);
    let all = path + seq!['/'] + name;
    let i = crate::text::position(all, '/');
    crate::text::lemma_position_of(all, '/');
    assert(all[path.len() as int] == '/');
    assert(i <= path.len());
    let rest = all.skip(i + 1);
    lemma_split_not_empty(rest, '/');
    assert(split(all, '/').last() == split(rest, '/').last());
    if i < path.len() {
        let p = path.skip(i + 1);
        assert(rest =~= p + seq!['/'] + name);
        law_picture_behind_the_last_slash(p, name);
    } else {
        assert(rest =~= name);
    }
}

/// Whether a character is what a row says, with its picture.
pub open spec fn is_of_row(c: CharacterView, r: RowView) -> bool {
    &&& r.asset_path matches Some(path) && asset_of(path) == c.asset_name
    &&& r.name == Some(c.name)
    &&& r.element matches Some(e) && element_number(e) == Some(c.element)
    &&& r.tags == c.tag
    &&& c.debug_info is None
}

/// Every row has its picture among the characters, unless it was met before.
pub proof fn law_every_row_has_a_character(list: Seq<RowView>, seen: Seq<Seq<char>>, j: int)
    requires
        characters(list, seen) is Ok,
        0 <= j < list.len(),
    ensures
        list[j].asset_path is Some,
        seen.contains(asset_of(list[j].asset_path->0)) || exists|i: int|
            0 <= i < characters(list, seen)->Ok_0.len() && (#[trigger] characters(
                list,
                seen,
            )->Ok_0[i]).asset_name == asset_of(list[j].asset_path->0),
    decreases list.len(),
{
    let all = characters(list, seen)->Ok_0;
    let rest = list.drop_first();
    let asset = asset_of(list[0].asset_path->0);
    if seen.contains(asset) {
        if j > 0 {
            law_every_row_has_a_character(rest, seen, j - 1);
            assert(rest[j - 1] == list[j]);
        }
    } else {
        let more = seen.push(asset);
        let others = characters(rest, more)->Ok_0;
        assert(all[0].asset_name == asset);
        if j > 0 {
            law_every_row_has_a_character(rest, more, j - 1);
            assert(rest[j - 1] == list[j]);
            let mine = asset_of(list[j].asset_path->0);
            if more.contains(mine) && !seen.contains(mine) {
                let k = choose|k: int| 0 <= k < more.len() && more[k] == mine;
                if k < seen.len() {
                    assert(seen.contains(seen[k]));
                }
                assert(mine == asset);
            } else if !seen.contains(mine) {
                let i = choose|i: int|
                    0 <= i < others.len() && (#[trigger] others[i]).asset_name == mine;
                assert(all[i + 1] == others[i]);
            }
        }
    }
}

/// Every character is what the first row with its picture says, and the characters
/// are in the order of their rows.
pub proof fn law_every_character_has_a_row(list: Seq<RowView>, seen: Seq<Seq<char>>)
    requires
        characters(list, seen) is Ok,
    ensures
        exists|at: Seq<int>|
            {
                &&& #[trigger] at.len() == characters(list, seen)->Ok_0.len()
                &&& forall|i: int|
                    0 <= i < at.len() ==> 0 <= #[trigger] at[i] < list.len() && is_of_row(
                        characters(list, seen)->Ok_0[i],
                        list[at[i]],
                    )
                &&& forall|i: int, j: int| 0 <= i < j < at.len() ==> at[i] < at[j]
                &&& forall|i: int, k: int|
                    #![trigger at[i], list[k]]
                    0 <= i < at.len() && 0 <= k < at[i] ==> list[k].asset_path is Some && asset_of(
                        list[k].asset_path->0,
                    ) != characters(list, seen)->Ok_0[i].asset_name
            },
    decreases list.len(),
{
    let all = characters(list, seen)->Ok_0;
    if list.len() == 0 {
        assert(Seq::<int>::empty().len() == all.len());
    } else {
        let rest = list.drop_first();
        let asset = asset_of(list[0].asset_path->0);
        let skipped = seen.contains(asset);
        let more = if skipped {
            seen
        } else {
            seen.push(asset)
        };
        let others = characters(rest, more)->Ok_0;
        law_every_character_has_a_row(rest, more);
        law_pictures_differ(rest, more);
        let at = choose|at: Seq<int>|
            {
                &&& #[trigger] at.len() == others.len()
                &&& forall|i: int|
                    0 <= i < at.len() ==> 0 <= #[trigger] at[i] < rest.len() && is_of_row(
                        others[i],
                        rest[at[i]],
                    )
                &&& forall|i: int, j: int| 0 <= i < j < at.len() ==> at[i] < at[j]
                &&& forall|i: int, k: int|
                    #![trigger at[i], rest[k]]
                    0 <= i < at.len() && 0 <= k < at[i] ==> rest[k].asset_path is Some && asset_of(
                        rest[k].asset_path->0,
                    ) != others[i].asset_name
            };
        let shift = if skipped {
            0int
        } else {
            1
        };
        let now = if skipped {
            Seq::new(at.len(), |i: int| at[i] + 1)
        } else {
            Seq::new(at.len() + 1, |i: int| if i == 0 {
                0
            } else {
                at[i - 1] + 1
            })
        };
        assert(more.contains(asset)) by {
            if !skipped {
                assert(more[seen.len() as int] == asset);
            }
        }
        assert(now.len() == all.len());
        assert forall|i: int| 0 <= i < now.len() implies 0 <= #[trigger] now[i] < list.len()
            && is_of_row(all[i], list[now[i]]) by {
            if skipped || i > 0 {
                assert(all[i] == others[i - shift]);
                assert(list[now[i]] == rest[at[i - shift]]);
            }
        }
        assert forall|i: int, k: int|
            #![trigger now[i], list[k]]
            0 <= i < now.len() && 0 <= k < now[i] implies list[k].asset_path is Some && asset_of(
            list[k].asset_path->0,
        ) != all[i].asset_name by {
            assert(skipped || i > 0);
            assert(all[i] == others[i - shift]);
            assert(!more.contains(others[i - shift].asset_name));
            if k > 0 {
                assert(list[k] == rest[k - 1]);
                assert(0 <= k - 1 < at[i - shift]);
            }
        }
    }
}

/// Whether a row cannot be read, and why.
pub open spec fn is_faulty(r: RowView, e: CharacterFault) -> bool {
    match e {
        CharacterFault::NoAsset => r.asset_path is None,
        CharacterFault::NoName => r.asset_path is Some && r.name is None,
        CharacterFault::NoElement => r.asset_path is Some && r.name is Some && r.element is None,
        CharacterFault::UnknownElement { element, name } => r.asset_path is Some && r.name == Some(
            name,
        ) && r.element == Some(element) && element_number(element) is None,
        _ => false,
    }
}

/// The characters cannot be read exactly when a row cannot; the first such row that
/// is not passed over says why.
pub proof fn law_faulty_row_is_reported(list: Seq<RowView>, seen: Seq<Seq<char>>)
    requires
        characters(list, seen) is Err,
    ensures
        exists|j: int|
            0 <= j < list.len() && #[trigger] is_faulty(list[j], characters(list, seen)->Err_0)
                && characters(list.take(j), seen) is Ok,
    decreases list.len(),
{
    let e = characters(list, seen)->Err_0;
    let rest = list.drop_first();
    assert(list.take(0) =~= seq![]);
    if is_faulty(list[0], e) && characters(list.take(0), seen) is Ok {
    } else {
        let asset = asset_of(list[0].asset_path->0);
        let more = if seen.contains(asset) {
            seen
        } else {
            seen.push(asset)
        };
        law_faulty_row_is_reported(rest, more);
        let j = choose|j: int|
            0 <= j < rest.len() && #[trigger] is_faulty(rest[j], e) && characters(
                rest.take(j),
                more,
            ) is Ok;
        assert(list[j + 1] == rest[j]);
        assert(list.take(j + 1).drop_first() =~= rest.take(j));
        assert(list.take(j + 1)[0] == list[0]);
        assert(is_faulty(list[j + 1], e));
    }
}

/// What the data file says of a character stands under its keys.
pub proof fn law_row_by_keys(m: Nodes, key: Seq<char>, all: Seq<Seq<char>>, i: int)
    requires
        0 <= i < all.len(),
    ensures
        row_in(m).asset_path == inner_text(m, "ItemIconBig"@, "AssetPathName"@),
        row_in(m).name == inner_text(m, "ItemName"@, "SourceString"@),
        row_in(m).element == inner_text(m, "ElementData"@, "CharacterElementType"@),
        row_in(m).tags == member_texts(m, "PlayerViewTagArray"@),
        rows_of(m, all).len() == all.len(),
        rows_of(m, all)[i] == row_in(under(m, JsonStep::Key(all[i]))),
{
}

/// The rows of a data file are the members of `Rows` in the first item of its list,
/// in the order of their keys; a file without them has none.
pub proof fn law_rows_of_the_file(m: Nodes)
    ensures
        ({
            let first = item(m, 0);
            let all = member(first->0, "Rows"@);
            &&& rows_in(m) is Some <==> first is Some && all is Some && as_keys(all->0) is Some
            &&& rows_in(m) matches Some(l) ==> l == rows_of(all->0, as_keys(all->0)->0)
        }),
{
}

/// A data file that is no JSON or has no rows says so; else its rows decide, and
/// none was met before the first.
pub proof fn law_data_file(text: Seq<char>)
    ensures
        ({
            let doc = json_document(text);
            &&& doc is None ==> characters_in(text) == Err::<Seq<CharacterView>, CharacterFault>(
                CharacterFault::NotJson,
            )
            &&& doc is Some && rows_in(doc->0) is None ==> characters_in(text) == Err::<
                Seq<CharacterView>,
                CharacterFault,
            >(CharacterFault::NoRows)
            &&& doc is Some && rows_in(doc->0) is Some ==> characters_in(text) == characters(
                rows_in(doc->0)->0,
                Seq::empty(),
            )
        }),
{
}

/// A picture file shows the first character whose picture its name begins with.
pub proof fn law_pictures_by_their_names(
    list: Seq<CharacterView>,
    file: Seq<char>,
    name: Seq<char>,
    rest: Seq<char>,
    i: int,
)
    ensures
        shows(name + rest, CharacterView { asset_name: name, ..list[i] }),
        first_shown(list, name, i) <==> 0 <= i < list.len() && starts_with(
            name,
            list[i].asset_name,
        ) && forall|k: int| 0 <= k < i ==> !starts_with(name, (#[trigger] list[k]).asset_name),
        shows_nobody(list, name) <==> forall|k: int|
            0 <= k < list.len() ==> !starts_with(name, (#[trigger] list[k]).asset_name),
        picture_of(file) == Some(name) <==> name.len() > 0 && file == name + seq![
            '.',
            'p',
            'n',
            'g',
        ],
{
    reveal_strlit("png");
    assert("png"@ =~= seq!['p', 'n', 'g']);
    crate::text::law_name_point_extension(file, name, "png"@);
    assert(name + seq!['.'] + "png"@ =~= name + seq!['.', 'p', 'n', 'g']);
    assert((name + rest).subrange(0, name.len() as int) =~= name);
    if first_shown(list, name, i) {
        assert forall|k: int| 0 <= k < i implies !starts_with(name, (#[trigger] list[k]).asset_name)
            by {
            assert(!shows(name, list[k]));
        }
    }
    if shows_nobody(list, name) {
        assert forall|k: int| 0 <= k < list.len() implies !starts_with(
            name,
            (#[trigger] list[k]).asset_name,
        ) by {
            assert(!shows(name, list[k]));
        }
    }
}

/// Exactly the picture files that show somebody are listed, each once and in order,
/// with the first character that it shows.
pub proof fn law_pictures_that_are_listed(
    files: Seq<Seq<char>>,
    list: Seq<CharacterView>,
    pairs: Seq<(usize, usize)>,
    f: int,
)
    requires
        lists_pictures(files, list, files.len() as int, pairs),
        0 <= f < files.len(),
    ensures
        (exists|k: int| 0 <= k < pairs.len() && (#[trigger] pairs[k]).0 == f) <==> (picture_of(
            files[f],
        ) is Some && exists|c: int| #[trigger] first_shown(list, picture_of(files[f])->0, c)),
        forall|k: int|
            0 <= k < pairs.len() && (#[trigger] pairs[k]).0 == f ==> first_shown(
                list,
                picture_of(files[f])->0,
                pairs[k].1 as int,
            ),
        forall|k: int, l: int| 0 <= k < l < pairs.len() ==> pairs[k].0 < pairs[l].0,
        has_picture(files, files.len() as int) <==> exists|g: int|
            0 <= g < files.len() && picture_of(#[trigger] files[g]) is Some,
{
    if is_listed_file(pairs, f) {
        let k = choose|k: int| 0 <= k < pairs.len() && (#[trigger] pairs[k]).0 == f;
        assert(pictures(files, list, f, pairs[k].1 as int));
        assert(first_shown(list, picture_of(files[f])->0, pairs[k].1 as int));
    } else if picture_of(files[f]) is Some {
        let s = picture_of(files[f])->0;
        assert(shows_nobody(list, s));
        assert forall|c: int| !#[trigger] first_shown(list, s, c) by {
            if 0 <= c < list.len() {
                assert(!shows(s, list[c]));
            }
        }
    }
    assert forall|k: int| 0 <= k < pairs.len() && (#[trigger] pairs[k]).0 == f implies first_shown(
        list,
        picture_of(files[f])->0,
        pairs[k].1 as int,
    ) by {
        assert(pictures(files, list, pairs[k].0 as int, pairs[k].1 as int));
    }
}

/// A member of the team is the last character with the name that was found, and
/// nobody, without name, picture, tags and element, if there is none.
pub proof fn law_member_of_the_team(
    list: Seq<CharacterView>,
    verdict: Option<&str>,
    c: CharacterView,
    i: int,
)
    requires
        is_member(list, verdict, c),
    ensures
        nobody().name.len() == 0 && nobody().asset_name.len() == 0 && nobody().tag.len() == 0,
        nobody().element == 0 && nobody().debug_info is None,
        verdict is None ==> c.name.len() == 0 && c.element == 0 && c.tag.len() == 0
            && c.asset_name.len() == 0,
        verdict matches Some(name) ==> {
            &&& last_named(list, name@, i) ==> c.name == list[i].name && c.asset_name
                == list[i].asset_name && c.tag == list[i].tag && c.element == list[i].element
            &&& (forall|k: int| 0 <= k < list.len() ==> (#[trigger] list[k]).name != name@)
                ==> c.name.len() == 0 && c.element == 0 && c.tag.len() == 0
            &&& last_named(list, name@, i) <==> 0 <= i < list.len() && list[i].name == name@
                && forall|k: int| i < k < list.len() ==> (#[trigger] list[k]).name != name@
        },
{
    if let Some(name) = verdict {
        if exists|j: int| #[trigger] last_named(list, name@, j) {
            let j = choose|j: int|
                #[trigger] last_named(list, name@, j) && (CharacterView {
                    debug_info: None,
                    ..list[j]
                } == (CharacterView { debug_info: None, ..c }));
            if last_named(list, name@, i) {
                let k = choose|j: int| #[trigger] last_named(list, name@, j);
                assert(list[i].name == name@);
            }
        }
    }
}

/// A teleport point has the area, the kind and the place that stand under its keys;
/// what is missing or of another kind is empty or zero.
pub proof fn law_point_by_keys(m: Nodes)
    ensures
        ({
            let p = point_in(m);
            let whole = |key: Seq<char>|
                if member(m, key) is Some && as_whole(
                    member(m, key)->0,
                    -0x8000_0000_0000_0000,
                    0x7FFF_FFFF_FFFF_FFFF,
                ) is Some {
                    as_whole(
                        member(m, key)->0,
                        -0x8000_0000_0000_0000,
                        0x7FFF_FFFF_FFFF_FFFF,
                    )->0
                } else {
                    0
                };
            &&& member_text(m, "area"@) matches Some(s) ==> p.area == s
            &&& member_text(m, "area"@) is None ==> p.area.len() == 0
            &&& p.kind == whole("type"@)
            &&& p.index == whole("index"@)
        }),
{
}

/// The points of a data file are the members of `tp`, each under its name, in the
/// order of their keys.
pub proof fn law_points_of_the_file(m: Nodes, i: int)
    ensures
        ({
            let all = member(m, "tp"@);
            let l = points_in(m);
            &&& all is None || as_keys(all->0) is None ==> l.len() == 0
            &&& all is Some && as_keys(all->0) is Some ==> {
                let keys = as_keys(all->0)->0;
                &&& l.len() == keys.len()
                &&& 0 <= i < l.len() ==> l[i].0 == keys[i] && l[i].1 == point_in(
                    under(all->0, JsonStep::Key(keys[i])),
                )
            }
        }),
{
}

/// What characters, rows and points are seen as is what they hold.
pub proof fn law_people_are_seen_as_they_are(
    c: Character,
    r: CharacterRow,
    p: TpPoint,
    list: Seq<Character>,
    table: Seq<CharacterRow>,
    points: Seq<(String, TpPoint)>,
    i: int,
)
    ensures
        c@.name == c.name@,
        c@.asset_name == c.asset_name@,
        c@.tag == texts(c.tag@),
        c@.element == c.element,
        c@.debug_info == text_of(c.debug_info),
        r@.asset_path == text_of(r.asset_path),
        r@.name == text_of(r.name),
        r@.element == text_of(r.element),
        r@.tags == texts(r.tags@),
        p@.area == p.area@,
        p@.kind == p.kind,
        p@.index == p.index,
        people(list).len() == list.len(),
        0 <= i < list.len() ==> people(list)[i] == list[i]@,
        row_views(table).len() == table.len(),
        0 <= i < table.len() ==> row_views(table)[i] == table[i]@,
        named_points(points).len() == points.len(),
        point_names(points).len() == points.len(),
        0 <= i < points.len() ==> named_points(points)[i] == (points[i].0@, points[i].1@),
        0 <= i < points.len() ==> point_names(points)[i] == points[i].0@,
{
}

/// What a reading of the characters means: the characters, or why there are none.
pub proof fn law_readings_are_seen_as_they_are(
    list: Vec<Character>,
    e: CharacterError,
    tp: TpData,
    i: int,
    j: int,
)
    ensures
        outcome(Ok(list)) == Ok::<Seq<CharacterView>, CharacterFault>(people(list@)),
        outcome(Err(e)) == Err::<Seq<CharacterView>, CharacterFault>(e@),
        e is NotJson <==> e@ is NotJson,
        e is NoRows <==> e@ is NoRows,
        e is NoAsset <==> e@ is NoAsset,
        e is NoName <==> e@ is NoName,
        e is NoElement <==> e@ is NoElement,
        e matches CharacterError::UnknownElement { element, name } ==> e@ == (
        CharacterFault::UnknownElement { element: element@, name: name@ }),
        tp.wf() && 0 <= i < j < tp.points@.len() ==> tp.points@[i].0@ != tp.points@[j].0@,
{
    if tp.wf() && 0 <= i < j < tp.points@.len() {
        assert(point_names(tp.points@)[i] != point_names(tp.points@)[j]);
    }
}

/// What the user reads when the characters or their pictures cannot be read.
pub proof fn law_why_nobody_is_known(e: CharacterError, a: AvatarError)
    ensures
        e is NotJson ==> e.text() == "解析 nte/DataTable/Character/DT_Character.json 失败"@,
        e is NoRows ==> e.text() == "DT_Character.json 缺少 Rows"@,
        e is NoAsset ==> e.text() == "缺少 ItemIconBig.AssetPathName"@,
        e is NoName ==> e.text() == "缺少 ItemName.SourceString"@,
        e is NoElement ==> e.text() == "缺少 ElementData.CharacterElementType"@,
        e matches CharacterError::UnknownElement { element, name } ==> e.text() == "未知元素类型："@
            + element@ + "（角色 "@ + name@ + "）"@,
        a is NoFiles ==> a.text() == "未在 "@ + "nte/UI_Icon/AvatarImage/CustomAvatar/256"@
            + " 找到任何头像素材"@,
        a is NoMatch ==> a.text() == "未在 "@ + "nte/UI_Icon/AvatarImage/CustomAvatar/256"@
            + " 找到匹配角色的头像素材"@,
{
}

/// The last character with a name has the name, and none behind it has.
pub proof fn law_last_with_a_name(list: Seq<CharacterView>, name: Seq<char>, i: int, j: int)
    ensures
        last_named(list, name, i) <==> {
            &&& 0 <= i < list.len()
            &&& list[i].name == name
            &&& forall|k: int| i < k < list.len() ==> (#[trigger] list[k]).name != name
        },
        last_named(list, name, i) && last_named(list, name, j) ==> i == j,
{
}

} // verus!
