use elysium::nte::{
    asset_name, avatar_rois, character_rows, characters_of, element_name, load_characters, load_tp,
    parse_element, shown_character, AvatarError, AvatarMatcher, Character, CharacterError,
    CharacterRow, TpData,
};

#[test]
fn elements_have_names() {
    let names = ["", "光", "灵", "咒", "暗", "魂", "相"];
    for e in 1..=6u8 {
        assert_eq!(element_name(e), names[e as usize]);
        assert_eq!(parse_element(names[e as usize]), Some(e));
    }
    assert_eq!(element_name(0), "");
    assert_eq!(element_name(7), "");
    assert_eq!(parse_element(""), None);
    assert_eq!(parse_element("光灵"), None);
}

fn row(asset: Option<&str>, name: Option<&str>, element: Option<&str>) -> CharacterRow {
    CharacterRow {
        asset_path: asset.map(String::from),
        name: name.map(String::from),
        element: element.map(String::from),
        tags: vec!["t".to_string()],
    }
}

#[test]
fn characters_of_rows() {
    let list = characters_of(&vec![
        row(Some("/a/b/P1"), Some("甲"), Some("光")),
        row(Some("/c/P1"), None, None),
        row(Some("P2"), Some("乙"), Some("相")),
    ])
    .unwrap();
    assert_eq!(list.len(), 2);
    assert_eq!(list[0].name, "甲");
    assert_eq!(list[0].asset_name, "P1");
    assert_eq!(list[0].element, 1);
    assert_eq!(list[0].tag, vec!["t"]);
    assert_eq!(list[0].debug_info, None);
    assert_eq!(list[1].asset_name, "P2");
    assert_eq!(list[1].element, 6);
}

#[test]
fn rows_that_are_refused() {
    let message = |r: CharacterRow| match characters_of(&vec![r]) {
        Ok(_) => panic!("accepted"),
        Err(e) => e.message(),
    };
    assert_eq!(message(row(None, None, None)), "缺少 ItemIconBig.AssetPathName");
    assert_eq!(message(row(Some("a"), None, None)), "缺少 ItemName.SourceString");
    assert_eq!(message(row(Some("a"), Some("n"), None)), "缺少 ElementData.CharacterElementType");
    assert_eq!(message(row(Some("a"), Some("甲"), Some("火"))), "未知元素类型：火（角色 甲）");
}

#[test]
fn names_of_pictures() {
    assert_eq!(asset_name("/Game/UI/Icon_01.Icon_01"), "Icon_01.Icon_01");
    assert_eq!(asset_name("x"), "x");
    assert_eq!(asset_name("a/"), "");
    assert_eq!(asset_name(""), "");
}

const TABLE: &str = "[{\"Rows\":{\"b\":{\"ItemIconBig\":{\"AssetPathName\":\"/x/B\"},\"ItemName\":{\"SourceString\":\"乙\"},\
\"ElementData\":{\"CharacterElementType\":\"灵\"}},\
\"a\":{\"ItemIconBig\":{\"AssetPathName\":\"/x/A\"},\"ItemName\":{\"SourceString\":\"甲\"},\
\"ElementData\":{\"CharacterElementType\":\"光\"},\"PlayerViewTagArray\":[\"p\",5,\"q\"]}}}]";

#[test]
fn characters_are_read_from_json() {
    let list = load_characters(TABLE).unwrap();
    assert_eq!(list.len(), 2);
    assert_eq!(list[0].name, "甲");
    assert_eq!(list[0].tag, vec!["p", "q"]);
    assert_eq!(list[1].name, "乙");
    assert_eq!(list[1].asset_name, "B");
    assert_eq!(list[1].element, 2);
    assert!(list[1].tag.is_empty());
}

#[test]
fn data_files_that_are_refused() {
    assert!(matches!(load_characters("nope"), Err(CharacterError::NotJson)));
    assert!(matches!(load_characters("{}"), Err(CharacterError::NoRows)));
    assert!(matches!(load_characters("[]"), Err(CharacterError::NoRows)));
    assert!(matches!(load_characters("[{\"Rows\":[]}]"), Err(CharacterError::NoRows)));
    assert!(matches!(load_characters("[{\"Rows\":{\"k\":{}}}]"), Err(CharacterError::NoAsset)));
    assert_eq!(load_characters("[{\"Rows\":{}}]").unwrap().len(), 0);
    assert_eq!(
        CharacterError::NotJson.message(),
        "解析 nte/DataTable/Character/DT_Character.json 失败"
    );
    assert_eq!(CharacterError::NoRows.message(), "DT_Character.json 缺少 Rows");
    let v = serde_json::from_str::<serde_json::Value>(TABLE).unwrap();
    assert_eq!(character_rows(&v).unwrap().len(), 2);
    assert!(character_rows(&serde_json::Value::Null).is_none());
}

fn somebody(name: &str, asset: &str, element: u8) -> Character {
    let mut c = Character::default();
    c.name = name.to_string();
    c.asset_name = asset.to_string();
    c.element = element;
    c
}

#[test]
fn pictures_show_characters() {
    let list = vec![somebody("甲", "P1", 1), somebody("乙", "P", 2)];
    assert_eq!(shown_character(&list, "P1_big"), Some(0));
    assert_eq!(shown_character(&list, "P2"), Some(1));
    assert_eq!(shown_character(&list, "Q"), None);
}

#[test]
fn pictures_are_found_among_files() {
    let list = || vec![somebody("甲", "P1", 1), somebody("乙", "P2", 2)];
    let files = |names: &[&str]| -> Vec<String> { names.iter().map(|s| s.to_string()).collect() };
    let (m, pairs) =
        AvatarMatcher::load(list(), &files(&["P2.txt", "P2_a.png", "Q.png", "P1.png", "P2.png"]))
            .ok()
            .unwrap();
    assert_eq!(pairs, vec![(1, 1), (3, 0), (4, 1)]);
    assert_eq!(m.list.len(), 2);
    assert_eq!(AvatarMatcher::load(list(), &files(&["x.txt"])).err(), Some(AvatarError::NoFiles));
    assert_eq!(AvatarMatcher::load(list(), &vec![]).err(), Some(AvatarError::NoFiles));
    assert_eq!(AvatarMatcher::load(list(), &files(&["Q.png"])).err(), Some(AvatarError::NoMatch));
    assert_eq!(
        AvatarError::NoFiles.message(),
        "未在 nte/UI_Icon/AvatarImage/CustomAvatar/256 找到任何头像素材"
    );
    assert_eq!(
        AvatarError::NoMatch.message(),
        "未在 nte/UI_Icon/AvatarImage/CustomAvatar/256 找到匹配角色的头像素材"
    );
}

#[test]
fn last_character_of_a_name_counts() {
    let m = AvatarMatcher {
        list: vec![somebody("甲", "P1", 1), somebody("乙", "P2", 2), somebody("甲", "P3", 3)],
    };
    assert_eq!(m.character("甲").unwrap().element, 3);
    assert!(m.character("丙").is_none());
    let c = m.team_member(Some((Some("乙"), "dbg")));
    assert_eq!(c.element, 2);
    assert_eq!(c.debug_info, Some("dbg".to_string()));
    let c = m.team_member(Some((None, "dbg")));
    assert_eq!(c.name, "");
    assert_eq!(c.debug_info, Some("dbg".to_string()));
    let c = m.team_member(Some((Some("丙"), "d")));
    assert_eq!((c.name.as_str(), c.element), ("", 0));
    let c = m.team_member(None);
    assert_eq!(c.debug_info, None);
    assert_eq!(c.element, 0);
}

#[test]
fn portraits_lie_in_a_column() {
    let r = avatar_rois();
    assert_eq!(r[0], (1162, 133, 64, 64));
    assert_eq!(r[3], (1162, 397, 64, 64));
}

#[test]
fn teleport_points_are_read() {
    let tp = load_tp(
        "{\"areas\":[\"东\",3,\"西\"],\"tp\":{\"z\":{\"area\":\"西\",\"type\":2,\"index\":-1},\"a\":{}}}",
    )
    .unwrap();
    assert_eq!(tp.areas, vec!["东", "西"]);
    let p = tp.find("z").unwrap();
    assert_eq!((p.area.as_str(), p.kind, p.index), ("西", 2, -1));
    let p = tp.find("a").unwrap();
    assert_eq!((p.area.as_str(), p.kind, p.index), ("", 0, 0));
    assert!(tp.find("b").is_none());
    assert!(load_tp("[").is_none());
    let tp = load_tp("{}").unwrap();
    assert!(tp.areas.is_empty() && tp.points.is_empty());
    let tp = TpData::from_json(&serde_json::Value::Null);
    assert!(tp.points.is_empty());
}
