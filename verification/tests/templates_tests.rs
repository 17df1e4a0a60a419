use elysium::templates::{alpha_mask, circle_mask, RgbaPicture, TemplateSet};
use elysium::vision::Image;

#[test]
fn circle_around_the_middle() {
    let m = circle_mask(5, 1);
    assert_eq!(
        m,
        vec![
            0, 0, 0, 0, 0, //
            0, 0, 255, 0, 0, //
            0, 255, 255, 255, 0, //
            0, 0, 255, 0, 0, //
            0, 0, 0, 0, 0,
        ]
    );
    let m = circle_mask(64, 26);
    assert_eq!(m.len(), 64 * 64);
    assert_eq!(m[32 * 64 + 32], 255);
    assert_eq!(m[32 * 64 + 58], 255);
    assert_eq!(m[32 * 64 + 59], 0);
    assert_eq!(m[0], 0);
}

#[test]
fn opaque_pixels_count() {
    assert_eq!(alpha_mask(&vec![0, 0, 0, 128, 0, 0, 0, 129, 9, 9, 9, 255]), vec![0, 255, 255]);
}

#[test]
fn pictures_are_brought_to_the_size_of_the_set() {
    let mut set = TemplateSet::new(4, 2);
    assert!(set.is_empty());
    let mut data = vec![];
    for _ in 0..64 {
        data.extend([10, 20, 30, 200]);
    }
    let img = RgbaPicture { width: 8, height: 8, data };
    let r = set.add_alpha_ref("甲", "a.png", &img);
    assert!(!set.is_empty());
    assert_eq!(r.pixels.len(), 64);
    for k in 0..16 {
        assert_eq!(r.pixels[4 * k..4 * k + 4], [10, 20, 30, 200]);
    }
    assert_eq!(r.mask, vec![255; 16]);
    assert_eq!(set.refs[0].name, "甲");
    assert_eq!(set.refs[0].file, "a.png");
}

#[test]
fn resizing_is_that_of_the_image_crate() {
    let mut set = TemplateSet::new(3, 1);
    let data: Vec<u8> = (0..7 * 5 * 4).map(|i| (i * 37 % 251) as u8).collect();
    let r = set.add_alpha_ref("x", "y", &RgbaPicture { width: 7, height: 5, data: data.clone() });
    let img = image::RgbaImage::from_raw(7, 5, data).unwrap();
    let expected =
        image::imageops::resize(&img, 3, 3, image::imageops::FilterType::Triangle).into_raw();
    assert_eq!(r.pixels, expected);
}

#[test]
fn query_is_a_part_of_the_frame() {
    let set = TemplateSet::new(2, 1);
    let data: Vec<u8> = (0..6 * 4 * 3).map(|i| (i * 7 % 256) as u8).collect();
    let frame = Image { width: 6, height: 4, data: data.clone() };
    let q = set.query(&frame, (1, 1, 2, 2)).unwrap();
    let at = |x: usize, y: usize| {
        let o = (y * 6 + x) * 3;
        vec![data[o], data[o + 1], data[o + 2], 255]
    };
    let mut expected = vec![];
    for (x, y) in [(1, 1), (2, 1), (1, 2), (2, 2)] {
        expected.extend(at(x, y));
    }
    assert_eq!(q, expected);
    assert!(set.query(&frame, (5, 0, 2, 2)).is_none());
    assert!(set.query(&frame, (0, 3, 2, 2)).is_none());
    let q = set.query(&frame, (0, 0, 4, 4)).unwrap();
    let rgb = image::RgbImage::from_raw(6, 4, data.clone()).unwrap();
    let part = image::imageops::crop_imm(&rgb, 0, 0, 4, 4).to_image();
    let small = image::imageops::resize(&part, 2, 2, image::imageops::FilterType::Triangle);
    for k in 0..4 {
        assert_eq!(q[4 * k..4 * k + 3], small.as_raw()[3 * k..3 * k + 3]);
    }
}

fn set_of(n: usize) -> TemplateSet {
    let mut set = TemplateSet::new(1, 1);
    for i in 0..n {
        let img = RgbaPicture { width: 1, height: 1, data: vec![1, 2, 3, 4] };
        set.add_alpha_ref(&format!("n{}", i), &format!("f{}", i), &img);
    }
    set
}

#[test]
fn report_names_the_most_alike() {
    let set = set_of(5);
    let order = set.order(&vec![3, 9, 5, 9, 1]);
    assert_eq!(order, vec![1, 3, 2, 0, 4]);
    let r = set.report(&order, false, false, false);
    assert_eq!(r.verdict, Some(1));
    let top: Vec<(&str, &str, usize)> =
        r.top.iter().map(|t| (t.name.as_str(), t.file.as_str(), t.place)).collect();
    assert_eq!(top, vec![("n1", "f1", 1), ("n3", "f3", 3), ("n2", "f2", 2)]);
}

#[test]
fn report_in_words() {
    let set = set_of(4);
    let r = set.report(&set.order(&vec![1, 4, 3, 2]), false, false, false);
    let scores = vec!["0.900".to_string(), "0.800".to_string(), "0.700".to_string()];
    assert_eq!(
        r.text("0.0312", &scores),
        "var: 0.0312  score: 1.n1(f1 0.900) 2.n2(f2 0.800) 3.n3(f3 0.700)"
    );
    let none = set_of(0);
    assert_eq!(none.report(&vec![], true, true, true).text("0", &vec![]), "var: 0  score:");
}

#[test]
fn report_without_a_verdict() {
    let set = set_of(1);
    let order = set.order(&vec![3]);
    assert_eq!(set.report(&order, false, false, false).verdict, Some(0));
    assert_eq!(set.report(&order, true, false, false).verdict, None);
    assert_eq!(set.report(&order, false, true, false).verdict, None);
    assert_eq!(set.report(&order, false, false, true).verdict, None);
    assert_eq!(set.report(&order, false, false, true).top.len(), 1);
    let none = set_of(0);
    let r = none.report(&none.order(&vec![]), false, false, false);
    assert!(r.verdict.is_none() && r.top.is_empty());
}

#[test]
fn empty_part_is_black() {
    let set = TemplateSet::new(2, -1);
    let frame = Image { width: 3, height: 1, data: vec![9; 9] };
    let black = [0, 0, 0, 255].repeat(4);
    assert_eq!(set.query(&frame, (3, 0, 0, 1)), Some(black.clone()));
    assert_eq!(set.query(&frame, (0, 1, 3, 0)), Some(black));
    assert_eq!(TemplateSet::new(0, 0).query(&frame, (0, 0, 3, 1)), Some(vec![]));
    assert!(set.query(&frame, (0, 0, u32::MAX, 1)).is_none());
    assert_eq!(set.query_mask, circle_mask(2, 1));
}
