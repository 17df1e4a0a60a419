use elysium::assets::{assets_of, gray, gray_part, load_assets, scale_deep_picture, scale_picture, AssetError, LONGEST_SIDE};
use elysium::json::Number;
use elysium::vision::Image;

const GOOD: &str = "{\"categories\":[{\"id\":1,\"name\":\"start\"},{\"id\":2,\"name\":\"end\"},{\"id\":1,\"name\":\"begin\"}],\
\"images\":[{\"id\":7,\"file_name\":\"a.png\"}],\
\"annotations\":[{\"category_id\":2,\"image_id\":7,\"bbox\":[1,2.5,-3,4]},{\"category_id\":1,\"image_id\":7,\"bbox\":[0,0,1e3,18446744073709551615]}]}";

#[test]
fn annotations_are_joined() {
    let list = load_assets(GOOD).unwrap();
    assert_eq!(list.len(), 2);
    assert_eq!(list[0].name, "end");
    assert_eq!(list[0].file, "a.png");
    assert_eq!(
        list[0].bbox,
        [
            Number::Unsigned(1),
            Number::Fraction(2.5f64.to_bits()),
            Number::Negative(-3),
            Number::Unsigned(4)
        ]
    );
    assert_eq!(list[1].name, "begin");
    assert_eq!(list[1].bbox[2], Number::Fraction(1000f64.to_bits()));
    assert_eq!(list[1].bbox[3], Number::Unsigned(u64::MAX));
}

#[test]
fn annotations_that_are_no_json() {
    assert_eq!(load_assets("{").err(), Some(AssetError::NotJson));
    assert_eq!(load_assets("").err(), Some(AssetError::NotJson));
}

#[test]
fn annotations_that_are_incomplete() {
    let bad = [
        "{}",
        "[]",
        "{\"categories\":[],\"images\":[]}",
        "{\"categories\":{},\"images\":[],\"annotations\":[]}",
        "{\"categories\":[{\"id\":-1,\"name\":\"x\"}],\"images\":[],\"annotations\":[]}",
        "{\"categories\":[{\"id\":1}],\"images\":[],\"annotations\":[]}",
        "{\"categories\":[],\"images\":[],\"annotations\":[{\"category_id\":1,\"image_id\":1,\"bbox\":[1,2,3,4]}]}",
        "{\"categories\":[{\"id\":1,\"name\":\"x\"}],\"images\":[{\"id\":1,\"file_name\":\"f\"}],\"annotations\":[{\"category_id\":1,\"image_id\":1,\"bbox\":[1,2,3]}]}",
        "{\"categories\":[{\"id\":1,\"name\":\"x\"}],\"images\":[{\"id\":1,\"file_name\":\"f\"}],\"annotations\":[{\"category_id\":1,\"image_id\":1,\"bbox\":[1,2,3,\"4\"]}]}",
        "{\"categories\":[{\"id\":1,\"name\":\"x\"}],\"images\":[{\"id\":1,\"file_name\":\"f\"}],\"annotations\":[{\"category_id\":1,\"image_id\":1}]}",
    ];
    for s in bad {
        assert_eq!(load_assets(s).err(), Some(AssetError::Incomplete), "{}", s);
    }
    let v = serde_json::from_str::<serde_json::Value>(
        "{\"categories\":[],\"images\":[],\"annotations\":[]}",
    )
    .unwrap();
    assert_eq!(assets_of(&v).unwrap().len(), 0);
}

#[test]
fn grey_is_the_mean() {
    assert_eq!(gray(255, 255, 255), 255);
    assert_eq!(gray(0, 1, 1), 0);
    assert_eq!(gray(10, 20, 31), 20);
}

#[test]
fn part_of_a_picture_is_grey() {
    let data: Vec<u8> = (0..4 * 3 * 3).map(|i| i as u8).collect();
    let img = Image { width: 4, height: 3, data };
    let p = gray_part(&img, 1, 1, 2, 2).unwrap();
    assert_eq!((p.width, p.height), (2, 2));
    assert_eq!(p.data, vec![16, 19, 28, 31]);
    assert_eq!(gray_part(&img, 0, 0, 4, 3).unwrap().data.len(), 12);
    assert!(gray_part(&img, 2, 0, 3, 1).is_none());
    assert!(gray_part(&img, 0, 3, 1, 1).is_none());
    assert!(gray_part(&img, 1, 0, u32::MAX, 1).is_none());
    let empty = gray_part(&img, 9, 9, 0, 5).unwrap();
    assert_eq!((empty.width, empty.height, empty.data.len()), (0, 5, 0));
}

#[test]
fn scaling_is_that_of_the_image_crate() {
    let data: Vec<u8> = (0..9 * 6 * 3).map(|i| (i * 41 % 253) as u8).collect();
    let img = Image { width: 9, height: 6, data: data.clone() };
    let small = scale_picture(&img, 4, 5);
    assert_eq!((small.width, small.height), (4, 5));
    let rgba: Vec<u8> = data.chunks_exact(3).flat_map(|p| [p[0], p[1], p[2], 90]).collect();
    let raw = image::DynamicImage::ImageRgba8(image::RgbaImage::from_raw(9, 6, rgba).unwrap());
    let filter = image::imageops::FilterType::Lanczos3;
    assert_eq!(small.data, raw.resize_exact(4, 5, filter).to_rgb8().into_raw());
    assert_eq!(scale_picture(&img, 0, 3).data.len(), 0);
    let empty = Image { width: 0, height: 2, data: vec![] };
    assert_eq!(scale_picture(&empty, 2, 1).data, vec![0; 6]);
}

#[test]
fn deep_pictures_are_scaled_before_they_are_cut() {
    let data: Vec<u16> = (0..9 * 6 * 3).map(|i| (i * 7919 % 65521) as u16).collect();
    let small = scale_deep_picture(&data, 9, 6, 4, 5);
    assert_eq!((small.width, small.height), (4, 5));
    let raw: image::ImageBuffer<image::Rgba<u16>, Vec<u16>> = image::ImageBuffer::from_raw(
        9,
        6,
        data.chunks_exact(3).flat_map(|p| [p[0], p[1], p[2], 300]).collect(),
    )
    .unwrap();
    let filter = image::imageops::FilterType::Lanczos3;
    let expected = image::DynamicImage::ImageRgba16(raw).resize_exact(4, 5, filter);
    assert_eq!(small.data, expected.to_rgb8().into_raw());
    assert_eq!(scale_deep_picture(&data, 9, 6, 9, 6).data.len(), data.len());
}

#[test]
fn longest_sides_are_scaled() {
    let n = LONGEST_SIDE;
    let wide = Image { width: n - 1, height: 1, data: vec![200; 3 * (n as usize - 1)] };
    assert_eq!(scale_picture(&wide, n, 1).data, vec![200; 3 * n as usize]);
    let high = Image { width: 1, height: n - 1, data: vec![200; 3 * (n as usize - 1)] };
    assert_eq!(scale_picture(&high, 1, n).data, vec![200; 3 * n as usize]);
}
