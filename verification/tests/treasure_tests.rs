use elysium::components::label_components;
use elysium::morphology::treasure_morph;
use elysium::treasure::{find_treasure, is_marker_colour, treasure_candidates};
use elysium::vision::Image;

#[test]
fn marker_colour_is_that_of_the_hsv_formula() {
    for r in 0..=255u8 {
        for g in 0..=255u8 {
            for b in 0..=255u8 {
                let (ri, gi, bi) = (r as i16, g as i16, b as i16);
                let mut expected = false;
                if ri >= 150 && ri > bi + 20 && bi > gi + 20 {
                    let (rf, gf, bf) = (r as f64, g as f64, b as f64);
                    let d = rf - gf;
                    let s = d / rf * 255.;
                    if s >= 80. && s <= 210. {
                        let hue = 360. + 60. * (gf - bf) / d;
                        expected = hue >= 310. && hue <= 352.;
                    }
                }
                assert_eq!(is_marker_colour(r, g, b), expected);
            }
        }
    }
}

#[test]
fn dilation_widens() {
    let mut buf = vec![0u8; 25];
    buf[12] = 7;
    let mut tmp = vec![0u8; 25];
    treasure_morph(&mut buf, &mut tmp, 5, 5, 1, true);
    let mut expected = vec![0u8; 25];
    for y in 1..4 {
        for x in 1..4 {
            expected[y * 5 + x] = 1;
        }
    }
    assert_eq!(buf, expected);
    treasure_morph(&mut buf, &mut tmp, 5, 5, 1, false);
    let mut back = vec![0u8; 25];
    back[12] = 1;
    assert_eq!(buf, back);
}

#[test]
fn erosion_at_the_edge_sees_only_what_is_there() {
    let mut buf = vec![1u8; 12];
    let mut tmp = vec![0u8; 12];
    treasure_morph(&mut buf, &mut tmp, 4, 3, 2, false);
    assert_eq!(buf, vec![1u8; 12]);
    buf[0] = 0;
    treasure_morph(&mut buf, &mut tmp, 4, 3, 1, false);
    assert_eq!(buf, vec![0, 0, 1, 1, 0, 0, 1, 1, 1, 1, 1, 1]);
}

#[test]
fn closing_keeps_what_is_set() {
    let mut buf: Vec<u8> = (0..60).map(|i| if i * 7 % 5 == 0 { 1 } else { 0 }).collect();
    let before = buf.clone();
    let mut tmp = vec![0u8; 60];
    treasure_morph(&mut buf, &mut tmp, 10, 6, 1, true);
    treasure_morph(&mut buf, &mut tmp, 10, 6, 1, false);
    for i in 0..60 {
        assert!(buf[i] >= before[i]);
    }
}

#[test]
fn components_touch_at_corners() {
    let mask = [
        1u8, 0, 0, 0, 1, //
        0, 1, 0, 0, 1, //
        0, 0, 0, 0, 0, //
        1, 1, 0, 1, 0,
    ];
    let (labels, areas) = label_components(&mask, 5, 4);
    assert_eq!(
        labels,
        vec![1, 0, 0, 0, 2, 0, 1, 0, 0, 2, 0, 0, 0, 0, 0, 3, 3, 0, 4, 0]
    );
    assert_eq!(areas, vec![0, 2, 2, 2, 1]);
}

const PINK: [u8; 3] = [255, 120, 185];

fn diamond(cx: i32, cy: i32, r: i32) -> Image {
    let mut data = vec![100u8; 1280 * 720 * 3];
    for y in -r - 2..=r + 2 {
        for x in -r - 2..=r + 2 {
            let d = x.abs() + y.abs();
            let at = (((cy + y) * 1280 + cx + x) * 3) as usize;
            if d <= r {
                data[at..at + 3].copy_from_slice(&PINK);
            } else if d <= r + 2 {
                data[at..at + 3].copy_from_slice(&[10, 10, 10]);
            }
        }
    }
    Image { width: 1280, height: 720, data }
}

#[test]
fn diamond_is_a_candidate() {
    let list = treasure_candidates(&diamond(400, 300, 9));
    assert_eq!(list.len(), 1);
    let c = list[0];
    assert_eq!((c.cx, c.cy), (400, 300));
    assert_eq!(c.hits, 4);
    assert_eq!((c.wh, c.align_x), (0, 0));
    assert_eq!(c.count, 181);
    assert_eq!((c.red, c.green, c.blue), (181 * 255, 181 * 120, 181 * 185));
}

#[test]
fn diamonds_of_the_wrong_size_are_none() {
    assert_eq!(treasure_candidates(&diamond(400, 300, 4)).len(), 0);
    assert_eq!(treasure_candidates(&diamond(400, 300, 17)).len(), 0);
    let empty = Image { width: 1280, height: 720, data: vec![0; 1280 * 720 * 3] };
    assert_eq!(treasure_candidates(&empty).len(), 0);
    assert_eq!(find_treasure(&empty).unwrap().len(), 0);
}

#[test]
fn larger_frame_is_brought_to_the_base_size() {
    let base = diamond(400, 300, 9);
    let mut data = vec![0u8; 2560 * 1440 * 3];
    for y in 0..1440usize {
        for x in 0..2560usize {
            let from = ((y / 2) * 1280 + x / 2) * 3;
            let to = (y * 2560 + x) * 3;
            data[to..to + 3].copy_from_slice(&base.data[from..from + 3]);
        }
    }
    let list = find_treasure(&Image { width: 2560, height: 1440, data }).unwrap();
    assert_eq!(list.len(), 1);
    assert!((list[0].cx - 400).abs() <= 1 && (list[0].cy - 300).abs() <= 1);
    assert!(list[0].hits >= 3);
}

fn step(mask: &[u8], w: usize, h: usize, r: usize, dilate: bool) -> Vec<u8> {
    let mut buf = mask.to_vec();
    let mut tmp = vec![0u8; mask.len()];
    treasure_morph(&mut buf, &mut tmp, w, h, r, dilate);
    buf
}

#[test]
fn closing_once_is_enough() {
    let mask: Vec<u8> = (0..9 * 7).map(|i| (i * i % 11 < 2) as u8).collect();
    let close = |m: &[u8]| step(&step(m, 9, 7, 2, true), 9, 7, 2, false);
    let once = close(&mask);
    assert_ne!(once, mask);
    assert_eq!(close(&once), once);
}

#[test]
fn radii_add_up() {
    let mask: Vec<u8> = (0..9 * 7).map(|i| (i % 13 == 5 || i > 40) as u8).collect();
    for dilate in [true, false] {
        let both = step(&step(&mask, 9, 7, 1, dilate), 9, 7, 2, dilate);
        assert_eq!(both, step(&mask, 9, 7, 3, dilate));
    }
}

#[test]
fn what_is_stored_behind_a_frame_does_not_count() {
    let mut img = diamond(400, 300, 9);
    let expected = find_treasure(&img).unwrap();
    img.data.extend([7; 100]);
    let list = find_treasure(&img).unwrap();
    assert_eq!(list.len(), 1);
    assert_eq!((list[0].cx, list[0].cy), (expected[0].cx, expected[0].cy));
}
