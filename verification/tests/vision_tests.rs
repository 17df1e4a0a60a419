use elysium::ncc::{
    find_peak, lay_out, next_pow2, window_sums, NccPlan, Peak,
};
use elysium::ocr::{ocr_text, recognize_roi, texts_of, OcrLine};
use elysium::order::{argmax, key_of_double, key_of_single, rank};
use elysium::vision::{
    client_area, crop, get_pixel, pixel_equal, pixel_like, see_equal, see_like, FirstFrame, Image,
    Sides, Vision,
};

fn picture(w: u32, h: u32) -> Image {
    let mut data = vec![];
    for y in 0..h {
        for x in 0..w {
            data.extend([x as u8, y as u8, (x * y) as u8]);
        }
    }
    Image { width: w, height: h, data }
}

#[test]
fn pixels_are_read() {
    let img = picture(5, 4);
    assert_eq!(get_pixel(&img, 3, 2), [3, 2, 6]);
    assert!(pixel_equal(&img, 3, 2, 3, 2, 6));
    assert!(!pixel_equal(&img, 3, 2, 3, 2, 7));
    assert!(pixel_like(&img, 3, 2, 5, 0, 6, 3));
    assert!(!pixel_like(&img, 3, 2, 6, 2, 6, 3));
    assert!(!pixel_like(&img, 3, 2, 3, 2, 6, 0));
    assert_eq!(see_equal(&img, 5, 0, 0, 0, 0), None);
    assert_eq!(see_like(&img, 0, 4, 0, 0, 0, 9), None);
    assert_eq!(see_like(&img, 0, 0, 0, 0, 0, 1), Some(true));
}

#[test]
fn parts_of_frames() {
    let img = picture(5, 4);
    let p = crop(&img, 1, 2, 3, 2);
    assert_eq!((p.width, p.height, p.data.len()), (3, 2, 18));
    assert_eq!(get_pixel(&p, 2, 1), [3, 3, 9]);
    let p = crop(&img, 3, 3, 10, 10);
    assert_eq!((p.width, p.height), (2, 1));
    assert_eq!(get_pixel(&p, 1, 0), [4, 3, 12]);
    let p = crop(&img, 9, 9, 1, 1);
    assert_eq!((p.width, p.height, p.data.len()), (0, 0, 0));
    let p = recognize_roi(&img, (0, 1, 5, 1));
    assert_eq!(get_pixel(&p, 4, 0), [4, 1, 4]);
}

#[test]
fn part_of_the_window_that_the_game_draws_in() {
    let client = Sides { left: 0, top: 0, right: 1280, bottom: 720 };
    let window = Sides { left: 100, top: 50, right: 1400, bottom: 800 };
    assert_eq!(client_area(client, (108, 81), window), (8, 31, 1280, 720));
    assert_eq!(client_area(client, (90, 50), window), (0, 0, 1280, 720));
    let odd = Sides { left: 5, top: 0, right: 0, bottom: 720 };
    assert_eq!(client_area(odd, (0, 0), window).2, (-5i32) as u32);
}

#[test]
fn frames_of_a_capture() {
    let mut v = Vision::start(4);
    assert_eq!(v.epoch, 5);
    assert_eq!(v.dimensions(), (0, 0));
    assert_eq!(v.await_frame(0), FirstFrame::Again { looks: 1 });
    assert_eq!(v.await_frame(199), FirstFrame::GiveUp);
    assert!(v.on_frame_arrived(5, &[1, 2, 3, 255, 4, 5, 6, 255, 7, 8, 9, 0], 3, 1));
    assert_eq!(v.await_frame(7), FirstFrame::Come);
    assert_eq!(v.dimensions(), (3, 1));
    let img = v.shot().unwrap();
    assert_eq!((img.width, img.height), (3, 1));
    assert_eq!(img.data, vec![1, 2, 3, 4, 5, 6, 7, 8, 9]);
    v.stop();
    assert_eq!(v.epoch, 6);
    assert!(!v.on_frame_arrived(5, &[0; 4], 1, 1));
    assert_eq!(v.dimensions(), (3, 1));
    assert!(v.on_frame_arrived(6, &[1, 2, 3, 4], 2, 1));
    assert!(v.shot().is_none());
    assert_eq!(Vision::start(u64::MAX).epoch, 0);
}

#[test]
fn powers_of_two() {
    for n in 1..5000u32 {
        assert_eq!(next_pow2(n), n.next_power_of_two());
    }
    assert_eq!(next_pow2(0x8000_0000), 0x8000_0000);
    assert_eq!(next_pow2(0x4000_0001), 0x8000_0000);
}

#[test]
fn plan_of_a_search() {
    let p = NccPlan::new(10, 8, 3, 2, None).unwrap();
    assert_eq!((p.left, p.top, p.width, p.height), (0, 0, 10, 8));
    assert_eq!((p.cols, p.rows), (16, 16));
    let p = NccPlan::new(10, 8, 3, 2, Some((4, 5, 100, 100))).unwrap();
    assert_eq!((p.left, p.top, p.width, p.height), (4, 5, 6, 3));
    assert_eq!((p.cols, p.rows), (8, 4));
    assert!(NccPlan::new(10, 8, 7, 2, Some((4, 5, 100, 100))).is_none());
    assert!(NccPlan::new(10, 8, 1, 1, Some((10, 0, 5, 5))).is_none());
    assert!(NccPlan::new(10, 8, 11, 1, None).is_none());
}

#[test]
fn sums_of_a_window() {
    let img = picture(5, 4);
    let p = NccPlan::new(5, 4, 1, 1, Some((1, 2, 2, 2))).unwrap();
    assert_eq!(window_sums(&img, &p), vec![1 + 2 + 2, 2 + 2 + 4, 1 + 3 + 3, 2 + 3 + 6]);
}

#[test]
fn grids_are_laid_out() {
    let d = vec![1, 2, 3, 4, 5, 6];
    assert_eq!(lay_out(&d, 3, 2, 4, 3, false), vec![1, 2, 3, 0, 4, 5, 6, 0, 0, 0, 0, 0]);
    assert_eq!(lay_out(&d, 3, 2, 4, 3, true), vec![6, 5, 4, 0, 3, 2, 1, 0, 0, 0, 0, 0]);
    let once = lay_out(&d, 3, 2, 3, 2, true);
    assert_eq!(lay_out(&once, 3, 2, 3, 2, true), d);
}

#[test]
fn peak_of_a_correlation() {
    let p = NccPlan::new(4, 3, 2, 2, Some((0, 0, 4, 3))).unwrap();
    assert_eq!((p.cols, p.rows), (8, 4));
    let mut a = vec![0f64; 32];
    a[8 + 1] = -1.0;
    a[8 + 2] = 5.0;
    a[2 * 8 + 3] = 5.0;
    a[0] = 100.0;
    let bits: Vec<u64> = a.iter().map(|x| x.to_bits()).collect();
    assert_eq!(find_peak(&bits, &p), Peak { x: 2, y: 1, at: Some(10) });
    let nan: Vec<u64> = a.iter().map(|_| f64::NAN.to_bits()).collect();
    assert_eq!(find_peak(&nan, &p), Peak { x: 1, y: 1, at: None });
    let p = NccPlan::new(40, 30, 2, 2, Some((10, 20, 4, 3))).unwrap();
    assert_eq!(find_peak(&bits, &p), Peak { x: 12, y: 21, at: Some(10) });
}

#[test]
fn double_keys_are_in_order() {
    let xs = [
        -1e300f64, -1.5, -1.0, -1e-310, -0.0, 0.0, 1e-310, 0.5, 1.0, 1e300, f64::INFINITY,
    ];
    for a in xs {
        for b in xs {
            let (ka, kb) = (key_of_double(a.to_bits()).unwrap(), key_of_double(b.to_bits()).unwrap());
            assert_eq!(ka > kb, a > b);
            assert_eq!(ka == kb, a == b);
        }
    }
    assert_eq!(key_of_double(f64::NAN.to_bits()), None);
    assert_eq!(key_of_double((-f64::NAN).to_bits()), None);
    assert_eq!(key_of_double(f64::NEG_INFINITY.to_bits()), None);
}

#[test]
fn single_keys_are_in_total_order() {
    let xs = [
        f32::NAN, -f32::NAN, f32::INFINITY, f32::NEG_INFINITY, 0.0, -0.0, 1.0, -1.0, 1e-40, -1e-40,
        0.55, 0.56,
    ];
    for a in xs {
        for b in xs {
            let (ka, kb) = (key_of_single(a.to_bits()), key_of_single(b.to_bits()));
            assert_eq!(ka < kb, a.total_cmp(&b).is_lt());
            assert_eq!(ka == kb, a.total_cmp(&b).is_eq());
        }
    }
}

#[test]
fn first_of_the_largest() {
    assert_eq!(argmax(&vec![]), None);
    assert_eq!(argmax(&vec![None, None]), None);
    assert_eq!(argmax(&vec![None, Some(-3), Some(7), None, Some(7)]), Some(2));
}

#[test]
fn rankings_are_stable() {
    assert_eq!(rank(&vec![3, 9, 3, 10, 9]), vec![3, 1, 4, 0, 2]);
    assert_eq!(rank(&vec![]), Vec::<usize>::new());
}

fn line(s: &str) -> OcrLine {
    OcrLine { text: s.to_string(), score: 0, x: 1, y: 2, w: 3, h: 4 }
}

#[test]
fn lines_of_text_are_joined() {
    assert_eq!(ocr_text(&vec![line("一"), line("二")]), "一\n二");
    assert_eq!(ocr_text(&vec![]), "");
    assert_eq!(texts_of(&vec![line("a")]), vec!["a"]);
}

#[test]
fn picture_that_is_too_large_needs_no_size() {
    assert!(NccPlan::new(10, 8, 0, 9, None).is_none());
    assert!(NccPlan::new(10, 8, 11, 0, None).is_none());
}
