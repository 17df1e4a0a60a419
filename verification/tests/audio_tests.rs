use elysium::audio::{
    disable_all, enabled, ensure_started, get_switch, maybe_spawn, maybe_stop, set_switch,
    Switchboard,
};
use elysium::input::PadCommand;
use elysium::listen::{
    decode, longest, mix_format, pairs, peak_of, peak_window, templates, Hop, MixFormat, Packet,
    Stream, Trigger, FLOAT_FORMAT, INTEGER_FORMAT,
};

#[test]
fn switches_are_off_until_turned_on() {
    let mut b = Switchboard::new();
    assert!(!get_switch(&b, "dodge"));
    assert!(!set_switch(&mut b, "dodge", true));
    assert!(get_switch(&b, "dodge"));
    assert!(!get_switch(&b, "counter"));
    set_switch(&mut b, "dodge", false);
    assert!(!get_switch(&b, "dodge"));
    assert_eq!(b.switches.len(), 1);
}

#[test]
fn listener_starts_when_it_knows_what_to_listen_for() {
    let mut b = Switchboard::new();
    ensure_started(&mut b, &vec!["dodge", "counter", "dodge"]);
    assert_eq!(b.switches, vec![("dodge".to_string(), false), ("counter".to_string(), false)]);
    assert!(b.prepared && !b.monitor && !b.rebuild);
    assert!(!set_switch(&mut b, "dodge", false));
    assert!(set_switch(&mut b, "dodge", true));
    assert!(b.monitor && !b.rebuild);
    assert!(!set_switch(&mut b, "counter", true));
    assert!(b.rebuild);
    assert!(!maybe_spawn(&mut b));
    assert_eq!(enabled(&b, &vec!["counter", "x", "dodge"]), vec![0, 2]);
}

#[test]
fn known_switches_keep_their_positions() {
    let mut b = Switchboard::new();
    set_switch(&mut b, "dodge", true);
    ensure_started(&mut b, &vec!["counter", "dodge"]);
    assert!(get_switch(&b, "dodge"));
    assert!(!get_switch(&b, "counter"));
    assert_eq!(b.switches.len(), 2);
    assert!(maybe_spawn(&mut b));
}

#[test]
fn listener_stops_when_all_is_off() {
    let mut b = Switchboard::new();
    ensure_started(&mut b, &vec!["dodge", "counter"]);
    assert!(!maybe_stop(&mut b));
    set_switch(&mut b, "dodge", true);
    set_switch(&mut b, "counter", true);
    assert!(!maybe_stop(&mut b));
    assert!(b.monitor);
    assert!(disable_all(&mut b));
    assert!(!b.monitor);
    assert!(!get_switch(&b, "dodge") && !get_switch(&b, "counter"));
    assert!(!disable_all(&mut b));
    assert_eq!(enabled(&b, &vec!["dodge", "counter"]), Vec::<usize>::new());
}

#[test]
fn formats_of_the_stream() {
    let f = mix_format(3, 0, 48000, 2, 32).unwrap();
    assert_eq!(f, MixFormat { sample_rate: 48000, channels: 2, bytes_per_sample: 4, is_float: true });
    assert!(!mix_format(1, 0, 44100, 1, 16).unwrap().is_float);
    assert!(mix_format(0xFFFE, FLOAT_FORMAT, 1, 1, 32).unwrap().is_float);
    assert!(!mix_format(0xFFFE, INTEGER_FORMAT, 1, 1, 16).unwrap().is_float);
    assert_eq!(mix_format(0xFFFE, 0, 1, 1, 32), None);
    assert_eq!(mix_format(2, FLOAT_FORMAT, 1, 1, 32), None);
}

#[test]
fn packets_are_decoded() {
    let f = MixFormat { sample_rate: 1, channels: 2, bytes_per_sample: 4, is_float: true };
    let mut bytes = vec![];
    for x in [1.5f32, -2.0, 0.25, 3.0] {
        bytes.extend(x.to_le_bytes());
    }
    match decode(&bytes, 2, &f) {
        Packet::Floats(w) => {
            let back: Vec<f32> = w.iter().map(|b| f32::from_bits(*b)).collect();
            assert_eq!(back, vec![1.5, -2.0, 0.25, 3.0]);
        }
        _ => panic!(),
    }
    let f = MixFormat { sample_rate: 1, channels: 1, bytes_per_sample: 2, is_float: false };
    match decode(&[0xFF, 0xFF, 0x00, 0x80], 2, &f) {
        Packet::Integers(w) => {
            let back: Vec<i16> = w.iter().map(|b| *b as u16 as i16).collect();
            assert_eq!(back, vec![-1, -32768]);
        }
        _ => panic!(),
    }
    let f = MixFormat { sample_rate: 1, channels: 1, bytes_per_sample: 3, is_float: false };
    assert!(matches!(decode(&[1, 2, 3], 1, &f), Packet::Silence));
}

#[test]
fn stream_has_steps_and_pieces() {
    for rate in [8000u32, 11025, 22050, 32000, 44100, 48000, 96000, 192000, 12345] {
        let s = Stream::new(rate);
        assert_eq!(s.step, (0.05f64 * rate as f64) as usize);
        assert_eq!(s.piece, (3200f64 * rate as f64 / 32000f64).ceil() as usize);
    }
}

#[test]
fn stream_is_looked_at_step_by_step() {
    let mut s = Stream::new(1000);
    assert_eq!((s.step, s.piece), (50, 100));
    assert_eq!(s.take(60, 2), Hop::Wait);
    assert_eq!(s.since, 60);
    assert_eq!(s.take(60, 2), Hop::Look { start: 20 });
    assert_eq!((s.held, s.since), (120, 0));
    assert_eq!(s.trim(), 0);
    assert_eq!(s.take(40, 2), Hop::Wait);
    assert_eq!(s.take(200, 2), Hop::Look { start: 260 });
    assert_eq!(s.trim(), 260);
    assert_eq!(s.held, 100);
    assert_eq!(s.take(50, 0), Hop::Wait);
    assert_eq!((s.held, s.since), (150, 0));
}

#[test]
fn sounds_go_in_pairs() {
    assert_eq!(pairs(0), vec![]);
    assert_eq!(pairs(1), vec![(0, None)]);
    assert_eq!(pairs(2), vec![(0, Some(1))]);
    assert_eq!(pairs(5), vec![(0, Some(1)), (2, Some(3)), (4, None)]);
}

#[test]
fn longest_sound() {
    assert_eq!(longest(&vec![5, 9, 7], &vec![0, 2]), 7);
    assert_eq!(longest(&vec![5, 9, 7], &vec![]), 1);
}

#[test]
fn places_of_a_correlation() {
    assert_eq!(peak_window(10, 0), None);
    assert_eq!(peak_window(10, 30), Some((9, 29)));
    assert_eq!(peak_window(10, 10), Some((9, 9)));
    assert_eq!(peak_window(30, 10), Some((0, 20)));
}

#[test]
fn peak_of_a_sound() {
    let words = |xs: &[f32]| -> Vec<u32> { xs.iter().map(|x| x.to_bits()).collect() };
    let w = words(&[9.0, -1.0, 3.0, 2.5, 3.0, 8.0]);
    assert_eq!(peak_of(&w, 2, 5), Some(2));
    assert_eq!(peak_of(&w, 5, 2), Some(0));
    assert_eq!(peak_of(&w, 6, 6), Some(5));
    assert_eq!(peak_of(&w, 2, 0), None);
    assert_eq!(peak_of(&words(&[0.0, -1.0, f32::NAN, -0.0]), 1, 4), None);
    assert_eq!(peak_of(&words(&[f32::INFINITY, 1.0]), 1, 2), Some(0));
}

#[test]
fn sounds_that_are_listened_for() {
    let list = templates();
    assert_eq!(list.len(), 2);
    assert_eq!(list[0].name, "dodge");
    assert_eq!(list[0].path, "nte/sounds/dodge.wav");
    assert_eq!(list[0].threshold as f64 / 10000., 0.16);
    assert_eq!((list[0].delay, list[0].cooldown), (0, 550_000));
    assert_eq!(list[1].name, "counter");
    assert_eq!(list[1].path, "nte/sounds/counter.wav");
    assert_eq!(list[1].threshold as f64 / 10000., 0.35);
    assert_eq!((list[1].delay, list[1].cooldown), (100_000, 1_000_000));
    assert_eq!(list[0].action[0], PadCommand::Click { button: 0x0200, hold: 33_400, post: 33_400 });
    assert_eq!(list[1].action[1], PadCommand::Click { button: 0x4000, hold: 200_000, post: 0 });
}

#[test]
fn sound_counts_again_behind_its_cooldown() {
    let mut t = Trigger::new(550_000);
    assert!(!t.fire(10, false, true));
    assert!(!t.fire(10, true, false));
    assert!(t.fire(10, true, true));
    assert!(!t.fire(550_000_009, true, true));
    assert!(t.fire(550_000_010, true, true));
    assert_eq!(t.last, Some(550_000_010));
}

#[test]
fn names_of_switches_stay_different() {
    let mut b = Switchboard::new();
    ensure_started(&mut b, &vec!["dodge", "counter", "dodge"]);
    set_switch(&mut b, "counter", true);
    set_switch(&mut b, "other", false);
    set_switch(&mut b, "other", true);
    disable_all(&mut b);
    let names: Vec<&str> = b.switches.iter().map(|p| p.0.as_str()).collect();
    assert_eq!(names, vec!["dodge", "counter", "other"]);
}
