//! The listener: how the sound stream is read and cut into pieces, where the
//! sounds are looked for in it, and when an action follows. Times are in
//! microseconds unless a name says otherwise.

use vstd::prelude::*;
use crate::input::{PadCommand, RB, X};
use crate::order::{argmax, first_largest, key_of_positive, positive_key};
use crate::teleport::{counter_action, dodge_action, double_click};
use crate::wav::{read_words, words};

verus! {

// ---------------------------------------------------------------------------
// The stream
// ---------------------------------------------------------------------------

/// The rate to which every sound is brought, in samples in a second.
pub const WORK_RATE: u32 = 32000;

/// The time that an idle listener waits.
pub const POLL: u64 = 5000;

/// The number of samples, at the work rate, in which a sound is looked for:
/// those of a tenth of a second.
pub const STREAM_WORK: usize = 3200;

/// How the samples of the stream are written.
#[derive(Debug, Clone, Copy, PartialEq, Eq, Structural)]
pub struct MixFormat {
    pub sample_rate: u32,
    pub channels: u16,
    pub bytes_per_sample: usize,
    pub is_float: bool,
}

/// The format that stands for floats in an extended format.
pub const FLOAT_FORMAT: u128 = 0x00000003_0000_0010_8000_00aa00389b71;

/// The format that stands for integers in an extended format.
pub const INTEGER_FORMAT: u128 = 0x00000001_0000_0010_8000_00aa00389b71;

/// Whether the samples of the stream are floats, by the tag of the format and
/// the format that an extended format names; nothing if they are neither floats
/// nor integers.
pub open spec fn stream_kind(tag: u32, extension: u128) -> Option<bool> {
    if tag == 3 || (tag == 0xFFFE && extension == FLOAT_FORMAT) {
        Some(true)
    } else if tag == 1 || (tag == 0xFFFE && extension == INTEGER_FORMAT) {
        Some(false)
    } else {
        None
    }
}

/// The format of the stream, if it is understood.
pub fn mix_format(tag: u32, extension: u128, rate: u32, channels: u16, bits: u16) -> (r: Option<
    MixFormat,
>)
    ensures
        r == match stream_kind(tag, extension) {
            Some(is_float) => Some(
                MixFormat {
                    sample_rate: rate,
                    channels,
                    bytes_per_sample: (bits / 8) as usize,
                    is_float,
                },
            ),
            None => None,
        },
{
    let is_float: bool = if tag == 3 {
        true
    } else if tag == 1 {
        false
    } else if tag == 0xFFFE {
        if extension == FLOAT_FORMAT {
            true
        } else if extension == INTEGER_FORMAT {
            false
        } else {
            return None;
        }
    } else {
        return None;
    };
    Some(
        MixFormat { sample_rate: rate, channels, bytes_per_sample: (bits / 8) as usize, is_float },
    )
}

/// What the bytes of a packet are.
pub enum Packet {
    /// Floats of single precision, each as its bits.
    Floats(Vec<u32>),
    /// Integers of 16 bits, each as its bits.
    Integers(Vec<u32>),
    /// Samples that are not understood, and count as silence.
    Silence,
}

/// Reads a packet of `frames` frames: the samples of each frame one behind the
/// other.
pub fn decode(bytes: &[u8], frames: usize, f: &MixFormat) -> (r: Packet)
    requires
        frames * f.channels * f.bytes_per_sample <= bytes@.len(),
    ensures
        match r {
            Packet::Floats(w) => f.is_float && f.bytes_per_sample == 4 && w@ == words(
                bytes@,
                frames * f.channels,
                true,
            ),
            Packet::Integers(w) => !f.is_float && f.bytes_per_sample == 2 && w@ == words(
                bytes@,
                frames * f.channels,
                false,
            ),
            Packet::Silence => !(f.is_float && f.bytes_per_sample == 4) && !(!f.is_float
                && f.bytes_per_sample == 2),
        },
{
    assert(bytes.len() == bytes@.len());
    assert(bytes@.skip(0) =~= bytes@);
    let wide: bool = f.is_float && f.bytes_per_sample == 4;
    let narrow: bool = !f.is_float && f.bytes_per_sample == 2;
    if !wide && !narrow {
        return Packet::Silence;
    }
    proof {
        let n = frames * f.channels;
        assert(wide ==> n * f.bytes_per_sample == 4 * n) by (nonlinear_arith)
            requires
                wide ==> f.bytes_per_sample == 4,
        ;
        assert(narrow ==> n * f.bytes_per_sample == 2 * n) by (nonlinear_arith)
            requires
                narrow ==> f.bytes_per_sample == 2,
        ;
        assert(n >= 0) by (nonlinear_arith)
            requires
                n == frames * f.channels,
        ;
    }
    let n: usize = frames * (f.channels as usize);
    let list: Vec<u32> = read_words(bytes, 0, n, wide);
    if wide {
        Packet::Floats(list)
    } else {
        Packet::Integers(list)
    }
}

/// The stream as far as it was read: how many samples there are, how many of
/// them came since the last look, and how long a step and a piece are, in
/// samples of the stream.
#[derive(Debug, Clone, Copy, PartialEq, Eq)]
pub struct Stream {
    pub step: usize,
    pub piece: usize,
    pub held: usize,
    pub since: usize,
}

/// What follows from a packet.
#[derive(Debug, Clone, Copy, PartialEq, Eq, Structural)]
pub enum Hop {
    /// Read on.
    Wait,
    /// Look for the sounds in the samples from this place on.
    Look { start: usize },
}

/// The stream behind a packet of `frames` frames, and whether it is time for a
/// look: a step has come since the last one, and a piece is there.
pub open spec fn after_packet(s: Stream, frames: int) -> (Stream, bool) {
    let due = s.since + frames >= s.step && s.held + frames >= s.piece;
    let since = if due {
        0
    } else {
        s.since + frames
    };
    (Stream { held: (s.held + frames) as usize, since: since as usize, ..s }, due)
}

/// How many samples at the front are dropped behind a look: all but a piece, once
/// there are more than a piece and four steps.
pub open spec fn superfluous(s: Stream) -> int {
    if s.held > s.piece + 4 * s.step {
        s.held - s.piece
    } else {
        0
    }
}

/// The stream behind a look.
pub open spec fn trimmed(s: Stream) -> Stream {
    Stream { held: (s.held - superfluous(s)) as usize, ..s }
}

impl Stream {
    /// There are as many samples as came since the last look, or more.
    pub open spec fn wf(self) -> bool {
        self.since <= self.held
    }

    /// An empty stream with the given rate: a step is a twentieth of a second,
    /// and a piece a tenth.
    pub fn new(rate: u32) -> (s: Self)
        ensures
            s.wf(),
            s.step == rate as int / 20,
            s.piece == (rate + 9) / 10,
            s.held == 0,
            s.since == 0,
    {
        let rest: usize = if rate % 10 == 0 {
            0
        } else {
            1
        };
        Stream {
            step: (rate / 20) as usize,
            piece: (rate / 10) as usize + rest,
            held: 0,
            since: 0,
        }
    }

    /// Takes a packet of `frames` frames, each of which gives one sample. The
    /// sounds are looked for, if there are any, as soon as a step has come since
    /// the last look and a piece is there.
    pub fn take(&mut self, frames: usize, sounds: usize) -> (r: Hop)
        requires
            old(self).wf(),
            old(self).held + frames <= usize::MAX,
        ensures
            final(self).wf(),
            *final(self) == after_packet(*old(self), frames as int).0,
            r == (if after_packet(*old(self), frames as int).1 && sounds > 0 {
                Hop::Look { start: start_of(*final(self)) as usize }
            } else {
                Hop::Wait
            }),
    {
        self.held = self.held + frames;
        self.since = self.since + frames;
        if self.since < self.step || self.held < self.piece {
            return Hop::Wait;
        }
        self.since = 0;
        if sounds == 0 {
            return Hop::Wait;
        }
        let length: usize = if self.piece > self.step {
            self.piece
        } else {
            self.step
        };
        let start: usize = if self.held > length {
            self.held - length
        } else {
            0
        };
        Hop::Look { start }
    }

    /// Behind a look: the number of samples at the front that are not needed any
    /// more. They are dropped once a piece and four steps are there.
    pub fn trim(&mut self) -> (dropped: usize)
        requires
            old(self).wf(),
            old(self).since == 0,
            old(self).piece + 4 * old(self).step <= usize::MAX,
        ensures
            final(self).wf(),
            dropped == superfluous(*old(self)),
            *final(self) == trimmed(*old(self)),
    {
        if self.held > self.piece + self.step * 4 {
            let dropped: usize = self.held - self.piece;
            self.held = self.piece;
            dropped
        } else {
            0
        }
    }
}

/// Where the samples begin that a look goes over: the last piece, or the last
/// step if that is longer.
pub open spec fn start_of(s: Stream) -> int {
    let length = if s.piece > s.step {
        s.piece
    } else {
        s.step
    };
    if s.held > length {
        s.held - length
    } else {
        0
    }
}

/// What is left behind a look is a piece at least and never more than a piece
/// and four steps; it lies at the end of what was there, and the next look comes
/// as soon as a step has come.
pub proof fn law_piece_is_kept(s: Stream, frames: int)
    requires
        s.wf(),
        s.since == 0,
        s.held >= s.piece,
        0 <= frames,
        s.held + frames <= usize::MAX,
    ensures
        trimmed(s).held >= s.piece,
        trimmed(s).held <= s.piece + 4 * s.step,
        superfluous(s) + trimmed(s).held == s.held,
        after_packet(trimmed(s), frames).1 <==> frames >= s.step,
{
}

/// A look goes over samples that are there: a whole piece of them at least.
pub proof fn law_look_is_filled(s: Stream, frames: int)
    requires
        s.wf(),
        0 <= frames,
        s.held + frames <= usize::MAX,
        after_packet(s, frames).1,
    ensures
        0 <= start_of(after_packet(s, frames).0) <= s.held + frames - s.piece,
{
}

/// The sounds are compared with the stream in pairs: the places of the sounds
/// that go together.
pub fn pairs(n: usize) -> (r: Vec<(usize, Option<usize>)>)
    ensures
        r@.len() == (n + 1) / 2,
        forall|k: int|
            0 <= k < r@.len() ==> (#[trigger] r@[k]).0 == 2 * k && r@[k].1 == (if 2 * k + 1 < n {
                Some((2 * k + 1) as usize)
            } else {
                None
            }),
{
    let mut r: Vec<(usize, Option<usize>)> = Vec::new();
    let mut i: usize = 0;
    while i < n
        invariant
            i <= n,
            i < n ==> i == 2 * r@.len(),
            i == n ==> r@.len() == (n + 1) / 2,
            forall|k: int|
                0 <= k < r@.len() ==> (#[trigger] r@[k]).0 == 2 * k && r@[k].1 == (if 2 * k + 1
                    < n {
                    Some((2 * k + 1) as usize)
                } else {
                    None
                }),
        decreases n - i,
    {
        if n - i >= 2 {
            r.push((i, Some(i + 1)));
            i += 2;
        } else {
            r.push((i, None));
            i += 1;
        }
    }
    r
}

/// The length of the longest sound among those that are listened for; one if
/// there is none.
pub open spec fn is_longest(lengths: Seq<usize>, places: Seq<usize>, n: usize) -> bool {
    if places.len() == 0 {
        n == 1
    } else {
        &&& exists|k: int| 0 <= k < places.len() && lengths[(#[trigger] places[k]) as int] == n
        &&& forall|k: int| 0 <= k < places.len() ==> lengths[(#[trigger] places[k]) as int] <= n
    }
}

/// The length of the longest sound among those that are listened for.
pub fn longest(lengths: &Vec<usize>, places: &Vec<usize>) -> (n: usize)
    requires
        forall|k: int| 0 <= k < places@.len() ==> (#[trigger] places@[k]) < lengths@.len(),
    ensures
        is_longest(lengths@, places@, n),
{
    if places.len() == 0 {
        return 1;
    }
    let mut n: usize = lengths[places[0]];
    let mut i: usize = 1;
    assert(lengths@[places@[0] as int] == n);
    while i < places.len()
        invariant
            1 <= i <= places@.len(),
            forall|k: int| 0 <= k < places@.len() ==> (#[trigger] places@[k]) < lengths@.len(),
            exists|k: int| 0 <= k < i && lengths@[(#[trigger] places@[k]) as int] == n,
            forall|k: int| 0 <= k < i ==> lengths@[(#[trigger] places@[k]) as int] <= n,
        decreases places@.len() - i,
    {
        let m: usize = lengths[places[i]];
        assert(lengths@[places@[i as int] as int] == m);
        if m > n {
            n = m;
        }
        i += 1;
    }
    n
}

/// The places at which a sound of `sound` samples can begin or end in a piece of
/// `piece` samples, as the places of the correlation that count: from the first
/// to the last. None if there is no piece.
pub open spec fn peak_places(sound: int, piece: int) -> Option<(int, int)> {
    if piece == 0 {
        None
    } else if piece >= sound {
        Some((sound - 1, piece - 1))
    } else {
        Some((0, sound - piece))
    }
}

/// The places of the correlation that count.
pub fn peak_window(sound: usize, piece: usize) -> (r: Option<(usize, usize)>)
    requires
        piece > 0 ==> sound > 0,
    ensures
        peak_places(sound as int, piece as int) == match r {
            Some((a, b)) => Some((a as int, b as int)),
            None => None,
        },
{
    if piece == 0 {
        None
    } else if piece >= sound {
        Some((sound - 1, piece - 1))
    } else {
        Some((0, sound - piece))
    }
}

/// The places that count lie inside the correlation of a piece with a sound
/// that is no longer than the longest.
pub proof fn law_peak_places_exist(sound: int, piece: int, common: int)
    requires
        0 < sound,
        0 < piece,
        piece + sound <= common,
    ensures
        peak_places(sound, piece) matches Some((first, last)) && 0 <= first <= last < common,
{
}

/// The keys of the correlation at the places that count.
pub open spec fn window_keys(words: Seq<u32>, first: int, last: int) -> Seq<Option<i64>> {
    Seq::new((last - first + 1) as nat, |k: int| positive_key(words[first + k]))
}

/// A place that is counted from another one.
pub open spec fn moved(place: Option<usize>, first: int) -> Option<usize> {
    match place {
        Some(k) => Some((first + k) as usize),
        None => None,
    }
}

/// Whether the likeness of a sound stands at a place of the correlation: the
/// first of the largest values above zero, among the places that count.
pub open spec fn is_loudest(words: Seq<u32>, sound: int, piece: int, at: Option<usize>) -> bool {
    match peak_places(sound, piece) {
        None => at is None,
        Some((first, last)) => {
            let keys = window_keys(words, first, last);
            exists|best: Option<usize>|
                {
                    &&& #[trigger] first_largest(keys, keys.len() as int, best)
                    &&& at == moved(best, first)
                }
        },
    }
}

/// Where the likeness of a sound stands in a correlation, whose values are given
/// by their bits; nothing if none of them is above zero.
pub fn peak_of(words: &Vec<u32>, sound: usize, piece: usize) -> (at: Option<usize>)
    requires
        piece > 0 ==> sound > 0,
        piece >= sound ==> piece <= words@.len(),
        0 < piece < sound ==> sound - piece < words@.len(),
    ensures
        is_loudest(words@, sound as int, piece as int, at),
{
    let (first, last): (usize, usize) = match peak_window(sound, piece) {
        Some(p) => p,
        None => {
            return None;
        },
    };
    let ghost all = window_keys(words@, first as int, last as int);
    let mut keys: Vec<Option<i64>> = Vec::new();
    let mut i: usize = first;
    assert(words.len() == words@.len());
    while i <= last
        invariant
            first <= i <= last + 1,
            last < words@.len() <= usize::MAX,
            all == window_keys(words@, first as int, last as int),
            keys@.len() == i - first,
            forall|k: int| 0 <= k < keys@.len() ==> (#[trigger] keys@[k]) == all[k],
        decreases last + 1 - i,
    {
        keys.push(key_of_positive(words[i]));
        i += 1;
    }
    assert(keys@ =~= all);
    let best: Option<usize> = argmax(&keys);
    let at: Option<usize> = match best {
        Some(k) => Some(first + k),
        None => None,
    };
    assert(first_largest(all, all.len() as int, best));
    assert(at == moved(best, first as int));
    at
}

// ---------------------------------------------------------------------------
// Actions
// ---------------------------------------------------------------------------

/// A sound with the action that follows it: its name and file, the likeness
/// from which it counts in ten thousandths, the time before the action, and the
/// time that has to pass before it counts again.
pub struct TemplateConfig {
    pub name: &'static str,
    pub path: &'static str,
    pub threshold: u32,
    pub delay: u64,
    pub cooldown: u64,
    pub action: Vec<PadCommand>,
}

/// The sounds that are listened for.
pub fn templates() -> (r: Vec<TemplateConfig>)
    ensures
        r@.len() == 2,
        r@[0].name@ == "dodge"@,
        r@[0].path@ == "nte/sounds/dodge.wav"@,
        r@[0].threshold == 1600,
        r@[0].delay == 0,
        r@[0].cooldown == 550_000,
        r@[0].action@ == double_click(RB),
        r@[1].name@ == "counter"@,
        r@[1].path@ == "nte/sounds/counter.wav"@,
        r@[1].threshold == 3500,
        r@[1].delay == 100_000,
        r@[1].cooldown == 1_000_000,
        r@[1].action@ == double_click(X),
{
    vec![
        TemplateConfig {
            name: "dodge",
            path: "nte/sounds/dodge.wav",
            threshold: 1600,
            delay: 0,
            cooldown: 550_000,
            action: dodge_action(),
        },
        TemplateConfig {
            name: "counter",
            path: "nte/sounds/counter.wav",
            threshold: 3500,
            delay: 100_000,
            cooldown: 1_000_000,
            action: counter_action(),
        },
    ]
}

/// When a sound counts: the time that has to pass before it counts again, and
/// when it counted last, in nanoseconds.
#[derive(Debug, Clone, Copy, PartialEq, Eq)]
pub struct Trigger {
    pub cooldown: u64,
    pub last: Option<u128>,
}

/// Whether enough time has passed since a sound counted last.
pub open spec fn is_ready(t: Trigger, now: u128) -> bool {
    match t.last {
        Some(last) => now - last >= t.cooldown * 1000,
        None => true,
    }
}

/// Whether a sound counts at the time `now`, in nanoseconds: it is alike enough,
/// switched on, and did not count just before.
pub open spec fn counts(t: Trigger, now: u128, alike: bool, on: bool) -> bool {
    alike && on && is_ready(t, now)
}

/// What is known of a sound behind a look at the time `now`.
pub open spec fn after_look(t: Trigger, now: u128, alike: bool, on: bool) -> Trigger {
    if counts(t, now, alike, on) {
        Trigger { last: Some(now), ..t }
    } else {
        t
    }
}

impl Trigger {
    pub fn new(cooldown: u64) -> (t: Self)
        ensures
            t == (Trigger { cooldown, last: None }),
    {
        Trigger { cooldown, last: None }
    }

    /// Whether a sound counts at the time `now`, in nanoseconds: it is alike
    /// enough, switched on, and did not count just before. Its time is noted.
    pub fn fire(&mut self, now: u128, alike: bool, on: bool) -> (yes: bool)
        ensures
            yes == counts(*old(self), now, alike, on),
            *final(self) == after_look(*old(self), now, alike, on),
    {
        let ready: bool = match self.last {
            Some(last) => now >= last && now - last >= (self.cooldown as u128) * 1000,
            None => true,
        };
        if alike && ready && on {
            self.last = Some(now);
            true
        } else {
            false
        }
    }
}

/// A look at a time, and what it has shown: whether a sound is alike enough, and
/// whether it is switched on.
pub type Look = (u128, bool, bool);

/// What is known of a sound behind a row of looks.
pub open spec fn after_looks(t: Trigger, looks: Seq<Look>) -> Trigger
    decreases looks.len(),
{
    if looks.len() == 0 {
        t
    } else {
        let (now, alike, on) = looks.last();
        after_look(after_looks(t, looks.drop_last()), now, alike, on)
    }
}

/// Whether a sound counts in one of a row of looks.
pub open spec fn counted(t: Trigger, looks: Seq<Look>, i: int) -> bool {
    let (now, alike, on) = looks[i];
    counts(after_looks(t, looks.take(i)), now, alike, on)
}

/// Between any two looks in which a sound counts lies at least its cooldown.
pub proof fn law_cooldown_is_kept(t: Trigger, looks: Seq<Look>, i: int, j: int)
    requires
        0 <= i < j < looks.len(),
        counted(t, looks, i),
        counted(t, looks, j),
    ensures
        looks[j].0 >= looks[i].0 + t.cooldown * 1000,
{
    lemma_noted(t, looks, i, j);
}

/// What is noted behind a look in which a sound counted is its time, or a later
/// one.
proof fn lemma_noted(t: Trigger, looks: Seq<Look>, i: int, j: int)
    requires
        0 <= i < j <= looks.len(),
        counted(t, looks, i),
    ensures
        after_looks(t, looks.take(j)).cooldown == t.cooldown,
        after_looks(t, looks.take(j)).last matches Some(last) && last >= looks[i].0,
    decreases j - i,
{
    lemma_cooldown(t, looks.take(i));
    assert(looks.take(j).drop_last() =~= looks.take(j - 1));
    assert(looks.take(j).last() == looks[j - 1]);
    if j - 1 > i {
        lemma_noted(t, looks, i, j - 1);
    }
}

proof fn lemma_cooldown(t: Trigger, looks: Seq<Look>)
    ensures
        after_looks(t, looks).cooldown == t.cooldown,
    decreases looks.len(),
{
    if looks.len() > 0 {
        lemma_cooldown(t, looks.drop_last());
    }
}

// ---------------------------------------------------------------------------
// Laws of the stream and the sounds
// ---------------------------------------------------------------------------

/// A stream is understood when its samples are floats or integers, by its kind or,
/// if it is an extended one, by what the extension names.
pub proof fn law_streams_that_are_understood(tag: u32, extension: u128)
    ensures
        stream_kind(3, extension) == Some(true),
        stream_kind(1, extension) == Some(false),
        stream_kind(0xFFFE, 0x00000003_0000_0010_8000_00aa00389b71) == Some(true),
        stream_kind(0xFFFE, 0x00000001_0000_0010_8000_00aa00389b71) == Some(false),
        tag != 3 && tag != 1 && tag != 0xFFFE ==> stream_kind(tag, extension) is None,
        extension != 0x00000003_0000_0010_8000_00aa00389b71 && extension
            != 0x00000001_0000_0010_8000_00aa00389b71 ==> stream_kind(0xFFFE, extension) is None,
{
}

/// A packet is put behind the stream. It is time for a look exactly when a step has
/// come since the last one and a piece is there; the count of what came begins anew
/// with a look, and only then.
pub proof fn law_packets_are_counted(s: Stream, frames: int)
    requires
        s.wf(),
        0 <= frames,
        s.held + frames <= usize::MAX,
    ensures
        ({
            let (n, due) = after_packet(s, frames);
            &&& n.step == s.step
            &&& n.piece == s.piece
            &&& n.held == s.held + frames
            &&& due <==> s.since + frames >= s.step && s.held + frames >= s.piece
            &&& n.since == (if due {
                0
            } else {
                s.since + frames
            })
        }),
{
}

/// A look goes over the last piece, or the last step if that is longer, or all that
/// is there.
pub proof fn law_look_goes_over_the_end(s: Stream)
    ensures
        0 <= start_of(s) <= s.held,
        s.held >= s.piece && s.held >= s.step ==> s.held - start_of(s) == s.piece && s.piece
            >= s.step || s.held - start_of(s) == s.step && s.step > s.piece,
        s.held <= s.piece || s.held <= s.step ==> start_of(s) == 0,
        s.held > s.piece + 4 * s.step <==> superfluous(s) > 0 && trimmed(s).held == s.piece,
        s.held <= s.piece + 4 * s.step ==> superfluous(s) == 0 && trimmed(s) == s,
{
}

/// The longest sound is as long as one that is listened for, and none of them is
/// longer; without any it counts as one sample.
pub proof fn law_longest_sound(lengths: Seq<usize>, places: Seq<usize>, n: usize, k: int)
    requires
        is_longest(lengths, places, n),
        0 <= k < places.len(),
    ensures
        lengths[places[k] as int] <= n,
        exists|j: int| 0 <= j < places.len() && lengths[(#[trigger] places[j]) as int] == n,
        forall|m: usize| is_longest(lengths, Seq::empty(), m) <==> m == 1,
{
    assert(lengths[places[k] as int] <= n);
}

/// The places of a correlation that count: all in which the shorter of sound and
/// piece lies fully in the other. There are one more than their lengths differ by.
pub proof fn law_places_that_count(sound: int, piece: int)
    requires
        sound > 0,
        piece >= 0,
    ensures
        peak_places(sound, piece) is None <==> piece == 0,
        peak_places(sound, piece) matches Some((first, last)) ==> {
            &&& sound <= piece ==> first == sound - 1 && last - first == piece - sound
            &&& sound > piece ==> first == 0 && last - first == sound - piece
        },
{
}

/// The likeness of a sound is the largest value above zero at the places that
/// count, and of equal ones the first; there is none if no such value is there.
pub proof fn law_loudest_place(
    words: Seq<u32>,
    sound: int,
    piece: int,
    at: Option<usize>,
    first: int,
    last: int,
    k: int,
)
    requires
        is_loudest(words, sound, piece, at),
        peak_places(sound, piece) == Some((first, last)),
        0 <= first <= k <= last < words.len() <= usize::MAX,
    ensures
        0 < words[k] <= 0x7F80_0000 ==> {
            &&& at is Some
            &&& first <= at->0 <= last
            &&& words[k] <= words[at->0 as int] <= 0x7F80_0000
            &&& k < at->0 ==> words[k] < words[at->0 as int]
        },
        at matches Some(p) ==> first <= p <= last && 0 < words[p as int] <= 0x7F80_0000,
{
    let keys = window_keys(words, first, last);
    let best = choose|best: Option<usize>|
        {
            &&& #[trigger] first_largest(keys, keys.len() as int, best)
            &&& at == moved(best, first)
        };
    assert(keys[k - first] == positive_key(words[k]));
    if let Some(b) = best {
        assert(keys[b as int] == positive_key(words[first + b]));
    }
}

/// A sound counts exactly when it is alike enough, switched on, and its cooldown
/// has passed since it counted last; then its time is noted, and else nothing
/// changes.
pub proof fn law_sound_counts(t: Trigger, now: u128, alike: bool, on: bool)
    ensures
        counts(t, now, alike, on) <==> alike && on && (t.last matches Some(last) ==> now >= last
            + t.cooldown * 1000),
        counts(t, now, alike, on) ==> after_look(t, now, alike, on).last == Some(now),
        !counts(t, now, alike, on) ==> after_look(t, now, alike, on).last == t.last,
        after_look(t, now, alike, on).cooldown == t.cooldown,
{
}

/// Sounds are compared at 32000 samples in a second, over a tenth of a second, and
/// an idle listener looks for packets two hundred times in a second.
pub proof fn law_rates_of_the_listener()
    ensures
        WORK_RATE == 32_000,
        10 * STREAM_WORK == WORK_RATE,
        200 * POLL == 1_000_000,
{
}

} // verus!
