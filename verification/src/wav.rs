//! Sound files in the format WAV, and the words of sound streams.

use vstd::prelude::*;

verus! {

/// Two bytes as a number, the low byte first.
pub open spec fn le16(b: Seq<u8>, p: int) -> int {
    b[p] + 256 * b[p + 1]
}

/// Four bytes as a number, the low byte first.
pub open spec fn le32(b: Seq<u8>, p: int) -> int {
    le16(b, p) + 65536 * le16(b, p + 2)
}

fn read16(b: &[u8], p: usize) -> (n: u16)
    requires
        p + 2 <= b@.len(),
    ensures
        n == le16(b@, p as int),
{
    assert(b.len() == b@.len());
    b[p] as u16 + 256 * (b[p + 1] as u16)
}

fn read32(b: &[u8], p: usize) -> (n: u32)
    requires
        p + 4 <= b@.len(),
    ensures
        n == le32(b@, p as int),
{
    assert(b.len() == b@.len());
    read16(b, p) as u32 + 65536 * (read16(b, p + 2) as u32)
}

/// How the samples of a file are written: the kind of the samples, the number
/// of channels, the number of samples of a channel in a second, and the bits of
/// a sample.
#[derive(Debug, Clone, Copy, PartialEq, Eq, Structural)]
pub struct Format {
    pub tag: u16,
    pub channels: u16,
    pub rate: u32,
    pub bits: u16,
}

/// The format in the body of a format chunk, if the body is long enough. The
/// kind of an extended format is that which its extension names.
pub open spec fn format_in(body: Seq<u8>) -> Option<Format> {
    if body.len() < 16 {
        None
    } else {
        let tag = le16(body, 0);
        Some(
            Format {
                tag: (if tag == 0xFFFE && body.len() >= 40 {
                    le32(body, 24) % 65536
                } else {
                    tag
                }) as u16,
                channels: le16(body, 2) as u16,
                rate: le32(body, 4) as u32,
                bits: le16(body, 14) as u16,
            },
        )
    }
}

/// The body of the chunk at a place; empty if the file ends inside it.
pub open spec fn body_at(raw: Seq<u8>, pos: int) -> Seq<u8> {
    let size = le32(raw, pos + 4);
    if pos + 8 + size <= raw.len() {
        raw.subrange(pos + 8, pos + 8 + size)
    } else {
        seq![]
    }
}

/// Whether the chunk at a place has the given name.
pub open spec fn named(raw: Seq<u8>, pos: int, a: u8, b: u8, c: u8, d: u8) -> bool {
    raw[pos] == a && raw[pos + 1] == b && raw[pos + 2] == c && raw[pos + 3] == d
}

/// What the chunks from a place on say, when the chunks before have given
/// `format` and `data`: the last format and the last samples count. Nothing if
/// a format chunk is too short.
pub open spec fn scan(
    raw: Seq<u8>,
    pos: int,
    format: Option<Format>,
    data: Option<Seq<u8>>,
) -> Option<(Option<Format>, Option<Seq<u8>>)>
    decreases
            if pos <= raw.len() {
                raw.len() - pos
            } else {
                0
            },
{
    if pos < 0 || pos + 8 > raw.len() {
        Some((format, data))
    } else {
        let size = le32(raw, pos + 4);
        let next = pos + 8 + size + size % 2;
        let body = body_at(raw, pos);
        if named(raw, pos, 102, 109, 116, 32) {
            if format_in(body) is None {
                None
            } else {
                scan(raw, next, format_in(body), data)
            }
        } else if named(raw, pos, 100, 97, 116, 97) {
            scan(raw, next, format, Some(body))
        } else {
            scan(raw, next, format, data)
        }
    }
}

/// Why a file is not read.
#[derive(Debug, Clone, Copy, PartialEq, Eq, Structural)]
pub enum WavError {
    /// It is no WAV file.
    NotWav,
    /// It has no format.
    NoFormat,
    /// It has no samples.
    NoData,
    /// Its samples are of a kind that is not understood.
    Unsupported { tag: u16, bits: u16 },
    /// It ends too early, or its samples have no size.
    Broken,
}

/// The samples of a file: their rate, the number of channels, whether they are
/// floats or else integers, and the samples of each frame one behind the other,
/// each as the bits that it was written with.
pub struct Wav {
    pub rate: u32,
    pub channels: u16,
    pub is_float: bool,
    pub words: Vec<u32>,
}

/// The samples of a file as mathematical values.
pub struct WavView {
    pub rate: u32,
    pub channels: u16,
    pub is_float: bool,
    pub words: Seq<u32>,
}

impl View for Wav {
    type V = WavView;

    open spec fn view(&self) -> WavView {
        WavView {
            rate: self.rate,
            channels: self.channels,
            is_float: self.is_float,
            words: self.words@,
        }
    }
}

/// Whether the samples are floats of single precision.
pub open spec fn is_float(f: Format) -> bool {
    f.tag == 3 && f.bits == 32
}

/// Whether the samples are integers of 16 bits.
pub open spec fn is_integer(f: Format) -> bool {
    f.tag == 1 && f.bits == 16
}

/// The bits of the sample at a place of the data.
pub open spec fn word(data: Seq<u8>, i: int, wide: bool) -> u32 {
    (if wide {
        le32(data, 4 * i)
    } else {
        le16(data, 2 * i)
    }) as u32
}

/// The first samples of the data.
pub open spec fn words(data: Seq<u8>, n: int, wide: bool) -> Seq<u32> {
    Seq::new(n as nat, |i: int| word(data, i, wide))
}

/// The samples in the data of a file with the given format.
pub open spec fn samples(f: Format, data: Seq<u8>) -> Result<WavView, WavError> {
    let unit = f.channels * (f.bits as int / 8);
    if unit == 0 {
        Err(WavError::Broken)
    } else {
        let frames = data.len() as int / unit;
        if frames > 0 && !is_float(f) && !is_integer(f) {
            Err(WavError::Unsupported { tag: f.tag, bits: f.bits })
        } else {
            Ok(
                WavView {
                    rate: f.rate,
                    channels: f.channels,
                    is_float: is_float(f),
                    words: words(data, frames * f.channels, is_float(f)),
                },
            )
        }
    }
}

/// What a file holds.
pub open spec fn wav_in(raw: Seq<u8>) -> Result<WavView, WavError> {
    if raw.len() < 4 {
        Err(WavError::Broken)
    } else if !named(raw, 0, 82, 73, 70, 70) {
        Err(WavError::NotWav)
    } else if raw.len() < 12 {
        Err(WavError::Broken)
    } else if !named(raw, 8, 87, 65, 86, 69) {
        Err(WavError::NotWav)
    } else {
        match scan(raw, 12, None, None) {
            None => Err(WavError::Broken),
            Some((None, _)) => Err(WavError::NoFormat),
            Some((_, None)) => Err(WavError::NoData),
            Some((Some(f), Some(data))) => samples(f, data),
        }
    }
}

fn is_named(raw: &[u8], pos: usize, a: u8, b: u8, c: u8, d: u8) -> (yes: bool)
    requires
        pos + 4 <= raw@.len(),
    ensures
        yes == named(raw@, pos as int, a, b, c, d),
{
    assert(raw.len() == raw@.len());
    raw[pos] == a && raw[pos + 1] == b && raw[pos + 2] == c && raw[pos + 3] == d
}

/// The format in `raw[from..to]`.
fn read_format(raw: &[u8], from: usize, to: usize) -> (r: Option<Format>)
    requires
        from <= to <= raw@.len(),
    ensures
        r == format_in(raw@.subrange(from as int, to as int)),
{
    let ghost body = raw@.subrange(from as int, to as int);
    assert(raw.len() == raw@.len());
    if to - from < 16 {
        return None;
    }
    let tag: u16 = read16(raw, from);
    let channels: u16 = read16(raw, from + 2);
    let rate: u32 = read32(raw, from + 4);
    let bits: u16 = read16(raw, from + 14);
    let actual: u16 = if tag == 0xFFFE && to - from >= 40 {
        (read32(raw, from + 24) % 65536) as u16
    } else {
        tag
    };
    proof {
        assert(body[0] == raw@[from as int]);
        assert(body[1] == raw@[from + 1]);
        assert(body[2] == raw@[from + 2]);
        assert(body[3] == raw@[from + 3]);
        assert(body[4] == raw@[from + 4]);
        assert(body[5] == raw@[from + 5]);
        assert(body[6] == raw@[from + 6]);
        assert(body[7] == raw@[from + 7]);
        assert(body[14] == raw@[from + 14]);
        assert(body[15] == raw@[from + 15]);
        if body.len() >= 40 {
            assert(body[24] == raw@[from + 24]);
            assert(body[25] == raw@[from + 25]);
            assert(body[26] == raw@[from + 26]);
            assert(body[27] == raw@[from + 27]);
        }
    }
    Some(Format { tag: actual, channels, rate, bits })
}

/// The first `n` samples of `raw[from..]`.
pub fn read_words(raw: &[u8], from: usize, n: usize, wide: bool) -> (r: Vec<u32>)
    requires
        from + (if wide {
            4 * n
        } else {
            2 * n
        }) <= raw@.len(),
    ensures
        r@ == words(raw@.skip(from as int), n as int, wide),
{
    assert(raw.len() == raw@.len());
    let ghost data = raw@.skip(from as int);
    let mut r: Vec<u32> = Vec::new();
    let mut i: usize = 0;
    while i < n
        invariant
            i <= n,
            from + (if wide {
                4 * n
            } else {
                2 * n
            }) <= raw@.len() <= usize::MAX,
            data == raw@.skip(from as int),
            r@ == words(data, i as int, wide),
        decreases n - i,
    {
        let w: u32 = if wide {
            read32(raw, from + 4 * i)
        } else {
            read16(raw, from + 2 * i) as u32
        };
        r.push(w);
        proof {
            if wide {
                assert(data[4 * i] == raw@[from + 4 * i]);
                assert(data[4 * i + 1] == raw@[from + 4 * i + 1]);
                assert(data[4 * i + 2] == raw@[from + 4 * i + 2]);
                assert(data[4 * i + 3] == raw@[from + 4 * i + 3]);
            } else {
                assert(data[2 * i] == raw@[from + 2 * i]);
                assert(data[2 * i + 1] == raw@[from + 2 * i + 1]);
            }
            assert(r@ =~= words(data, i + 1, wide));
        }
        i += 1;
    }
    r
}

/// What a reading means.
pub open spec fn outcome(r: Result<Wav, WavError>) -> Result<WavView, WavError> {
    match r {
        Ok(w) => Ok(w@),
        Err(e) => Err(e),
    }
}

proof fn lemma_frames(len: nat, channels: int, size: int, frames: int)
    requires
        channels > 0,
        size > 0,
        frames == len as int / (channels * size),
    ensures
        frames >= 0,
        (frames * channels) * size <= len,
        frames * channels <= len,
{
    let unit = channels * size;
    assert(unit > 0) by (nonlinear_arith)
        requires
            unit == channels * size,
            channels > 0,
            size > 0,
    ;
    vstd::arithmetic::div_mod::lemma_fundamental_div_mod(len as int, unit);
    vstd::arithmetic::div_mod::lemma_mod_division_less_than_divisor(len as int, unit);
    vstd::arithmetic::div_mod::lemma_div_pos_is_pos(len as int, unit);
    assert((frames * channels) * size == unit * frames) by (nonlinear_arith)
        requires
            unit == channels * size,
    ;
    assert(frames * channels <= (frames * channels) * size) by (nonlinear_arith)
        requires
            size >= 1,
            frames >= 0,
            channels > 0,
    ;
}

fn read_samples(raw: &[u8], from: usize, to: usize, f: Format) -> (r: Result<Wav, WavError>)
    requires
        from <= to <= raw@.len(),
    ensures
        outcome(r) == samples(f, raw@.subrange(from as int, to as int)),
{
    let ghost data = raw@.subrange(from as int, to as int);
    assert(raw.len() == raw@.len());
    let size: u32 = (f.bits / 8) as u32;
    let channels: u32 = f.channels as u32;
    proof {
        assert(channels * size <= 65535 * 8191) by (nonlinear_arith)
            requires
                channels <= 65535,
                size <= 8191,
        ;
        assert(f.channels * (f.bits as int / 8) == channels * size);
    }
    let unit: u32 = channels * size;
    if unit == 0 {
        return Err(WavError::Broken);
    }
    let frames: usize = (to - from) / (unit as usize);
    let float: bool = f.tag == 3 && f.bits == 32;
    let integer: bool = f.tag == 1 && f.bits == 16;
    if frames > 0 && !float && !integer {
        return Err(WavError::Unsupported { tag: f.tag, bits: f.bits });
    }
    proof {
        assert(channels > 0 && size > 0) by (nonlinear_arith)
            requires
                unit == channels * size,
                unit > 0,
                channels >= 0,
                size >= 0,
        ;
        lemma_frames(data.len(), channels as int, size as int, frames as int);
    }
    let n: usize = frames * (channels as usize);
    let ghost tail = raw@.skip(from as int);
    if frames == 0 {
        proof {
            assert(0 * channels == 0) by (nonlinear_arith);
            assert(words(data, 0, float) =~= seq![]);
        }
        return Ok(Wav { rate: f.rate, channels: f.channels, is_float: float, words: Vec::new() });
    }
    proof {
        assert(size == (if float {
            4u32
        } else {
            2u32
        }));
        assert(n * size <= data.len());
        assert(float ==> n * size == 4 * n) by (nonlinear_arith)
            requires
                float ==> size == 4,
        ;
        assert(!float ==> n * size == 2 * n) by (nonlinear_arith)
            requires
                !float ==> size == 2,
        ;
    }
    let list: Vec<u32> = read_words(raw, from, n, float);
    proof {
        assert forall|i: int| 0 <= i < n implies word(tail, i, float) == word(data, i, float) by {
            if float {
                assert(tail[4 * i] == data[4 * i]);
                assert(tail[4 * i + 1] == data[4 * i + 1]);
                assert(tail[4 * i + 2] == data[4 * i + 2]);
                assert(tail[4 * i + 3] == data[4 * i + 3]);
            } else {
                assert(tail[2 * i] == data[2 * i]);
                assert(tail[2 * i + 1] == data[2 * i + 1]);
            }
        }
        assert(list@ =~= words(data, n as int, float));
    }
    Ok(Wav { rate: f.rate, channels: f.channels, is_float: float, words: list })
}

/// Reads a WAV file from its bytes.
pub fn load_wav(raw: &[u8]) -> (r: Result<Wav, WavError>)
    ensures
        outcome(r) == wav_in(raw@),
{
    assert(raw.len() == raw@.len());
    if raw.len() < 4 {
        return Err(WavError::Broken);
    }
    if !is_named(raw, 0, 82, 73, 70, 70) {
        return Err(WavError::NotWav);
    }
    if raw.len() < 12 {
        return Err(WavError::Broken);
    }
    if !is_named(raw, 8, 87, 65, 86, 69) {
        return Err(WavError::NotWav);
    }
    let len: usize = raw.len();
    let mut pos: usize = 12;
    let mut format: Option<Format> = None;
    let mut data: Option<(usize, usize)> = None;
    while len - pos >= 8
        invariant
            len == raw@.len(),
            len <= usize::MAX,
            12 <= pos <= len,
            named(raw@, 0, 82, 73, 70, 70),
            named(raw@, 8, 87, 65, 86, 69),
            data matches Some((a, b)) ==> a <= b <= len,
            scan(raw@, 12, None, None) == scan(raw@, pos as int, format, part_of(raw@, data)),
        decreases len - pos,
    {
        let ghost (at, format0, data0) = (pos as int, format, part_of(raw@, data));
        let size: u32 = read32(raw, pos + 4);
        let left: usize = len - pos - 8;
        let (from, to): (usize, usize) = if size as u64 <= left as u64 {
            (pos + 8, pos + 8 + size as usize)
        } else {
            (0, 0)
        };
        proof {
            assert(raw@.subrange(from as int, to as int) =~= body_at(raw@, pos as int));
        }
        if is_named(raw, pos, 102, 109, 116, 32) {
            format = read_format(raw, from, to);
            if format.is_none() {
                return Err(WavError::Broken);
            }
        } else if is_named(raw, pos, 100, 97, 116, 97) {
            data = Some((from, to));
        }
        let step: u64 = size as u64 + (size % 2) as u64;
        if step > left as u64 {
            pos = len;
        } else {
            pos = pos + 8 + step as usize;
        }
        proof {
            let next = at + 8 + size + size % 2;
            assert(scan(raw@, at, format0, data0) == scan(raw@, next, format, part_of(raw@, data)));
            assert(scan(raw@, next, format, part_of(raw@, data)) == scan(
                raw@,
                pos as int,
                format,
                part_of(raw@, data),
            ));
        }
    }
    let f: Format = match format {
        Some(f) => f,
        None => {
            return Err(WavError::NoFormat);
        },
    };
    match data {
        Some((from, to)) => read_samples(raw, from, to, f),
        None => Err(WavError::NoData),
    }
}

/// A part of the bytes.
spec fn part_of(raw: Seq<u8>, range: Option<(usize, usize)>) -> Option<Seq<u8>> {
    match range {
        Some((a, b)) => Some(raw.subrange(a as int, b as int)),
        None => None,
    }
}

impl WavError {
    /// The message that the user reads.
    pub open spec fn text(self) -> Seq<char> {
        match self {
            WavError::NotWav => "不是 WAV 文件"@,
            WavError::NoFormat => "缺少 fmt 块"@,
            WavError::NoData => "缺少 data 块"@,
            WavError::Unsupported { tag, bits } => "不支持的采样格式 tag="@ + crate::text::decimal(
                tag as nat,
            ) + " bits="@ + crate::text::decimal(bits as nat),
            WavError::Broken => "WAV 文件不完整"@,
        }
    }

    /// The message that the user reads.
    pub fn message(&self) -> (s: String)
        ensures
            s@ == self.text(),
    {
        match self {
            WavError::NotWav => "不是 WAV 文件".to_owned(),
            WavError::NoFormat => "缺少 fmt 块".to_owned(),
            WavError::NoData => "缺少 data 块".to_owned(),
            WavError::Unsupported { tag, bits } => {
                let mut s: String = "不支持的采样格式 tag=".to_owned();
                s.append(crate::text::decimal_text(*tag as u64).as_str());
                s.append(" bits=");
                s.append(crate::text::decimal_text(*bits as u64).as_str());
                s
            },
            WavError::Broken => "WAV 文件不完整".to_owned(),
        }
    }
}

// ---------------------------------------------------------------------------
// Laws
// ---------------------------------------------------------------------------

/// Numbers are written with the low byte first.
pub proof fn law_low_byte_first(b: Seq<u8>, p: int)
    ensures
        le16(b, p) == b[p] + 0x100 * b[p + 1],
        le32(b, p) == b[p] + 0x100 * b[p + 1] + 0x1_0000 * b[p + 2] + 0x100_0000 * b[p + 3],
{
}

/// A format has its kind in the first two bytes, then the number of channels and
/// the rate, and the bits of a sample at the end of sixteen bytes. The kind of an
/// extended format stands in its extension, if that is there.
pub proof fn law_format_by_bytes(body: Seq<u8>)
    ensures
        format_in(body) is Some <==> body.len() >= 16,
        format_in(body) matches Some(f) ==> {
            let tag = body[0] + 256 * body[1];
            &&& f.tag == (if tag == 0xFFFE && body.len() >= 40 {
                body[24] + 256 * body[25]
            } else {
                tag
            })
            &&& f.channels == body[2] + 256 * body[3]
            &&& f.rate == body[4] + 256 * body[5] + 65536 * body[6] + 16777216 * body[7]
            &&& f.bits == body[14] + 256 * body[15]
        },
{
}

/// The chunks of a file are gone through one by one: a chunk has four letters, the
/// length of its body and the body, and one byte more if that length is odd. Of the
/// format and of the samples the last count, and other chunks are passed over. A
/// body that the file does not have in full counts as empty.
pub proof fn law_chunks_one_by_one(
    raw: Seq<u8>,
    pos: int,
    format: Option<Format>,
    data: Option<Seq<u8>>,
)
    requires
        0 <= pos,
    ensures
        pos + 8 > raw.len() ==> scan(raw, pos, format, data) == Some((format, data)),
        pos + 8 <= raw.len() ==> {
            let size = raw[pos + 4] + 256 * raw[pos + 5] + 65536 * raw[pos + 6] + 16777216
                * raw[pos + 7];
            let next = pos + 8 + (if size % 2 == 1 {
                size + 1
            } else {
                size
            });
            let body = if pos + 8 + size <= raw.len() {
                raw.subrange(pos + 8, pos + 8 + size)
            } else {
                Seq::empty()
            };
            let name = raw.subrange(pos, pos + 4);
            &&& name == seq![102u8, 109u8, 116u8, 32u8] && body.len() < 16 ==> scan(
                raw,
                pos,
                format,
                data,
            ) is None
            &&& name == seq![102u8, 109u8, 116u8, 32u8] && body.len() >= 16 ==> scan(
                raw,
                pos,
                format,
                data,
            ) == scan(raw, next, format_in(body), data)
            &&& name == seq![100u8, 97u8, 116u8, 97u8] ==> scan(raw, pos, format, data) == scan(
                raw,
                next,
                format,
                Some(body),
            )
            &&& name != seq![102u8, 109u8, 116u8, 32u8] && name != seq![100u8, 97u8, 116u8, 97u8]
                ==> scan(raw, pos, format, data) == scan(raw, next, format, data)
        },
{
    if pos + 8 <= raw.len() {
        let name = raw.subrange(pos, pos + 4);
        assert(name == seq![102u8, 109u8, 116u8, 32u8] <==> named(raw, pos, 102, 109, 116, 32)) by {
            if named(raw, pos, 102, 109, 116, 32) {
                assert(name =~= seq![102u8, 109u8, 116u8, 32u8]);
            } else if name == seq![102u8, 109u8, 116u8, 32u8] {
                assert(name[0] == 102 && name[1] == 109 && name[2] == 116 && name[3] == 32);
            }
        }
        assert(name == seq![100u8, 97u8, 116u8, 97u8] <==> named(raw, pos, 100, 97, 116, 97)) by {
            if named(raw, pos, 100, 97, 116, 97) {
                assert(name =~= seq![100u8, 97u8, 116u8, 97u8]);
            } else if name == seq![100u8, 97u8, 116u8, 97u8] {
                assert(name[0] == 100 && name[1] == 97 && name[2] == 116 && name[3] == 97);
            }
        }
        assert(seq![102u8, 109u8, 116u8, 32u8][0] != seq![100u8, 97u8, 116u8, 97u8][0]);
    }
}

/// The samples are as many as there are whole frames, each of a sample for every
/// channel, and each has the bits that it was written with. Other kinds than floats
/// of 32 bits and integers of 16 bits are refused, if there is a frame at all.
pub proof fn law_samples_by_bytes(f: Format, data: Seq<u8>, i: int)
    ensures
        ({
            let unit = f.channels * (f.bits as int / 8);
            let frames = data.len() as int / unit;
            let float = f.tag == 3 && f.bits == 32;
            let whole = f.tag == 1 && f.bits == 16;
            &&& samples(f, data) == Err::<WavView, WavError>(WavError::Broken) <==> f.channels == 0
                || f.bits < 8
            &&& unit > 0 && frames > 0 && !float && !whole ==> samples(f, data) == Err::<
                WavView,
                WavError,
            >(WavError::Unsupported { tag: f.tag, bits: f.bits })
            &&& unit > 0 && (frames == 0 || float || whole) ==> {
                &&& samples(f, data) matches Ok(w)
                &&& w.rate == f.rate
                &&& w.channels == f.channels
                &&& w.is_float == float
                &&& w.words.len() == frames * f.channels
                &&& 0 <= i < w.words.len() && float ==> w.words[i] == data[4 * i] + 256 * data[4 * i
                    + 1] + 65536 * data[4 * i + 2] + 16777216 * data[4 * i + 3]
                &&& 0 <= i < w.words.len() && whole ==> w.words[i] == data[2 * i] + 256 * data[2 * i
                    + 1]
            }
        }),
{
    let size = f.bits as int / 8;
    let unit = f.channels * size;
    assert(unit == 0 <==> f.channels == 0 || size == 0) by (nonlinear_arith)
        requires
            unit == f.channels * size,
            f.channels >= 0,
            size >= 0,
    ;
    assert(unit >= 0) by (nonlinear_arith)
        requires
            unit == f.channels * size,
            f.channels >= 0,
            size >= 0,
    ;
    if unit > 0 {
        lemma_frames(data.len(), f.channels as int, size, data.len() as int / unit);
        assert(data.len() as int / unit * f.channels >= 0) by (nonlinear_arith)
            requires
                data.len() as int / unit >= 0,
                f.channels >= 0,
        ;
    }
}

/// A file is one of these exactly when it begins with `RIFF` and has `WAVE` behind
/// the length; then its chunks decide.
pub proof fn law_file_by_its_beginning(raw: Seq<u8>)
    requires
        raw.len() >= 12,
    ensures
        ({
            let begins = raw.subrange(0, 4) == seq![82u8, 73u8, 70u8, 70u8] && raw.subrange(8, 12)
                == seq![87u8, 65u8, 86u8, 69u8];
            let found = scan(raw, 12, None, None);
            &&& !begins ==> wav_in(raw) == Err::<WavView, WavError>(WavError::NotWav)
            &&& begins && found is None ==> wav_in(raw) == Err::<WavView, WavError>(
                WavError::Broken,
            )
            &&& begins && found is Some && (found->0).0 is None ==> wav_in(raw) == Err::<
                WavView,
                WavError,
            >(WavError::NoFormat)
            &&& begins && found is Some && (found->0).0 is Some && (found->0).1 is None ==> wav_in(
                raw,
            ) == Err::<WavView, WavError>(WavError::NoData)
            &&& begins && found is Some && (found->0).0 is Some && (found->0).1 is Some ==> wav_in(
                raw,
            ) == samples((found->0).0->0, (found->0).1->0)
        }),
{
    let (a, b) = (raw.subrange(0, 4), raw.subrange(8, 12));
    if named(raw, 0, 82, 73, 70, 70) {
        assert(a =~= seq![82u8, 73u8, 70u8, 70u8]);
    } else if a == seq![82u8, 73u8, 70u8, 70u8] {
        assert(a[0] == 82 && a[1] == 73 && a[2] == 70 && a[3] == 70);
    }
    if named(raw, 8, 87, 65, 86, 69) {
        assert(b =~= seq![87u8, 65u8, 86u8, 69u8]);
    } else if b == seq![87u8, 65u8, 86u8, 69u8] {
        assert(b[0] == 87 && b[1] == 65 && b[2] == 86 && b[3] == 69);
    }
}

/// What a file with one format and its samples behind it holds is read: the format
/// is that of its chunk, and the samples are those of the other.
pub proof fn law_plain_file_is_read(raw: Seq<u8>, n: int)
    requires
        0 <= n < 0x1_0000_0000,
        raw.len() == 44 + n,
        raw.subrange(0, 4) == seq![82u8, 73u8, 70u8, 70u8],
        raw.subrange(8, 12) == seq![87u8, 65u8, 86u8, 69u8],
        raw.subrange(12, 16) == seq![102u8, 109u8, 116u8, 32u8],
        raw[16] == 16 && raw[17] == 0 && raw[18] == 0 && raw[19] == 0,
        raw.subrange(36, 40) == seq![100u8, 97u8, 116u8, 97u8],
        raw[40] + 256 * raw[41] + 65536 * raw[42] + 16777216 * raw[43] == n,
    ensures
        wav_in(raw) == samples(
            Format {
                tag: (raw[20] + 256 * raw[21]) as u16,
                channels: (raw[22] + 256 * raw[23]) as u16,
                rate: (raw[24] + 256 * raw[25] + 65536 * raw[26] + 16777216 * raw[27]) as u32,
                bits: (raw[34] + 256 * raw[35]) as u16,
            },
            raw.skip(44),
        ),
{
    law_file_by_its_beginning(raw);
    law_chunks_one_by_one(raw, 12, None, None);
    let body = raw.subrange(20, 36);
    law_format_by_bytes(body);
    law_chunks_one_by_one(raw, 36, format_in(body), None);
    let data = raw.subrange(44, 44 + n);
    assert(data =~= raw.skip(44));
    let next = 44 + n + n % 2;
    law_chunks_one_by_one(raw, next, format_in(body), Some(data));
}

/// What is said of a file that is not read.
pub proof fn law_why_a_file_is_not_read(e: WavError)
    ensures
        e is NotWav ==> e.text() == "不是 WAV 文件"@,
        e is NoFormat ==> e.text() == "缺少 fmt 块"@,
        e is NoData ==> e.text() == "缺少 data 块"@,
        e matches WavError::Unsupported { tag, bits } ==> e.text() == "不支持的采样格式 tag="@
            + crate::text::decimal(tag as nat) + " bits="@ + crate::text::decimal(bits as nat),
{
}

/// What a file is seen as is what it holds.
pub proof fn law_sounds_are_seen_as_they_are(w: Wav, e: WavError)
    ensures
        w@.rate == w.rate,
        w@.channels == w.channels,
        w@.is_float == w.is_float,
        w@.words == w.words@,
        outcome(Ok(w)) == Ok::<WavView, WavError>(w@),
        outcome(Err(e)) == Err::<WavView, WavError>(e),
{
}

} // verus!
