use elysium::wav::{load_wav, read_words, WavError};

fn chunk(id: &str, body: &[u8]) -> Vec<u8> {
    let mut v = id.as_bytes().to_vec();
    v.extend((body.len() as u32).to_le_bytes());
    v.extend(body);
    if body.len() % 2 == 1 {
        v.push(0);
    }
    v
}

fn format(tag: u16, channels: u16, rate: u32, bits: u16) -> Vec<u8> {
    let mut v = vec![];
    v.extend(tag.to_le_bytes());
    v.extend(channels.to_le_bytes());
    v.extend(rate.to_le_bytes());
    v.extend([0; 6]);
    v.extend(bits.to_le_bytes());
    v
}

fn riff(chunks: &[Vec<u8>]) -> Vec<u8> {
    let mut v = b"RIFF\0\0\0\0WAVE".to_vec();
    for c in chunks {
        v.extend(c);
    }
    v
}

#[test]
fn integers_are_read() {
    let data: Vec<u8> = [1i16, -2, 300, -32768, 5].iter().flat_map(|x| x.to_le_bytes()).collect();
    let w = load_wav(&riff(&[
        chunk("LIST", &[1, 2, 3]),
        chunk("fmt ", &format(1, 2, 44100, 16)),
        chunk("data", &data),
    ]))
    .unwrap();
    assert_eq!((w.rate, w.channels, w.is_float), (44100, 2, false));
    let back: Vec<i16> = w.words.iter().map(|b| *b as u16 as i16).collect();
    assert_eq!(back, vec![1, -2, 300, -32768]);
}

#[test]
fn floats_are_read() {
    let data: Vec<u8> = [0.5f32, -1.25].iter().flat_map(|x| x.to_le_bytes()).collect();
    let w = load_wav(&riff(&[chunk("data", &data), chunk("fmt ", &format(3, 1, 8000, 32))])).unwrap();
    assert!(w.is_float);
    let back: Vec<f32> = w.words.iter().map(|b| f32::from_bits(*b)).collect();
    assert_eq!(back, vec![0.5, -1.25]);
}

#[test]
fn extended_format_is_read() {
    let mut f = format(0xFFFE, 1, 8000, 16);
    f.extend([0; 8]);
    f.extend(1u32.to_le_bytes());
    f.extend([0; 12]);
    assert_eq!(f.len(), 40);
    let w = load_wav(&riff(&[chunk("fmt ", &f), chunk("data", &[7, 0])])).unwrap();
    assert_eq!(w.words, vec![7]);
    let short = format(0xFFFE, 1, 8000, 16);
    assert_eq!(
        load_wav(&riff(&[chunk("fmt ", &short), chunk("data", &[7, 0])])).err(),
        Some(WavError::Unsupported { tag: 0xFFFE, bits: 16 })
    );
}

#[test]
fn last_chunks_count() {
    let w = load_wav(&riff(&[
        chunk("fmt ", &format(3, 1, 1, 32)),
        chunk("data", &[1, 0]),
        chunk("fmt ", &format(1, 1, 9, 16)),
        chunk("data", &[2, 0]),
    ]))
    .unwrap();
    assert_eq!(w.rate, 9);
    assert_eq!(w.words, vec![2]);
}

#[test]
fn chunk_past_the_end_is_empty() {
    let mut raw = riff(&[chunk("fmt ", &format(1, 1, 9, 16))]);
    raw.extend(b"data");
    raw.extend(100u32.to_le_bytes());
    raw.extend([1, 0]);
    assert_eq!(load_wav(&raw).unwrap().words, Vec::<u32>::new());
}

#[test]
fn files_that_are_refused() {
    assert_eq!(load_wav(b"RIFX....WAVE").err(), Some(WavError::NotWav));
    assert_eq!(load_wav(b"nope").err(), Some(WavError::NotWav));
    assert_eq!(load_wav(b"RIFF....WAVX").err(), Some(WavError::NotWav));
    assert_eq!(load_wav(b"RIFF....WAVE").err(), Some(WavError::NoFormat));
    assert_eq!(
        load_wav(&riff(&[chunk("fmt ", &format(1, 1, 1, 16))])).err(),
        Some(WavError::NoData)
    );
    assert_eq!(
        load_wav(&riff(&[chunk("fmt ", &format(1, 1, 1, 8)), chunk("data", &[1])])).err(),
        Some(WavError::Unsupported { tag: 1, bits: 8 })
    );
    assert_eq!(
        load_wav(&riff(&[chunk("fmt ", &format(9, 1, 7, 8)), chunk("data", &[])])).unwrap().rate,
        7
    );
}

#[test]
fn files_that_are_broken() {
    assert_eq!(load_wav(b"RIF").err(), Some(WavError::Broken));
    assert_eq!(load_wav(b"RIFF1234WAV").err(), Some(WavError::Broken));
    assert_eq!(
        load_wav(&riff(&[chunk("fmt ", &[0; 15])])).err(),
        Some(WavError::Broken)
    );
    assert_eq!(
        load_wav(&riff(&[chunk("fmt ", &format(1, 0, 1, 16)), chunk("data", &[1, 2])])).err(),
        Some(WavError::Broken)
    );
    assert_eq!(
        load_wav(&riff(&[chunk("fmt ", &format(1, 1, 1, 7)), chunk("data", &[1, 2])])).err(),
        Some(WavError::Broken)
    );
}

#[test]
fn messages_of_refused_files() {
    assert_eq!(WavError::NotWav.message(), "不是 WAV 文件");
    assert_eq!(WavError::NoFormat.message(), "缺少 fmt 块");
    assert_eq!(WavError::NoData.message(), "缺少 data 块");
    assert_eq!(
        WavError::Unsupported { tag: 1, bits: 24 }.message(),
        "不支持的采样格式 tag=1 bits=24"
    );
    assert_eq!(WavError::Broken.message(), "WAV 文件不完整");
}

#[test]
fn words_from_a_place_on() {
    assert_eq!(read_words(&[9, 1, 2, 3, 4], 1, 2, false), vec![0x0201, 0x0403]);
    assert_eq!(read_words(&[9, 1, 2, 3, 4], 1, 1, true), vec![0x04030201]);
}
