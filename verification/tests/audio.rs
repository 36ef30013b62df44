use std::io::Cursor;
use voice_core::audio::{
    check_header, normalize, read_wav_from_bytes, scratch_header, AudioBuffer, AudioError,
    Decoded, SampleFormat, Samples, WavHeader, PCM16_SCALE, SAMPLE_RATE,
};

fn int_spec(channels: u16, sample_rate: u32, bits: u16) -> hound::WavSpec {
    hound::WavSpec {
        channels,
        sample_rate,
        bits_per_sample: bits,
        sample_format: hound::SampleFormat::Int,
    }
}

fn wav_i16(channels: u16, sample_rate: u32, samples: &[i16]) -> Vec<u8> {
    let mut cursor = Cursor::new(Vec::new());
    {
        let mut writer =
            hound::WavWriter::new(&mut cursor, int_spec(channels, sample_rate, 16)).unwrap();
        for s in samples {
            writer.write_sample(*s).unwrap();
        }
        writer.finalize().unwrap();
    }
    cursor.into_inner()
}

fn wav_i32(channels: u16, bits: u16, samples: &[i32]) -> Vec<u8> {
    let mut cursor = Cursor::new(Vec::new());
    {
        let mut writer =
            hound::WavWriter::new(&mut cursor, int_spec(channels, 16000, bits)).unwrap();
        for s in samples {
            writer.write_sample(*s).unwrap();
        }
        writer.finalize().unwrap();
    }
    cursor.into_inner()
}

fn wav_f32(channels: u16, sample_rate: u32, samples: &[f32]) -> Vec<u8> {
    let spec = hound::WavSpec {
        channels,
        sample_rate,
        bits_per_sample: 32,
        sample_format: hound::SampleFormat::Float,
    };
    let mut cursor = Cursor::new(Vec::new());
    {
        let mut writer = hound::WavWriter::new(&mut cursor, spec).unwrap();
        for s in samples {
            writer.write_sample(*s).unwrap();
        }
        writer.finalize().unwrap();
    }
    cursor.into_inner()
}

fn audio(decoded: Decoded) -> Vec<f32> {
    match decoded {
        Decoded::Audio { audio } => floats(&audio),
        Decoded::AwaitingFloats { .. } => panic!("integer audio expected"),
    }
}

fn floats(audio: &AudioBuffer) -> Vec<f32> {
    audio.samples().iter().map(|bits| f32::from_bits(*bits)).collect()
}

fn bits(values: &[f32]) -> Vec<u32> {
    values.iter().map(|v| v.to_bits()).collect()
}

fn header(channels: u16, sample_rate: u32, sample_bits: u16, sample_format: SampleFormat) -> WavHeader {
    WavHeader { channels, sample_rate, bits_per_sample: sample_bits, sample_format }
}

fn float_words(values: &[f32]) -> Samples {
    Samples::Float(values.iter().map(|v| Some(v.to_bits())).collect())
}

#[test]
fn constants_are_the_documented_ones() {
    assert_eq!(SAMPLE_RATE, 16000);
    assert_eq!(PCM16_SCALE, 32767);
}

#[test]
fn mono_pcm16_is_divided_by_two_to_the_fifteen() {
    let data = wav_i16(1, 16000, &[0, 16384, -32768, 32767, 1]);
    assert_eq!(
        audio(read_wav_from_bytes(data).unwrap()),
        vec![0.0, 0.5, -1.0, 32767.0 / 32768.0, 1.0 / 32768.0]
    );
}

#[test]
fn stereo_pcm16_is_averaged_pair_by_pair() {
    let data = wav_i16(2, 16000, &[100, 300, -32768, -32768, 32767, -32767, 16384, 0]);
    assert_eq!(
        audio(read_wav_from_bytes(data).unwrap()),
        vec![200.0 / 32768.0, -1.0, 0.0, 0.25]
    );
}

#[test]
fn pcm16_audio_is_normalised_as_division_and_averaging_in_single_precision() {
    let mut samples: Vec<i16> = (-32768i32..32768).step_by(7).map(|s| s as i16).collect();
    samples.truncate(samples.len() / 2 * 2);
    let mono = audio(read_wav_from_bytes(wav_i16(1, 16000, &samples)).unwrap());
    let expected: Vec<f32> = samples.iter().map(|s| *s as f32 / 32768.0).collect();
    assert_eq!(bits(&mono), bits(&expected));
    let stereo = audio(read_wav_from_bytes(wav_i16(2, 16000, &samples)).unwrap());
    let expected: Vec<f32> = samples
        .chunks_exact(2)
        .map(|c| (c[0] as f32 / 32768.0 + c[1] as f32 / 32768.0) / 2.0)
        .collect();
    assert_eq!(bits(&stereo), bits(&expected));
}

#[test]
fn the_sample_count_is_the_frame_count() {
    let samples: Vec<i16> = (0..10).collect();
    assert_eq!(audio(read_wav_from_bytes(wav_i16(1, 16000, &samples)).unwrap()).len(), 10);
    assert_eq!(audio(read_wav_from_bytes(wav_i16(2, 16000, &samples)).unwrap()).len(), 5);
    assert_eq!(audio(read_wav_from_bytes(wav_i16(1, 16000, &[])).unwrap()).len(), 0);
    assert_eq!(audio(read_wav_from_bytes(wav_i16(2, 16000, &[])).unwrap()).len(), 0);
}

#[test]
fn pcm8_24_and_32_use_their_own_depth() {
    assert_eq!(
        audio(read_wav_from_bytes(wav_i32(1, 8, &[-128, 127, 64])).unwrap()),
        vec![-1.0, 127.0 / 128.0, 0.5]
    );
    assert_eq!(
        audio(read_wav_from_bytes(wav_i32(1, 24, &[-8388608, 8388607, 1])).unwrap()),
        vec![-1.0, 8388607.0 / 8388608.0, 1.0 / 8388608.0]
    );
    let samples = [i32::MAX, i32::MAX, i32::MIN, i32::MIN, 1, 3, 0x7fff_ff7f, 0x0100_0001];
    let expected: Vec<f32> = samples
        .chunks_exact(2)
        .map(|c| (c[0] as f32 / 2147483648.0 + c[1] as f32 / 2147483648.0) / 2.0)
        .collect();
    assert_eq!(
        bits(&audio(read_wav_from_bytes(wav_i32(2, 32, &samples)).unwrap())),
        bits(&expected)
    );
    let expected: Vec<f32> = samples.iter().map(|s| *s as f32 / 2147483648.0).collect();
    assert_eq!(
        bits(&audio(read_wav_from_bytes(wav_i32(1, 32, &samples)).unwrap())),
        bits(&expected)
    );
}

#[test]
fn other_sample_rates_are_refused() {
    for rate in [8000u32, 22050, 44100, 48000] {
        match read_wav_from_bytes(wav_i16(1, rate, &[1, 2, 3])) {
            Err(AudioError::SampleRate { rate: found }) => assert_eq!(found, rate),
            _ => panic!("rate {} was not refused for its rate", rate),
        }
        match read_wav_from_bytes(wav_i16(2, rate, &[1, 2])) {
            Err(AudioError::SampleRate { rate: found }) => assert_eq!(found, rate),
            _ => panic!("rate {} was not refused for its rate", rate),
        }
    }
}

#[test]
fn other_sample_rates_are_refused_for_float_audio_too() {
    match read_wav_from_bytes(wav_f32(1, 44100, &[0.5])) {
        Err(AudioError::SampleRate { rate }) => assert_eq!(rate, 44100),
        _ => panic!("not refused for its rate"),
    }
}

#[test]
fn other_channel_counts_are_refused() {
    for channels in [3u16, 4, 6] {
        let samples = vec![0i16; channels as usize * 2];
        match read_wav_from_bytes(wav_i16(channels, 16000, &samples)) {
            Err(AudioError::Channels { channels: found }) => assert_eq!(found, channels),
            _ => panic!("{} channels were not refused", channels),
        }
    }
}

#[test]
fn the_rate_is_judged_before_the_channels() {
    let samples = vec![0i16; 6];
    match read_wav_from_bytes(wav_i16(3, 8000, &samples)) {
        Err(AudioError::SampleRate { rate }) => assert_eq!(rate, 8000),
        _ => panic!("not refused for its rate"),
    }
    assert!(matches!(
        check_header(&header(0, 16000, 16, SampleFormat::Int)),
        Err(AudioError::Channels { channels: 0 })
    ));
    assert!(check_header(&header(1, 16000, 16, SampleFormat::Int)).is_ok());
    assert!(check_header(&header(2, 16000, 32, SampleFormat::Float)).is_ok());
}

#[test]
fn bytes_that_are_no_container_are_refused() {
    assert!(matches!(read_wav_from_bytes(Vec::new()), Err(AudioError::Format { .. })));
    assert!(matches!(
        read_wav_from_bytes(b"not a wav file at all".to_vec()),
        Err(AudioError::Format { .. })
    ));
    let mut cut = wav_i16(1, 16000, &[1, 2, 3]);
    cut.truncate(20);
    assert!(matches!(read_wav_from_bytes(cut), Err(AudioError::Format { .. })));
}

#[test]
fn samples_missing_from_the_data_count_as_zero() {
    let mut data = wav_i16(1, 16000, &[8192, 16384, 9, 10]);
    let len = data.len();
    data.truncate(len - 4);
    assert_eq!(audio(read_wav_from_bytes(data).unwrap()), vec![0.25, 0.5, 0.0, 0.0]);
}

#[test]
fn float_audio_is_left_to_the_caller_to_read() {
    match read_wav_from_bytes(wav_f32(2, 16000, &[0.25, 0.75])).unwrap() {
        Decoded::AwaitingFloats { header: h } => {
            assert_eq!(h, header(2, 16000, 32, SampleFormat::Float));
        }
        Decoded::Audio { .. } => panic!("float audio expected"),
    }
}

#[test]
fn mono_float_samples_pass_through_unchanged() {
    let h = header(1, 16000, 32, SampleFormat::Float);
    let values = [0.5f32, -0.25, 1.0e-40, -0.0, 3.0, f32::MAX, 0.1];
    let got = normalize(&h, &float_words(&values)).unwrap();
    assert_eq!(got.samples(), &bits(&values));
}

#[test]
fn float_samples_that_are_not_finite_or_failed_become_zero() {
    let h = header(1, 16000, 32, SampleFormat::Float);
    let words = vec![
        Some(0.5f32.to_bits()),
        None,
        Some(f32::NAN.to_bits()),
        Some(f32::INFINITY.to_bits()),
        Some(f32::NEG_INFINITY.to_bits()),
        Some(0xffc0_0001),
    ];
    let got = normalize(&h, &Samples::Float(words)).unwrap();
    assert_eq!(floats(&got), vec![0.5, 0.0, 0.0, 0.0, 0.0, 0.0]);
    assert_eq!(got.samples()[1..], [0u32; 5]);
}

#[test]
fn stereo_float_samples_are_averaged_pair_by_pair() {
    let h = header(2, 16000, 32, SampleFormat::Float);
    let values = [0.25f32, -0.75, 0.1, 0.2, 1.0e-45, 1.0e-45, f32::MAX, f32::MAX, 1.0, f32::NAN, 0.3, 0.3];
    let got = normalize(&h, &float_words(&values)).unwrap();
    let expected: Vec<f32> = values
        .chunks_exact(2)
        .map(|c| (c[0] + c[1]) / 2.0)
        .map(|m| if m.is_finite() { m } else { 0.0 })
        .collect();
    assert_eq!(got.samples(), &bits(&expected));
    assert_eq!(floats(&got), vec![-0.25, (0.1f32 + 0.2) / 2.0, 1.0e-45, 0.0, 0.0, 0.3]);
}

#[test]
fn an_odd_trailing_sample_is_dropped() {
    let h = header(2, 16000, 16, SampleFormat::Int);
    let words = vec![Some(8192), Some(24576), Some(30)];
    assert_eq!(floats(&normalize(&h, &Samples::Int(words)).unwrap()), vec![0.5]);
    let h = header(2, 16000, 32, SampleFormat::Float);
    let got = normalize(&h, &float_words(&[0.5, 0.25, 0.125])).unwrap();
    assert_eq!(floats(&got), vec![0.375]);
}

#[test]
fn failed_integer_samples_count_as_zero() {
    let h = header(1, 16000, 16, SampleFormat::Int);
    assert_eq!(
        floats(&normalize(&h, &Samples::Int(vec![None, Some(-16384)])).unwrap()),
        vec![0.0, -0.5]
    );
    let h = header(2, 16000, 16, SampleFormat::Int);
    assert_eq!(
        floats(&normalize(&h, &Samples::Int(vec![None, Some(-16384)])).unwrap()),
        vec![-0.25]
    );
}

#[test]
fn normalize_refuses_what_reading_refuses() {
    let words = || Samples::Int(vec![Some(1), Some(2)]);
    assert!(matches!(
        normalize(&header(1, 22050, 16, SampleFormat::Int), &words()),
        Err(AudioError::SampleRate { rate: 22050 })
    ));
    assert!(matches!(
        normalize(&header(5, 16000, 16, SampleFormat::Int), &words()),
        Err(AudioError::Channels { channels: 5 })
    ));
}

#[test]
fn every_normalised_sample_is_finite() {
    let h = header(2, 16000, 32, SampleFormat::Float);
    let mut state: u64 = 0x1357_9bdf_0246_8ace;
    let mut words = Vec::new();
    for _ in 0..20_000 {
        state ^= state << 13;
        state ^= state >> 7;
        state ^= state << 17;
        words.push(if state % 17 == 0 { None } else { Some(state as u32) });
    }
    let stereo = normalize(&h, &Samples::Float(words.clone())).unwrap();
    assert_eq!(stereo.len(), 10_000);
    let mono = normalize(&header(1, 16000, 32, SampleFormat::Float), &Samples::Float(words)).unwrap();
    assert_eq!(mono.len(), 20_000);
    for sample in stereo.samples().iter().chain(mono.samples().iter()) {
        assert!(f32::from_bits(*sample).is_finite());
    }
}

#[test]
fn sealing_keeps_finite_samples_and_zeroes_the_rest() {
    let values = vec![
        1.0f32.to_bits(),
        f32::NAN.to_bits(),
        f32::INFINITY.to_bits(),
        f32::NEG_INFINITY.to_bits(),
        (-0.0f32).to_bits(),
        f32::MAX.to_bits(),
        f32::MIN_POSITIVE.to_bits(),
        0xffc0_0001,
    ];
    let buffer = AudioBuffer::seal(values);
    assert_eq!(buffer.len(), 8);
    assert_eq!(
        buffer.samples(),
        &vec![
            1.0f32.to_bits(),
            0,
            0,
            0,
            (-0.0f32).to_bits(),
            f32::MAX.to_bits(),
            f32::MIN_POSITIVE.to_bits(),
            0,
        ]
    );
    for bits in buffer.samples() {
        assert!(f32::from_bits(*bits).is_finite());
    }
}

#[test]
fn samples_are_written_as_16_bit_integers_scaled_by_32767() {
    let values = [0.0f32, 1.0, -1.0, 0.5, -0.5, 0.999_99, 2.0, -2.0, 1.0e-6, -3.0e-5, 0.1];
    let buffer = AudioBuffer::seal(bits(&values));
    let expected: Vec<i16> = values.iter().map(|v| (*v * 32767.0) as i16).collect();
    assert_eq!(buffer.pcm16(), expected);
    assert_eq!(buffer.pcm16(), vec![0, 32767, -32767, 16383, -16383, 32766, 32767, -32768, 0, 0, 3276]);
}

#[test]
fn what_was_not_finite_goes_round_as_zero() {
    let buffer = AudioBuffer::seal(bits(&[f32::NAN, f32::INFINITY, f32::NEG_INFINITY]));
    let pcm = buffer.pcm16();
    assert_eq!(pcm, vec![0, 0, 0]);
    let back = read_wav_from_bytes(wav_i16(1, 16000, &pcm)).unwrap();
    assert_eq!(bits(&audio(back)), vec![0, 0, 0]);
}

#[test]
fn a_round_trip_through_the_scratch_format_stays_close() {
    let mut values = Vec::new();
    for i in -2000..=2000 {
        values.push(i as f32 / 2000.0);
    }
    values.extend_from_slice(&[0.99, -0.99, 0.6, 1.0e-5, -1.0e-5, 0.333_333_34]);
    let buffer = AudioBuffer::seal(bits(&values));
    let back = audio(read_wav_from_bytes(wav_i16(1, 16000, &buffer.pcm16())).unwrap());
    assert_eq!(back.len(), values.len());
    for (x, y) in values.iter().zip(back.iter()) {
        assert!((*x as f64 - *y as f64).abs() < 3.0 / 32768.0, "{} came back as {}", x, y);
    }
    // one step of the 16-bit grid is not always enough
    let x = 0.99f32;
    let y = audio(
        read_wav_from_bytes(wav_i16(1, 16000, &AudioBuffer::seal(bits(&[x])).pcm16())).unwrap(),
    )[0];
    assert_eq!(y, 32439.0 / 32768.0);
    assert!((x as f64 - y as f64).abs() > 1.0 / 32767.0);
}

#[test]
fn the_scratch_file_is_mono_16_bit_at_16000_hertz() {
    assert_eq!(scratch_header(), header(1, 16000, 16, SampleFormat::Int));
    assert!(check_header(&scratch_header()).is_ok());
}

#[test]
fn audio_error_messages() {
    assert_eq!(
        AudioError::SampleRate { rate: 44100 }.message(),
        "WAV file must be 16kHz, found 44100"
    );
    assert_eq!(AudioError::Channels { channels: 6 }.message(), "Unsupported channel count: 6");
    assert_eq!(
        AudioError::Format { detail: "no RIFF tag found".to_string() }.message(),
        "WavReader error: no RIFF tag found"
    );
    match read_wav_from_bytes(b"RIFX____WAVE".to_vec()) {
        Err(e) => assert!(e.message().starts_with("WavReader error: ")),
        Ok(_) => panic!("accepted"),
    }
}
