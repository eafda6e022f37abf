use daw::wav::{decode_pcm16_wav, encode_pcm16_wav, WavFault, WavWriteFault};

#[test]
fn writes_valid_wav_header() {
    let bytes = encode_pcm16_wav(48_000, 2, &vec![0, 1, -1, 2]).expect("write wav");
    assert_eq!(&bytes[0..4], b"RIFF");
    assert_eq!(&bytes[8..12], b"WAVE");
    assert_eq!(&bytes[12..16], b"fmt ");
    assert_eq!(&bytes[36..40], b"data");
    assert_eq!(bytes.len(), 44 + 8);
    assert_eq!(&bytes[4..8], &(36_u32 + 8).to_le_bytes());
    assert_eq!(&bytes[28..32], &192_000_u32.to_le_bytes());
}

#[test]
fn round_trips_samples() {
    let samples = vec![i16::MIN, -1, 0, 1, i16::MAX, 1234];
    let bytes = encode_pcm16_wav(44_100, 3, &samples).expect("encode");
    for strict in [false, true] {
        let wav = decode_pcm16_wav(&bytes, strict).expect("decode");
        assert_eq!(wav.sample_rate, 44_100);
        assert_eq!(wav.channels, 3);
        assert_eq!(wav.samples, samples);
        assert_eq!(wav.frames(), 2);
    }
}

#[test]
fn rejects_malformed_files() {
    assert_eq!(decode_pcm16_wav(b"short", false), Err(WavFault::NotRiffWave));
    let mut bytes = encode_pcm16_wav(8_000, 1, &vec![1, 2]).expect("encode");
    bytes[40] = 99;
    assert_eq!(decode_pcm16_wav(&bytes, false), Err(WavFault::ChunkPastEnd));
    let mut zero = encode_pcm16_wav(8_000, 1, &vec![1, 2]).expect("encode");
    zero[22] = 0;
    assert_eq!(decode_pcm16_wav(&zero, true), Err(WavFault::ZeroChannels));
    assert!(decode_pcm16_wav(&zero, false).is_ok());
    let mut float = encode_pcm16_wav(8_000, 1, &vec![1, 2]).expect("encode");
    float[20] = 3;
    assert_eq!(decode_pcm16_wav(&float, false), Err(WavFault::NotPcm16));
    assert_eq!(WavFault::ZeroChannels.message(), "WAV channel count must be greater than zero");
}

#[test]
fn refuses_unshaped_writes() {
    assert_eq!(encode_pcm16_wav(8_000, 2, &vec![1, 2, 3]), Err(WavWriteFault::ChannelMismatch));
    assert_eq!(encode_pcm16_wav(8_000, 0, &vec![]), Err(WavWriteFault::ChannelMismatch));
    assert_eq!(encode_pcm16_wav(u32::MAX, 2, &vec![]), Err(WavWriteFault::InvalidByteRate));
    assert_eq!(WavWriteFault::TooLarge.message(), "render too large for WAV");
}
