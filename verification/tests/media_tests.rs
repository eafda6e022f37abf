use daw::media::{
    describe_media, find_media_object, generate_waveform, generate_waveforms, import_media,
    list_media, normalized_extension, relink_media, sha256_hex, to_ascii_lowercase, verify_media,
    verify_object, waveform_from_pcm16, MediaError, MediaIndex, WaveformPeak,
    DEFAULT_WAVEFORM_POINTS,
};
use daw::paths::{join, media_index_path, media_object_path, media_objects_path, waveform_summary_path};
use daw::wav::Pcm16Wav;

fn pcm16_wav_bytes(samples: &[i16]) -> Vec<u8> {
    let data_bytes = u32::try_from(samples.len() * 2).expect("data size");
    let riff_size = 36_u32 + data_bytes;
    let mut bytes = Vec::new();
    bytes.extend_from_slice(b"RIFF");
    bytes.extend_from_slice(&riff_size.to_le_bytes());
    bytes.extend_from_slice(b"WAVEfmt ");
    bytes.extend_from_slice(&16_u32.to_le_bytes());
    bytes.extend_from_slice(&1_u16.to_le_bytes());
    bytes.extend_from_slice(&1_u16.to_le_bytes());
    bytes.extend_from_slice(&48_000_u32.to_le_bytes());
    bytes.extend_from_slice(&96_000_u32.to_le_bytes());
    bytes.extend_from_slice(&2_u16.to_le_bytes());
    bytes.extend_from_slice(&16_u16.to_le_bytes());
    bytes.extend_from_slice(b"data");
    bytes.extend_from_slice(&data_bytes.to_le_bytes());
    for sample in samples {
        bytes.extend_from_slice(&sample.to_le_bytes());
    }
    bytes
}

#[test]
fn hashes_content_as_lowercase_sha256_hex() {
    assert_eq!(
        sha256_hex(b"abc"),
        "ba7816bf8f01cfea414140de5dae2223b00361a396177a9cb410ff61f20015ad"
    );
    assert_eq!(
        sha256_hex(b""),
        "e3b0c44298fc1c149afbf4c8996fb92427ae41e4649b934ca495991b7852b855"
    );
}

#[test]
fn normalizes_extensions() {
    assert_eq!(normalized_extension("/tmp/Take.WAV"), Some("wav".to_owned()));
    assert_eq!(normalized_extension("/tmp/take"), None);
    assert_eq!(normalized_extension("/tmp/take."), None);
    assert_eq!(normalized_extension("/tmp/.hidden"), None);
    assert_eq!(normalized_extension("/tmp/.take.Flac"), Some("flac".to_owned()));
    assert_eq!(normalized_extension("/tmp/a.b.Mp3"), Some("mp3".to_owned()));
    assert_eq!(normalized_extension("/tmp/dir.wav/.."), None);
    assert_eq!(to_ascii_lowercase("AbC-Ä"), "abc-Ä");
}

#[test]
fn imports_and_indexes_media() {
    let mut index = MediaIndex::new();
    let object = import_media(&mut index, "/project/source.wav", b"fake wav bytes");
    let objects = list_media(&index);
    let verification = verify_media(&index, &vec![Some(b"fake wav bytes".to_vec())]);

    assert_eq!(objects, vec![object.clone()]);
    assert_eq!(object.extension.as_deref(), Some("wav"));
    assert_eq!(object.byte_size, 14);
    assert_eq!(object.sample_rate, None);
    assert_eq!(object.hash, sha256_hex(b"fake wav bytes"));
    assert_eq!(verification.len(), 1);
    assert!(verification[0].ok);
    assert_eq!(verification[0].message, "ok");
}

#[test]
fn import_of_same_content_replaces_entry() {
    let mut index = MediaIndex::new();
    import_media(&mut index, "/a/first.wav", b"same");
    let second = import_media(&mut index, "/b/second.WAV", b"same");
    assert_eq!(index.objects.len(), 1);
    assert_eq!(index.objects[0], second);
    assert_eq!(index.objects[0].original_path, "/b/second.WAV");
}

#[test]
fn index_stays_sorted_by_hash() {
    let mut index = MediaIndex::new();
    for content in [&b"one"[..], b"two", b"three", b"four"] {
        import_media(&mut index, "/x.bin", content);
    }
    let hashes: Vec<&str> = index.objects.iter().map(|o| o.hash.as_str()).collect();
    let mut sorted = hashes.clone();
    sorted.sort();
    assert_eq!(hashes, sorted);
    assert_eq!(find_media_object(&index, &sha256_hex(b"three")).map(|k| index.objects[k].hash.clone()), Some(sha256_hex(b"three")));
    assert_eq!(find_media_object(&index, "nothing"), None);
}

#[test]
fn reads_wav_metadata_on_import() {
    let bytes = pcm16_wav_bytes(&[0, i16::MAX, i16::MIN, 0]);
    let object = describe_media("/p/source.wav", &bytes);
    assert_eq!(object.sample_rate, Some(48_000));
    assert_eq!(object.channels, Some(1));
    assert_eq!(object.duration_samples, Some(4));
    assert_eq!(object.byte_size, bytes.len() as u64);
}

#[test]
fn reports_missing_and_mismatched_objects() {
    let mut index = MediaIndex::new();
    let object = import_media(&mut index, "/p/a.wav", b"content");
    let missing = verify_object(&object, None);
    assert!(!missing.ok);
    assert_eq!(missing.message, "missing object file");
    let wrong = verify_object(&object, Some(b"tampered"));
    assert!(!wrong.ok);
    assert_eq!(
        wrong.message,
        format!("hash mismatch: expected {}, got {}", object.hash, sha256_hex(b"tampered"))
    );
}

#[test]
fn relinks_missing_media_with_matching_hash() {
    let mut index = MediaIndex::new();
    let object = import_media(&mut index, "/p/source.aiff", b"same bytes");
    let missing = verify_media(&index, &vec![None]);
    let relinked = relink_media(&mut index, &object.hash, "/p/replacement.AIFF", b"same bytes")
        .expect("relink");
    let verified = verify_media(&index, &vec![Some(b"same bytes".to_vec())]);

    assert!(!missing[0].ok);
    assert_eq!(relinked.original_path, "/p/replacement.AIFF");
    assert_eq!(relinked.extension.as_deref(), Some("aiff"));
    assert_eq!(relinked.hash, object.hash);
    assert_eq!(index.objects[0], relinked);
    assert!(verified[0].ok);
}

#[test]
fn relink_refuses_unknown_hash_and_other_content() {
    let mut index = MediaIndex::new();
    let object = import_media(&mut index, "/p/source.wav", b"original");
    match relink_media(&mut index, "feed", "/p/x.wav", b"original") {
        Err(MediaError::Missing(message)) => assert_eq!(message, "unknown media hash: feed"),
        other => panic!("unexpected result: {other:?}"),
    }
    match relink_media(&mut index, &object.hash, "/p/x.wav", b"different") {
        Err(MediaError::Missing(message)) => assert_eq!(
            message,
            format!("replacement content hash {} does not match {}", sha256_hex(b"different"), object.hash)
        ),
        other => panic!("unexpected result: {other:?}"),
    }
    assert_eq!(index.objects[0], object);
}

#[test]
fn generates_and_loads_waveform_cache() {
    let bytes = pcm16_wav_bytes(&[0, i16::MAX, i16::MIN, 0]);
    let mut index = MediaIndex::new();
    let object = import_media(&mut index, "/p/source.wav", &bytes);
    let waveform = generate_waveform(&index, &object.hash, &bytes, 2).expect("waveform");

    assert_eq!(object.sample_rate, Some(48_000));
    assert_eq!(object.channels, Some(1));
    assert_eq!(object.duration_samples, Some(4));
    assert_eq!(waveform.peaks.len(), 2);
    assert_eq!(waveform.frames_per_peak, 2);
    assert_eq!(
        waveform.peaks,
        vec![WaveformPeak { min: 0, max: i16::MAX }, WaveformPeak { min: i16::MIN, max: 0 }]
    );
}

#[test]
fn waveform_of_unknown_or_undecodable_media_fails() {
    let mut index = MediaIndex::new();
    let object = import_media(&mut index, "/p/notes.txt", b"not audio");
    match generate_waveform(&index, "abc", b"not audio", 4) {
        Err(MediaError::Missing(message)) => assert_eq!(message, "unknown media hash: abc"),
        other => panic!("unexpected result: {other:?}"),
    }
    match generate_waveform(&index, &object.hash, b"not audio", 4) {
        Err(MediaError::Unsupported(message)) => assert_eq!(message, "expected RIFF/WAVE file"),
        other => panic!("unexpected result: {other:?}"),
    }
    let all = generate_waveforms(&index, &vec![Some(b"not audio".to_vec())], DEFAULT_WAVEFORM_POINTS);
    assert!(all.is_empty());
}

#[test]
fn waveform_buckets_cover_all_frames() {
    let wav = Pcm16Wav { sample_rate: 8_000, channels: 2, samples: vec![1, -1, 5, 3, -7, 2, 4, 4, 9, -9] };
    let summary = waveform_from_pcm16("h", &wav, 2);
    assert_eq!(summary.frames_per_peak, 3);
    assert_eq!(
        summary.peaks,
        vec![WaveformPeak { min: -7, max: 5 }, WaveformPeak { min: -9, max: 9 }]
    );
    let quiet = Pcm16Wav { sample_rate: 8_000, channels: 1, samples: vec![] };
    assert!(waveform_from_pcm16("q", &quiet, 4).peaks.is_empty());
    let one = Pcm16Wav { sample_rate: 8_000, channels: 1, samples: vec![0] };
    assert_eq!(waveform_from_pcm16("o", &one, 4).peaks, vec![WaveformPeak { min: 0, max: 0 }]);
}

#[test]
fn builds_media_paths() {
    assert_eq!(media_index_path("/p"), "/p/media/index.json");
    assert_eq!(media_objects_path("/p"), "/p/media/objects");
    assert_eq!(waveform_summary_path("/p", "abcd"), "/p/cache/waveforms/abcd.json");
    assert_eq!(media_object_path("/p", "abcd", Some("wav")), "/p/media/objects/sha256/ab/abcd.wav");
    assert_eq!(media_object_path("/p", "abcd", None), "/p/media/objects/sha256/ab/abcd");
}

#[test]
fn joins_like_path_buf() {
    assert_eq!(join("/p", "a"), "/p/a");
    assert_eq!(join("/p/", "a"), "/p/a");
    assert_eq!(join("", "a"), "a");
    assert_eq!(join("/p", "/abs"), "/abs");
}

#[test]
fn object_directory_is_the_first_two_bytes() {
    assert_eq!(media_object_path("/p", "a", None), "/p/media/objects/sha256/xx/a");
    assert_eq!(media_object_path("/p", "\u{e9}bc", None), "/p/media/objects/sha256/\u{e9}/\u{e9}bc");
    assert_eq!(media_object_path("/p", "a\u{e9}c", None), "/p/media/objects/sha256/xx/a\u{e9}c");
    assert_eq!(media_object_path("/p", "\u{20ac}x", None), "/p/media/objects/sha256/xx/\u{20ac}x");
}
