//! Paths, secrets, name decoding and timestamps.

use hajizip::archive::zip::zip_datetime_to_system_time;
use hajizip::encoding::{codepage_named, decode_entry_name, decode_name, detect_codepage};
use hajizip::timestamp::{dos_time_to_system_time, file_time_to_timestamp, timestamp_after_epoch};
use hajizip::{
    decode_filename, Codepage, EntryPath, Error, FilenameEncoding, FormatKind, Level, Secret,
    Timestamp, Utf8Flag,
};

#[test]
fn normalizes_separators_and_dots() {
    assert_eq!(EntryPath::new("a/./b//c").unwrap().as_str(), "a/b/c");
    assert_eq!(EntryPath::new("\\a\\b").unwrap().as_str(), "a/b");
    // Leading separators are stripped, making the path relative.
    assert_eq!(
        EntryPath::new("/etc/passwd").unwrap().as_str(),
        "etc/passwd"
    );
}

#[test]
fn rejects_parent_traversal() {
    assert!(EntryPath::new("a/../b").is_err());
    assert!(EntryPath::new("..").is_err());
    assert!(EntryPath::new("../secret").is_err());
}

#[test]
fn rejects_empty_paths() {
    assert!(EntryPath::new("").is_err());
    assert!(EntryPath::new("///").is_err());
    assert!(EntryPath::new(".").is_err());
}

#[test]
fn path_errors_quote_the_raw_name() {
    let e = EntryPath::new("a/..\\\"b").unwrap_err();
    assert_eq!(
        e.message(),
        "invalid entry path: parent-directory traversal in \"a/..\\\\\\\"b\""
    );
    let e = EntryPath::new("./.").unwrap_err();
    assert_eq!(e.message(), "invalid entry path: no valid component in \"./.\"");
}

#[test]
fn normalizing_twice_changes_nothing() {
    for raw in ["a/./b//c", "\\a\\b", "/etc/passwd", "x", "...", "a/.../b", "ä/ö"] {
        let once = EntryPath::new(raw).unwrap();
        let twice = EntryPath::new(once.as_str()).unwrap();
        assert_eq!(once.as_str(), twice.as_str());
        assert_eq!(once, twice);
        assert!(once.same(&twice));
    }
}

#[test]
fn parents_and_descendants() {
    let p = |s: &str| EntryPath::new(s).unwrap();
    assert_eq!(p("a/b/c").parent().unwrap().as_str(), "a/b");
    assert!(p("a").parent().is_none());
    assert!(p("a/b").is_under(&p("a")));
    assert!(p("a").is_under(&p("a")));
    assert!(!p("ab").is_under(&p("a")));
    assert!(!p("a").is_under(&p("a/b")));
}

#[test]
fn secret_is_redacted_in_debug() {
    let s = Secret::new("hunter2");
    assert_eq!(s.debug_text(), "Secret(<redacted>)");
    assert_eq!(s.as_bytes(), b"hunter2");
    assert_eq!(s.clone().as_bytes(), b"hunter2");
}

#[test]
fn formats_and_levels() {
    assert_eq!(FormatKind::all().len(), 7);
    assert_eq!(FormatKind::all()[0], FormatKind::Zip);
    assert_eq!(FormatKind::all()[6], FormatKind::Zstd);
    assert_eq!(Level::default().0, 6);
}

#[test]
fn auto_decodes_valid_utf8() {
    let s = decode_filename("hello".as_bytes(), FilenameEncoding::Auto, Utf8Flag(false)).unwrap();
    assert_eq!(s, "hello");
}

#[test]
fn utf8_flag_forces_strict_utf8() {
    let bytes = [0xc4u8, 0xe3u8]; // "你" in GBK, invalid as UTF-8
    assert!(decode_filename(&bytes, FilenameEncoding::Auto, Utf8Flag(true)).is_err());
}

#[test]
fn gbk_decodes_hello() {
    // GBK bytes of "你好".
    let bytes = [0xc4u8, 0xe3u8, 0xba, 0xc3];
    assert_eq!(
        decode_filename(
            &bytes,
            FilenameEncoding::Forced(Codepage::Gbk),
            Utf8Flag(false)
        )
        .unwrap(),
        "你好"
    );
}

#[test]
fn shift_jis_decodes_konnichiwa() {
    // Shift-JIS bytes of "こんにちは".
    let bytes = [0x82, 0xb1, 0x82, 0xf1, 0x82, 0xc9, 0x82, 0xbf, 0x82, 0xcd];
    assert_eq!(
        decode_filename(
            &bytes,
            FilenameEncoding::Forced(Codepage::ShiftJis),
            Utf8Flag(false)
        )
        .unwrap(),
        "こんにちは"
    );
}

#[test]
fn big5_decodes_hello() {
    // Big5 bytes of "你好" (A7 41 A6 6E).
    let bytes = [0xa7, 0x41, 0xa6, 0x6e];
    assert_eq!(
        decode_filename(
            &bytes,
            FilenameEncoding::Forced(Codepage::Big5),
            Utf8Flag(false)
        )
        .unwrap(),
        "你好"
    );
}

#[test]
fn cp437_is_deferred() {
    let bytes = [0xda];
    assert!(matches!(
        decode_filename(
            &bytes,
            FilenameEncoding::Forced(Codepage::Cp437),
            Utf8Flag(false)
        ),
        Err(Error::UnsupportedFeature(_))
    ));
}

#[test]
fn auto_falls_back_to_gbk_for_non_utf8() {
    let bytes = [0xc4u8, 0xe3u8, 0xba, 0xc3]; // GBK "你好", not valid UTF-8
    assert_eq!(
        decode_filename(&bytes, FilenameEncoding::Auto, Utf8Flag(false)).unwrap(),
        "你好"
    );
}

#[test]
fn forced_utf8_rejects_invalid_bytes() {
    let bytes = [0xc4u8, 0xe3u8];
    assert!(matches!(
        decode_filename(
            &bytes,
            FilenameEncoding::Forced(Codepage::Utf8),
            Utf8Flag(false)
        ),
        Err(Error::CorruptArchive(_))
    ));
}

#[test]
fn invalid_utf8_names_say_where() {
    let e = decode_filename(
        b"ab\xc4\xe3",
        FilenameEncoding::Forced(Codepage::Utf8),
        Utf8Flag(false),
    )
    .unwrap_err();
    assert_eq!(
        e.message(),
        "corrupt archive: invalid utf-8 name: invalid utf-8 sequence of 1 bytes from index 2"
    );
}

#[test]
fn invalid_bytes_become_replacement_chars() {
    // WHATWG decoders never fail: invalid sequences become U+FFFD.
    let bytes = [0xff, 0x41];
    let s = decode_filename(
        &bytes,
        FilenameEncoding::Forced(Codepage::Gbk),
        Utf8Flag(false),
    )
    .unwrap();
    assert!(s.contains('\u{fffd}'));
}

#[test]
fn undecodable_names_are_listed_lossily() {
    assert_eq!(
        decode_name(b"a\xffb", FilenameEncoding::Forced(Codepage::Utf8)),
        "a\u{fffd}b"
    );
    assert_eq!(
        decode_name(b"plain", FilenameEncoding::Forced(Codepage::Cp437)),
        "plain"
    );
    assert_eq!(
        decode_entry_name(b"\xc4\xe3", FilenameEncoding::Auto, Utf8Flag(true)),
        "\u{fffd}\u{fffd}"
    );
    assert_eq!(decode_name(&[0xc4, 0xe3], FilenameEncoding::Auto), "你");
}

#[test]
fn detect_codepage_recognizes_supported_legacy_encodings() {
    let sjis = [
        0x83u8, 0x45, 0x83, 0x89, 0x83, 0x8c, 0x83, 0x5e, 0x83, 0x45, 0x83, 0x93,
    ];
    assert_eq!(detect_codepage(&sjis), Some(Codepage::ShiftJis));
    let gbk = [
        0xb2u8, 0xe2, 0xca, 0xd4, 0xce, 0xc4, 0xb5, 0xb5, 0xcb, 0xb5, 0xc3, 0xf7,
    ];
    assert_eq!(detect_codepage(&gbk), Some(Codepage::Gbk));
    let big5 = [0xbb, 0xa1, 0xa9, 0xfa, 0xae, 0xd1, 0x2e, 0x74, 0x78, 0x74]; // 說明書.txt
    assert_eq!(detect_codepage(&big5), Some(Codepage::Big5));
}

#[test]
fn detect_codepage_rejects_unsupported_guesses() {
    // Too short to classify: chardetng guesses EUC-KR / windows-125x,
    // which map onto no supported codepage -> None (caller falls back).
    assert_eq!(detect_codepage(&[0xc4u8, 0xe3, 0xba, 0xc3]), None);
    assert_eq!(detect_codepage(b""), None);
    // Pure ASCII/UTF-8 input is not a legacy codepage detection target.
    assert_eq!(detect_codepage(b"hello"), None);
}

#[test]
fn detect_codepage_aggregate_short_shift_jis_names() {
    // Each name alone is too short to classify, but the aggregate of the
    // archive's legacy names is enough signal (this is what the zip
    // archive's pre-pass feeds).
    let mut corpus = Vec::new();
    corpus.extend_from_slice(&[0x90, 0xe0, 0x96, 0xbe, 0x2e, 0x74, 0x78, 0x74]); // 説明.txt
    corpus.extend_from_slice(&[0x96, 0x7b, 0x2e, 0x74, 0x78, 0x74]); // 本.txt
    corpus.extend_from_slice(&[
        0x83, 0x45, 0x83, 0x89, 0x83, 0x8c, 0x83, 0x5e, 0x83, 0x45, 0x83, 0x93, 0x2e, 0x65, 0x78,
        0x65,
    ]); // ウラレタウン.exe
    assert_eq!(detect_codepage(&corpus), Some(Codepage::ShiftJis));
}

#[test]
fn codepages_by_name() {
    assert_eq!(codepage_named("GBK"), Some(Codepage::Gbk));
    assert_eq!(codepage_named("Shift_JIS"), Some(Codepage::ShiftJis));
    assert_eq!(codepage_named("Big5"), Some(Codepage::Big5));
    assert_eq!(codepage_named("gbk"), None);
    assert_eq!(codepage_named("windows-1252"), None);
}

#[test]
fn dos_time_converts_to_system_time() {
    // 2024-02-29 12:34:56 local fields in DOS format: year 2024-1980=44,
    // month 2, day 29, hour 12, minute 34, second 56 (dos seconds = 28).
    let dos = (44u32 << 25) | (2 << 21) | (29 << 16) | (12 << 11) | (34 << 5) | 28;
    let st = dos_time_to_system_time(dos).expect("valid date");
    let expected = Timestamp {
        secs: 19_782 * 86_400 + 12 * 3_600 + 34 * 60 + 56,
        nanos: 0,
    };
    assert_eq!(st, expected);
}

#[test]
fn invalid_dos_time_yields_none() {
    // Month 13 is invalid.
    let dos = (44u32 << 25) | (13 << 21) | (1 << 16);
    assert!(dos_time_to_system_time(dos).is_none());
}

#[test]
fn dos_times_off_the_calendar() {
    // 2023-02-29, 2024-04-31, day 0, hour 24, second 60.
    assert!(dos_time_to_system_time((43 << 25) | (2 << 21) | (29 << 16)).is_none());
    assert!(dos_time_to_system_time((44 << 25) | (4 << 21) | (31 << 16)).is_none());
    assert!(dos_time_to_system_time((44 << 25) | (4 << 21)).is_none());
    assert!(dos_time_to_system_time((44 << 25) | (4 << 21) | (1 << 16) | (24 << 11)).is_none());
    assert!(dos_time_to_system_time((44 << 25) | (4 << 21) | (1 << 16) | 30).is_none());
    // 1980-01-01 and 2107-12-31 23:59:58, the ends of the range.
    assert_eq!(
        dos_time_to_system_time((1 << 21) | (1 << 16)).unwrap().secs,
        315_532_800
    );
    let last = (127u32 << 25) | (12 << 21) | (31 << 16) | (23 << 11) | (59 << 5) | 29;
    assert_eq!(dos_time_to_system_time(last).unwrap().secs, 4_354_819_198);
}

/// Cross-check zip MS-DOS timestamps convert to the expected epoch values.
#[test]
fn zip_datetime_converts_to_system_time() {
    // 2024-02-29 12:34:56 (a valid MS-DOS date, 1980..2107); 2024-02-29 is
    // 19,782 days after the epoch (verified independently).
    let dt = zip::DateTime::from_date_and_time(2024, 2, 29, 12, 34, 56).expect("valid date");
    let st = zip_datetime_to_system_time(Some((dt.datepart(), dt.timepart()))).expect("in range");
    let expected = Timestamp {
        secs: 19_782 * 86_400 + 12 * 3_600 + 34 * 60 + 56,
        nanos: 0,
    };
    assert_eq!(st, expected);
    assert_eq!(zip_datetime_to_system_time(None), None);
}

#[test]
fn windows_and_unix_times() {
    // 1601-01-01 is 11644473600 seconds before 1970.
    assert_eq!(
        file_time_to_timestamp(0),
        Timestamp { secs: -11_644_473_600, nanos: 0 }
    );
    assert_eq!(
        file_time_to_timestamp(116_444_736_000_000_000 + 15_000_001),
        Timestamp { secs: 1, nanos: 500_000_100 }
    );
    assert_eq!(
        timestamp_after_epoch(7),
        Some(Timestamp { secs: 7, nanos: 0 })
    );
    assert_eq!(timestamp_after_epoch(u64::MAX), None);
}
