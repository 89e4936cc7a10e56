//! RAR archives, written here with the `rars` builder.

use std::io::{Cursor, Write};

use hajizip::archive::rar::{map_rar_error, RarFault};
use hajizip::archive::sevenz::{map_sevenz_error, SevenZipFault};
use hajizip::archive::zip::{map_zip_err, ZipFault};
use hajizip::{
    Archive, ArchiveFormat, Browse, BuiltinRegistry, EntryPath, Error, Node, NodeKind, OpenOptions,
    OpenedArchive, RarFormat, Result, Secret, Source,
};
use rars::{ArchiveVersion, Builder, WriterResources};

/// Size of the shared text.
const TEXT_TXT_SIZE: u64 = 2118;
/// Size of the shared picture.
const PHOTO_SIZE: usize = 2_149_083;

fn text() -> Vec<u8> {
    let line = b"The quick brown fox jumps over the lazy dog. ";
    line.iter().copied().cycle().take(2118).collect()
}

/// Bytes that do not compress.
fn photo() -> Vec<u8> {
    let mut x: u32 = 0x1234_5678;
    (0..PHOTO_SIZE)
        .map(|_| {
            x ^= x << 13;
            x ^= x >> 17;
            x ^= x << 5;
            x as u8
        })
        .collect()
}

/// 2018-06-15 10:20:30 as a DOS value.
fn dos_2018() -> u32 {
    (38 << 25) | (6 << 21) | (15 << 16) | (10 << 11) | (20 << 5) | 15
}

/// The archive of a builder, whose writer spools what it packs.
fn build(b: &Builder) -> Vec<u8> {
    let resources = WriterResources::default().with_temp_dir(std::path::Path::new("/tmp"));
    b.to_bytes_with_resources(&resources, None).unwrap()
}

fn text_rar(builder: Builder) -> Vec<u8> {
    let mut b = builder;
    b.add_bytes(b"text.txt".to_vec(), text(), Some(dos_2018()), None)
        .unwrap();
    build(&b)
}

fn mixed_rar(builder: Builder) -> Vec<u8> {
    let mut b = builder;
    b.add_bytes(b"photo.jpg".to_vec(), photo(), None, None).unwrap();
    b.add_bytes(b"text.txt".to_vec(), text(), None, None).unwrap();
    build(&b)
}

fn encrypted() -> Builder {
    Builder::new(ArchiveVersion::Rar50).password(Some(b"test".to_vec()))
}

fn open(bytes: Vec<u8>) -> Result<OpenedArchive> {
    BuiltinRegistry::with_all_formats().open_archive(Source::Memory(bytes), &OpenOptions::default())
}

fn open_with_password(bytes: Vec<u8>, password: &str) -> Result<OpenedArchive> {
    let opts = OpenOptions {
        password: Some(Secret::new(password)),
        ..Default::default()
    };
    BuiltinRegistry::with_all_formats().open_archive(Source::Memory(bytes), &opts)
}

fn read_entry(archive: &OpenedArchive, path: &str) -> Result<Vec<u8>> {
    let entries = archive.entries()?;
    let entry = entries
        .iter()
        .find(|e| e.path.as_str() == path)
        .expect("entry present");
    archive.reader(entry)
}

fn entry_paths(archive: &OpenedArchive) -> Vec<String> {
    let mut paths: Vec<String> = archive
        .entries()
        .expect("listing works")
        .into_iter()
        .map(|e| e.path.as_str().to_owned())
        .collect();
    paths.sort();
    paths
}

/// A single-file archive: lists one file, reads it back fully.
fn assert_txt_archive(archive: &OpenedArchive) {
    let entries = archive.entries().expect("lists");
    assert_eq!(entries.len(), 1);
    let e = &entries[0];
    assert_eq!(e.path.as_str(), "text.txt");
    assert_eq!(e.kind, NodeKind::File);
    assert_eq!(e.uncompressed_size, Some(TEXT_TXT_SIZE));
    assert!(e.crc.is_some(), "RAR stores a CRC");
    let bytes = read_entry(archive, "text.txt").expect("reads");
    assert_eq!(bytes.len() as u64, TEXT_TXT_SIZE);
    assert_eq!(bytes, text());
    // reader and extract_to agree byte-for-byte.
    let mut sink = Vec::new();
    let n = archive.extract_to(e, &mut sink).expect("extracts");
    assert_eq!(n as usize, sink.len());
    assert_eq!(sink, bytes);
}

#[test]
fn registry_detects_both_rar_signatures() {
    let reg = BuiltinRegistry::with_all_formats();
    assert_eq!(
        reg.detect_archive(b"Rar!\x1a\x07\x00", None)
            .expect("rar4")
            .id(),
        "rar"
    );
    assert_eq!(
        reg.detect_archive(b"Rar!\x1a\x07\x01\x00", None)
            .expect("rar5")
            .id(),
        "rar"
    );
}

#[test]
fn registry_opens_real_rar_by_magic() {
    let archive = open(text_rar(Builder::new(ArchiveVersion::Rar40))).expect("opens");
    assert_txt_archive(&archive);
}

#[test]
fn rar4_levels_list_and_read() {
    for level in 0..=5u8 {
        let bytes = text_rar(Builder::new(ArchiveVersion::Rar40).compression_level(Some(level)));
        let archive = open(bytes).unwrap_or_else(|e| panic!("level {level} opens: {}", e.message()));
        assert_txt_archive(&archive);
    }
}

#[test]
fn rar4_archives_report_random_access() {
    for level in [2u8, 5] {
        let bytes = text_rar(Builder::new(ArchiveVersion::Rar40).compression_level(Some(level)));
        let archive = open(bytes).expect("opens");
        assert!(archive.capabilities().random_access, "level {level}");
        assert!(!archive.capabilities().encrypted);
        assert!(!archive.capabilities().needs_password);
    }
}

#[test]
fn rar5_levels_list_and_read() {
    for level in 0..=5u8 {
        let bytes = text_rar(Builder::new(ArchiveVersion::Rar50).compression_level(Some(level)));
        let archive = open(bytes).unwrap_or_else(|e| panic!("level {level} opens: {}", e.message()));
        assert_txt_archive(&archive);
    }
}

#[test]
fn rar5_mixed_entries_read() {
    let archive =
        open(mixed_rar(Builder::new(ArchiveVersion::Rar50).compression_level(Some(1)))).expect("opens");
    assert_eq!(
        entry_paths(&archive),
        vec!["photo.jpg".to_string(), "text.txt".to_string()]
    );
    let photo = read_entry(&archive, "photo.jpg").expect("reads photo");
    assert_eq!(photo.len(), 2_149_083);
    let text = read_entry(&archive, "text.txt").expect("reads text");
    assert_eq!(text.len() as u64, TEXT_TXT_SIZE);
}

#[test]
fn rar5_solid_reports_sequential_access_and_reads_members() {
    let bytes = mixed_rar(
        Builder::new(ArchiveVersion::Rar50)
            .compression_level(Some(1))
            .solid(true),
    );
    let archive = open(bytes).expect("opens");
    let caps = archive.capabilities();
    assert!(!caps.random_access, "solid reads decode the whole chain");
    assert_eq!(
        entry_paths(&archive),
        vec!["photo.jpg".to_string(), "text.txt".to_string()]
    );
    // The second chain member must decode the whole chain to reach it.
    let photo = read_entry(&archive, "photo.jpg").expect("reads photo");
    assert_eq!(photo.len(), 2_149_083);
    let text = read_entry(&archive, "text.txt").expect("reads text");
    assert_eq!(text.len() as u64, TEXT_TXT_SIZE);
}

#[test]
fn content_encryption_requires_password() {
    let bytes = mixed_rar(encrypted().compression_level(Some(1)));
    // Plain header: opens without a password, listing works...
    let archive = open(bytes.clone()).expect("opens");
    let caps = archive.capabilities();
    assert!(caps.encrypted);
    assert!(caps.needs_password);
    assert_eq!(
        entry_paths(&archive),
        vec!["photo.jpg".to_string(), "text.txt".to_string()]
    );
    // ...but reading an encrypted entry reports PasswordRequired.
    let err = read_entry(&archive, "text.txt").expect_err("must fail");
    assert!(matches!(err, Error::PasswordRequired));

    // With the right password everything decodes.
    let archive = open_with_password(bytes, "test").expect("opens with password");
    let caps = archive.capabilities();
    assert!(caps.encrypted);
    assert!(!caps.needs_password);
    let text = read_entry(&archive, "text.txt").expect("reads text");
    assert_eq!(text.len() as u64, TEXT_TXT_SIZE);
    let photo = read_entry(&archive, "photo.jpg").expect("reads photo");
    assert_eq!(photo.len(), 2_149_083);
}

#[test]
fn content_encryption_wrong_password_errors() {
    // rars validates the password while parsing the archive, so opening with
    // a wrong password fails immediately (before any member read).
    let err = open_with_password(mixed_rar(encrypted().compression_level(Some(1))), "nope")
        .err()
        .expect("must fail");
    assert!(matches!(err, Error::WrongPassword), "got {err:?}");
}

#[test]
fn encrypted_header_requires_password_on_open() {
    let bytes = mixed_rar(encrypted().compression_level(Some(1)).header_encryption(true));
    // The header is encrypted: opening without a password fails.
    let err = open(bytes.clone()).err().expect("must fail");
    assert!(matches!(err, Error::PasswordRequired));
    // With the password, open + list + read all work.
    let archive = open_with_password(bytes, "test").expect("opens with password");
    assert_eq!(
        entry_paths(&archive),
        vec!["photo.jpg".to_string(), "text.txt".to_string()]
    );
    let text = read_entry(&archive, "text.txt").expect("reads text");
    assert_eq!(text.len() as u64, TEXT_TXT_SIZE);
}

#[test]
fn multivolume_lists_but_split_members_are_unreadable() {
    // Only the first volume is loaded; split members report UnsupportedFeature.
    let mut b = Builder::new(ArchiveVersion::Rar40)
        .store(true)
        .volume_size(Some(1_000_000));
    b.add_bytes(b"photo.jpg".to_vec(), photo(), None, None).unwrap();
    let first = b.build_volumes(None).unwrap().remove(0);
    let archive = open(first).expect("opens");
    let entries = archive.entries().expect("lists");
    assert_eq!(entries.len(), 1);
    assert_eq!(entries[0].path.as_str(), "photo.jpg");
    assert_eq!(entries[0].uncompressed_size, Some(2_149_083));
    let err = archive.reader(&entries[0]).err().expect("must fail");
    assert!(matches!(err, Error::UnsupportedFeature(_)), "got {err:?}");
}

#[test]
fn corrupt_data_parse_ok_read_fails() {
    // One data byte flipped: the header parses, but the member CRC fails.
    let mut bytes = text_rar(Builder::new(ArchiveVersion::Rar40).store(true));
    let at = bytes
        .windows(9)
        .position(|w| w == b"The quick")
        .expect("stored text");
    bytes[at + 100] ^= 1;
    let archive = open(bytes).expect("opens (header intact)");
    assert_eq!(entry_paths(&archive), vec!["text.txt".to_string()]);
    let err = read_entry(&archive, "text.txt").expect_err("must fail");
    assert!(matches!(err, Error::CorruptArchive(_)), "got {err:?}");
}

#[test]
fn truncated_input_is_rejected() {
    // A 5-byte stub is not a valid RAR archive.
    let fmt = RarFormat;
    let err = fmt
        .open(
            Source::Memory(b"Rar!\x1a".to_vec()),
            &OpenOptions::default(),
        )
        .err()
        .expect("must fail");
    assert!(matches!(err, Error::UnsupportedFormat(_)), "got {err:?}");
}

#[test]
fn rar_inside_zip_opens_as_nested_archive() {
    let mut w = zip::ZipWriter::new(Cursor::new(Vec::new()));
    w.start_file(
        "rar4-normal.rar",
        zip::write::SimpleFileOptions::default(),
    )
    .unwrap();
    w.write_all(&text_rar(Builder::new(ArchiveVersion::Rar40))).unwrap();
    let zip = open(w.finish().unwrap().into_inner()).expect("zip opens");
    let entries = zip.entries().expect("lists");
    let rar_entry = entries
        .iter()
        .find(|e| e.path.as_str() == "rar4-normal.rar")
        .expect("rar entry present");
    // The entry is marked as a nested archive (sniffed at open).
    assert_eq!(rar_entry.kind, NodeKind::Archive);
    let nested = zip
        .open_nested(rar_entry, &OpenOptions::default())
        .expect("rar opens nested");
    assert_txt_archive(&nested);
}

#[test]
fn node_lookup_and_dir_marker() {
    let mut b = Builder::new(ArchiveVersion::Rar50).compression_level(Some(1));
    b.add_directory(b"dir".to_vec(), None, None).unwrap();
    b.add_bytes(b"text.txt".to_vec(), text(), None, None).unwrap();
    let archive = open(build(&b)).expect("opens");
    let node = archive
        .node(&EntryPath::new("text.txt").expect("valid"))
        .expect("node found");
    assert_eq!(node.kind(), NodeKind::File);
    let buf = node.reader().expect("reads");
    assert_eq!(buf.len() as u64, TEXT_TXT_SIZE);
    let dir = archive.node(&EntryPath::new("dir").unwrap()).expect("dir found");
    assert_eq!(dir.kind(), NodeKind::Dir);
    assert_eq!(dir.meta().uncompressed_size, None);
}

#[test]
fn mtime_is_exposed() {
    // RAR4 members carry a DOS/FAT timestamp.
    let archive = open(text_rar(Builder::new(ArchiveVersion::Rar40))).expect("opens");
    let entries = archive.entries().expect("lists");
    let text = entries
        .iter()
        .find(|e| e.path.as_str() == "text.txt")
        .unwrap();
    let mtime = text.mtime.expect("RAR4 members carry a DOS timestamp");
    let secs = mtime.secs;
    assert!(
        (1_500_000_000..1_800_000_000).contains(&secs),
        "unexpected mtime {secs}"
    );
    assert_eq!(secs, 1_529_058_030);
}

#[test]
fn nested_archives_are_marked_in_rar() {
    let inner = text_rar(Builder::new(ArchiveVersion::Rar40));
    for solid in [false, true] {
        let mut b = Builder::new(ArchiveVersion::Rar50)
            .compression_level(Some(1))
            .solid(solid);
        b.add_bytes(b"plain.txt".to_vec(), text(), None, None).unwrap();
        b.add_bytes(b"inner.rar".to_vec(), inner.clone(), None, None).unwrap();
        b.add_bytes(b"last.txt".to_vec(), b"x".to_vec(), None, None).unwrap();
        let archive = open(build(&b)).expect("opens");
        let kinds: Vec<NodeKind> = archive.entries().unwrap().iter().map(|e| e.kind).collect();
        assert_eq!(
            kinds,
            [NodeKind::File, NodeKind::Archive, NodeKind::File],
            "solid {solid}"
        );
        let e = archive.find(&EntryPath::new("inner.rar").unwrap()).unwrap();
        assert_txt_archive(&archive.open_nested(&e, &OpenOptions::default()).unwrap());
    }
}

#[test]
fn duplicate_names_in_a_solid_chain() {
    // The first member with the name wins.
    let mut b = Builder::new(ArchiveVersion::Rar50)
        .compression_level(Some(1))
        .solid(true)
        .allow_duplicate_names(true);
    b.add_bytes(b"same".to_vec(), b"first".to_vec(), None, None).unwrap();
    b.add_bytes(b"same".to_vec(), b"second".to_vec(), None, None).unwrap();
    let archive = open(build(&b)).expect("opens");
    assert_eq!(read_entry(&archive, "same").unwrap(), b"first");
    // In an archive that is not solid, the last entry with the path is read.
    let mut b = Builder::new(ArchiveVersion::Rar50)
        .compression_level(Some(1))
        .allow_duplicate_names(true);
    b.add_bytes(b"same".to_vec(), b"first".to_vec(), None, None).unwrap();
    b.add_bytes(b"same".to_vec(), b"second".to_vec(), None, None).unwrap();
    let archive = open(build(&b)).expect("opens");
    assert_eq!(read_entry(&archive, "same").unwrap(), b"second");
}

#[test]
fn members_in_directories_are_read() {
    let mut b = Builder::new(ArchiveVersion::Rar40).store(true);
    b.add_bytes(b"xx/evil".to_vec(), b"evil".to_vec(), None, None).unwrap();
    b.add_bytes(b"good".to_vec(), b"good".to_vec(), None, None).unwrap();
    let archive = open(build(&b)).expect("opens");
    assert_eq!(entry_paths(&archive), ["good", "xx/evil"]);
    assert_eq!(read_entry(&archive, "good").unwrap(), b"good");
}

#[test]
fn faults_of_the_decoders_are_told_apart() {
    let rar = |f| map_rar_error(f).message();
    assert!(matches!(map_rar_error(RarFault::NeedPassword), Error::PasswordRequired));
    assert!(matches!(map_rar_error(RarFault::BadPassword), Error::WrongPassword));
    assert!(matches!(map_rar_error(RarFault::Cancelled), Error::Cancelled));
    assert_eq!(rar(RarFault::TooShort), "unsupported format: bad RAR signature");
    assert_eq!(rar(RarFault::InvalidHeader("x".into())), "corrupt archive: RAR: x");
    assert_eq!(
        rar(RarFault::CrcMismatch(0x12, 0xabcd)),
        "corrupt archive: RAR checksum mismatch: expected 0x0012, got 0xabcd"
    );
    assert_eq!(
        rar(RarFault::Crc32Mismatch(0x12, 0xdead_beef)),
        "corrupt archive: RAR CRC32 mismatch: expected 0x00000012, got 0xdeadbeef"
    );
    assert_eq!(
        rar(RarFault::UnsupportedCompression("5".into(), 70, 7)),
        "unsupported feature: RAR 5 compression (unpack v70, method 0x07)"
    );
    assert_eq!(
        rar(RarFault::UnsupportedFeature("links".into(), "Rar50".into())),
        "unsupported feature: links (RAR Rar50)"
    );
    assert_eq!(rar(RarFault::Other("odd".into())), "unsupported feature: RAR: odd");
    assert_eq!(rar(RarFault::Io("disk".into())), "i/o error: disk");

    let sz = |f| map_sevenz_error(f).message();
    assert_eq!(sz(SevenZipFault::BadSignature), "unsupported format: bad 7z signature");
    assert_eq!(
        sz(SevenZipFault::UnsupportedCompressionMethod("Z".into())),
        "unsupported feature: 7z compression method: Z"
    );
    assert_eq!(sz(SevenZipFault::Damaged("bad".into())), "corrupt archive: 7z: bad");
    assert!(matches!(
        map_sevenz_error(SevenZipFault::MaybeBadPassword),
        Error::WrongPassword
    ));

    let zip = |f| map_zip_err(f).message();
    assert_eq!(
        zip(ZipFault::FileNotFound),
        "corrupt archive: entry not found in zip archive"
    );
    assert_eq!(zip(ZipFault::Other), "corrupt archive: unknown zip error");
    assert_eq!(
        zip(ZipFault::UnsupportedArchive("x".into())),
        "unsupported feature: x"
    );
}

#[test]
fn sevenz_passwords() {
    let sealed = |header: bool| {
        let mut w = sevenz_rust2::ArchiveWriter::new(Cursor::new(Vec::new())).unwrap();
        let aes = sevenz_rust2::encoder_options::AesEncoderOptions::new(
            sevenz_rust2::Password::new("test"),
        );
        w.set_content_methods(vec![aes.into(), sevenz_rust2::EncoderMethod::LZMA2.into()]);
        w.set_encrypt_header(header);
        w.push_archive_entry(
            sevenz_rust2::ArchiveEntry::new_file("text.txt"),
            Some(&text()[..]),
        )
        .unwrap();
        w.finish().unwrap().into_inner()
    };
    let archive = open(sealed(false)).expect("the header is plain");
    assert!(archive.capabilities().encrypted);
    assert!(archive.capabilities().needs_password);
    assert!(archive.entries().unwrap()[0].encrypted);
    assert!(read_entry(&archive, "text.txt").is_err());
    let archive = open_with_password(sealed(false), "test").unwrap();
    assert!(!archive.capabilities().needs_password);
    assert_eq!(read_entry(&archive, "text.txt").unwrap(), text());
    assert!(matches!(open(sealed(true)).err(), Some(Error::PasswordRequired)));
    assert!(open_with_password(sealed(true), "nope").is_err());
    let archive = open_with_password(sealed(true), "test").unwrap();
    assert_eq!(entry_paths(&archive), ["text.txt"]);
}
