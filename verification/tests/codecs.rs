//! The gzip and xz codecs, and detection of all formats.

use std::io::Write;

use hajizip::registry::{BuiltinCodecFormat, BuiltinFormat, BuiltinRegistry};
use hajizip::{
    Archive, ArchiveFormat, Browse, Capabilities, Codec, CodecFormat, EntryMeta, EntryPath, Error,
    GzipCodec, GzipFormat, Level, Node, NodeKind, OpenOptions, OpenedArchive, RarFormat, Registry, Result,
    SevenZipFormat, Source, TarFormat, XzCodec, XzFormat, ZipFormat,
};

/// A fixed gzip stream of `"Hello, hajizip!\n"`, produced by system `gzip -n -9`.
const HELLO_GZ: &[u8] = &[
    0x1f, 0x8b, 0x08, 0x00, 0x00, 0x00, 0x00, 0x00, 0x02, 0x03, 0xf3, 0x48, 0xcd, 0xc9, 0xc9, 0xd7,
    0x51, 0xc8, 0x48, 0xcc, 0xca, 0xac, 0xca, 0x2c, 0x50, 0xe4, 0x02, 0x00, 0x7a, 0x53, 0x23, 0x5d,
    0x10, 0x00, 0x00, 0x00,
];

/// `xz -9` of `"Hello, hajizip!\n"`.
const HELLO_XZ: &[u8] = &[
    0xfd, 0x37, 0x7a, 0x58, 0x5a, 0x00, 0x00, 0x04, 0xe6, 0xd6, 0xb4, 0x46, 0x04, 0xc0, 0x14, 0x10,
    0x21, 0x01, 0x1c, 0x00, 0x00, 0x00, 0x00, 0x00, 0x00, 0x00, 0x00, 0x00, 0x88, 0xb0, 0x67, 0x08,
    0x01, 0x00, 0x0f, 0x48, 0x65, 0x6c, 0x6c, 0x6f, 0x2c, 0x20, 0x68, 0x61, 0x6a, 0x69, 0x7a, 0x69,
    0x70, 0x21, 0x0a, 0x00, 0x47, 0x35, 0x9c, 0x8a, 0x40, 0x4c, 0xa6, 0xea, 0x00, 0x01, 0x30, 0x10,
    0xbc, 0x93, 0x77, 0xe2, 0x1f, 0xb6, 0xf3, 0x7d, 0x01, 0x00, 0x00, 0x00, 0x00, 0x04, 0x59, 0x5a,
];

const HELLO: &[u8] = b"Hello, hajizip!\n";

fn gunzip(bytes: &[u8]) -> Result<Vec<u8>> {
    GzipCodec.decompress(bytes, u64::MAX)
}

fn unxz(bytes: &[u8]) -> Result<Vec<u8>> {
    XzCodec.decompress(bytes, u64::MAX)
}

fn gzip(bytes: &[u8]) -> Vec<u8> {
    let mut w = flate2::write::GzEncoder::new(Vec::new(), flate2::Compression::default());
    w.write_all(bytes).unwrap();
    w.finish().unwrap()
}

#[test]
fn gzip_decodes_known_vector() {
    assert_eq!(gunzip(HELLO_GZ).unwrap(), HELLO);
}

#[test]
fn decodes_multiple_concatenated_members() {
    let mut multi = HELLO_GZ.to_vec();
    multi.extend_from_slice(HELLO_GZ);
    assert_eq!(gunzip(&multi).unwrap(), [HELLO, HELLO].concat());
}

#[test]
fn gzip_truncated_stream_errors() {
    assert!(gunzip(&HELLO_GZ[..20]).is_err());
}

#[test]
fn gzip_corrupt_crc_errors() {
    let mut bad = HELLO_GZ.to_vec();
    let last = bad.len() - 8;
    bad[last] ^= 0xff; // flip a byte of the CRC-32 trailer
    let err = gunzip(&bad).unwrap_err();
    assert!(matches!(err, Error::Io(_)));
}

#[test]
fn decoding_stops_at_the_limit() {
    assert_eq!(GzipCodec.decompress(HELLO_GZ, 5).unwrap(), b"Hello");
    assert_eq!(XzCodec.decompress(HELLO_XZ, 5).unwrap(), b"Hello");
    assert_eq!(GzipCodec.decompress(HELLO_GZ, 0).unwrap(), b"");
    assert_eq!(GzipCodec.decompress(HELLO_GZ, 16).unwrap(), HELLO);
}

#[test]
fn gzip_compression_is_reserved() {
    let result = GzipCodec.compress(b"", Level::default());
    assert!(matches!(result, Err(Error::UnsupportedFeature(_))));
    assert_eq!(
        result.unwrap_err().message(),
        "unsupported feature: gzip compression"
    );
}

/// A codec that only says what it must.
struct PlainCodec;

impl Codec for PlainCodec {
    fn decompress(&self, input: &[u8], _limit: u64) -> Result<Vec<u8>> {
        Ok(input.to_vec())
    }
}

#[test]
fn compression_is_refused_by_default_and_by_the_built_in_codecs() {
    let message = |r: Result<Vec<u8>>| r.unwrap_err().message();
    assert_eq!(
        message(PlainCodec.compress(b"x", Level::default())),
        "unsupported feature: compression"
    );
    let gzip = BuiltinCodecFormat::Gzip(GzipFormat).build();
    assert_eq!(
        message(gzip.compress(b"x", Level::default())),
        "unsupported feature: gzip compression"
    );
    let xz = BuiltinCodecFormat::Xz(XzFormat).build();
    assert_eq!(
        message(xz.compress(b"x", Level::default())),
        "unsupported feature: xz compression"
    );
}

#[test]
fn gzip_detects_by_magic_and_extension() {
    let fmt = GzipFormat;
    assert_eq!(fmt.id(), "gzip");
    assert_eq!(fmt.display_name(), "Gzip");
    assert_eq!(fmt.extensions(), &["gz", "gzip"]);
    assert!(fmt.matches(&[0x1f, 0x8b, 0x08, 0x00], None));
    assert!(fmt.matches(b"junk", Some("gz")));
    // `ext` is lowercased by the caller (`Source::extension`); "GZ" must not match.
    assert!(!fmt.matches(b"junk", Some("GZ")));
    assert!(!fmt.matches(b"junk", None));
    assert!(!fmt.matches(b"PK\x03\x04", None));
}

#[test]
fn gzip_registered_codec_is_detectable() {
    let reg: Registry<ZipFormat, GzipFormat> = Registry::new().register_codec(GzipFormat);
    assert_eq!(reg.codecs().len(), 1);
    let fmt = reg
        .detect_codec(&[0x1f, 0x8b, 0x08], None)
        .expect("detected");
    assert_eq!(fmt.id(), "gzip");
}

#[test]
fn xz_decodes_known_vector() {
    assert_eq!(unxz(HELLO_XZ).unwrap(), HELLO);
}

#[test]
fn decodes_concatenated_streams() {
    let mut multi = HELLO_XZ.to_vec();
    multi.extend_from_slice(HELLO_XZ);
    assert_eq!(unxz(&multi).unwrap(), [HELLO, HELLO].concat());
}

#[test]
fn xz_truncated_stream_errors() {
    assert!(unxz(&HELLO_XZ[..20]).is_err());
}

#[test]
fn corrupt_stream_errors() {
    let mut bad = HELLO_XZ.to_vec();
    // Flip a byte inside the LZMA2 payload (after the stream header).
    let mid = bad.len() / 2;
    bad[mid] ^= 0xff;
    let err = unxz(&bad).unwrap_err();
    assert!(matches!(err, Error::Io(_)));
}

#[test]
fn xz_compression_is_reserved() {
    let result = XzCodec.compress(b"", Level::default());
    assert!(matches!(result, Err(Error::UnsupportedFeature(_))));
    assert_eq!(
        result.unwrap_err().message(),
        "unsupported feature: xz compression"
    );
}

#[test]
fn xz_detects_by_magic_and_extension() {
    let fmt = XzFormat;
    assert_eq!(fmt.id(), "xz");
    assert_eq!(fmt.display_name(), "XZ");
    assert_eq!(fmt.extensions(), &["xz", "txz"]);
    assert!(fmt.matches(&[0xfd, b'7', b'z', b'X', b'Z', 0x00], None));
    assert!(fmt.matches(b"junk", Some("xz")));
    assert!(!fmt.matches(b"junk", None));
    assert!(!fmt.matches(b"\x1f\x8b\x08", None));
    assert!(!fmt.matches(b"7z\xbc\xaf\x27\x1c", None));
}

#[test]
fn xz_registered_codec_is_detectable() {
    let reg: Registry<ZipFormat, XzFormat> = Registry::new().register_codec(XzFormat);
    assert_eq!(reg.codecs().len(), 1);
    let fmt = reg
        .detect_codec(&[0xfd, b'7', b'z', b'X', b'Z', 0x00], None)
        .expect("detected");
    assert_eq!(fmt.id(), "xz");
}

#[test]
fn hello_single_member_matches_plaintext() {
    assert_eq!(gunzip(&gzip(HELLO)).expect("decompression succeeds"), HELLO);
}

#[test]
fn multi_member_decodes_all_members() {
    let mut multi = gzip(HELLO);
    multi.extend(gzip(b"world\n"));
    let out = gunzip(&multi).expect("decompression succeeds");
    assert_eq!(out, [HELLO, b"world\n"].concat());
}

#[test]
fn truncated_input_errors() {
    let whole = gzip(HELLO);
    let err = gunzip(&whole[..whole.len() - 6]).expect_err("must fail");
    assert!(matches!(err, Error::Io(_)));
}

#[test]
fn registry_detects_gzip_by_magic() {
    let reg: Registry<ZipFormat, GzipFormat> = Registry::new().register_codec(GzipFormat);
    let fmt = reg
        .detect_codec(HELLO_GZ, None)
        .expect("gzip magic must be detected");
    assert_eq!(fmt.id(), "gzip");
}

#[test]
fn registry_detects_gzip_by_extension() {
    let reg: Registry<ZipFormat, GzipFormat> = Registry::new().register_codec(GzipFormat);
    let fmt = reg
        .detect_codec(b"not a gzip", Some("gz"))
        .expect("extension fallback must hit");
    assert_eq!(fmt.id(), "gzip");
}

#[test]
fn bare_gzip_is_not_an_archive() {
    // A standalone `.gz` is a single stream, not a file tree.
    let reg: Registry<ZipFormat, GzipFormat> = Registry::new().register_codec(GzipFormat);
    let src = Source::Path {
        path: "hello.txt.gz".to_string(),
        bytes: HELLO_GZ.to_vec(),
    };
    match reg.open_archive(src, &OpenOptions::default()) {
        Err(Error::UnsupportedFormat(_)) => {}
        Ok(_) => panic!("expected UnsupportedFormat, got Ok"),
        Err(e) => panic!("expected UnsupportedFormat, got {}", e.message()),
    }
}

#[test]
fn zip_detects_by_magic_and_extension() {
    let fmt = ZipFormat;
    assert_eq!(fmt.id(), "zip");
    assert_eq!(fmt.display_name(), "Zip");
    assert_eq!(fmt.extensions(), &["zip"]);
    assert!(fmt.matches(b"PK\x03\x04....", None));
    assert!(fmt.matches(b"PK\x05\x06....", None));
    assert!(fmt.matches(b"junk", Some("zip")));
    assert!(!fmt.matches(b"PK\x03", None));
    assert!(!fmt.matches(b"\x1f\x8b...", None));
    assert!(!fmt.matches(b"junk", None));
}

#[test]
fn tar_detects_by_magic_and_extension() {
    let fmt = TarFormat;
    assert_eq!(fmt.id(), "tar");
    assert_eq!(fmt.display_name(), "Tar");
    assert_eq!(fmt.extensions(), &["tar", "tgz"]);
    // POSIX magic "ustar\0" at offset 257.
    let mut head = [0u8; 512];
    head[257..262].copy_from_slice(b"ustar");
    assert!(fmt.matches(&head, None));
    // GNU magic "ustar " (six bytes, shared prefix; version follows at 263).
    let mut head = [0u8; 512];
    head[257..263].copy_from_slice(b"ustar ");
    assert!(fmt.matches(&head, None));
    assert!(fmt.matches(b"junk", Some("tar")));
    assert!(!fmt.matches(&[0u8; 512], None));
    assert!(!fmt.matches(b"\x1f\x8b...", None));
    assert!(!fmt.matches(b"PK\x03\x04", None));
}

#[test]
fn sevenz_detects_by_magic_and_extension() {
    let fmt = SevenZipFormat;
    assert_eq!(fmt.id(), "7z");
    assert_eq!(fmt.display_name(), "7-Zip");
    assert_eq!(fmt.extensions(), &["7z"]);
    assert!(fmt.matches(b"7z\xbc\xaf\x27\x1c", None));
    assert!(fmt.matches(b"junk", Some("7z")));
    assert!(!fmt.matches(b"junk", None));
    assert!(!fmt.matches(b"PK\x03\x04", None));
    assert!(!fmt.matches(&[0x1f, 0x8b], None));
    assert!(!fmt.matches(&[0xfd, b'7', b'z', b'X', b'Z', 0x00], None));
}

#[test]
fn rar_detects_by_magic_and_extension() {
    let fmt = RarFormat;
    assert_eq!(fmt.id(), "rar");
    assert_eq!(fmt.display_name(), "RAR");
    assert_eq!(fmt.extensions(), &["rar"]);
    assert!(fmt.matches(b"Rar!\x1a\x07\x00....", None));
    assert!(fmt.matches(b"Rar!\x1a\x07\x01\x00....", None));
    assert!(fmt.matches(b"junk", Some("rar")));
    assert!(!fmt.matches(b"Rar!\x1a\x07\x01", None));
    assert!(!fmt.matches(b"Rar", None));
    assert!(!fmt.matches(b"PK\x03\x04", None));
    assert!(!fmt.matches(b"junk", None));
}

/// A throwaway format used only to exercise registration and detection.
struct FakeFormat;

impl ArchiveFormat for FakeFormat {
    type Opened = OpenedArchive;

    fn id(&self) -> &'static str {
        "fake"
    }
    fn display_name(&self) -> &'static str {
        "Fake"
    }
    fn extensions(&self) -> &'static [&'static str] {
        &["fake"]
    }
    fn matches(&self, head: &[u8], _ext: Option<&str>) -> bool {
        head.starts_with(b"FAKE")
    }
    fn open(&self, _src: Source, _opts: &OpenOptions) -> Result<OpenedArchive> {
        Err(Error::UnsupportedFeature("fake open".into()))
    }
}

#[test]
fn empty_registry_detects_nothing() {
    let reg: Registry<FakeFormat, GzipFormat> = Registry::new();
    assert!(reg.detect_archive(b"FAKEdata", None).is_none());
    assert!(reg
        .open_archive(Source::Memory(b"FAKE".to_vec()), &OpenOptions::default())
        .is_err());
}

#[test]
fn registered_format_is_detected() {
    let reg: Registry<FakeFormat, GzipFormat> = Registry::new().register_archive(FakeFormat);
    assert_eq!(reg.archive_formats().len(), 1);
    let fmt = reg.detect_archive(b"FAKEdata", None).expect("detected");
    assert_eq!(fmt.id(), "fake");
    assert_eq!(fmt.display_name(), "Fake");
}

#[test]
fn registry_is_send_sync() {
    fn assert_send_sync<T: Send + Sync>() {}
    assert_send_sync::<BuiltinRegistry>();
}

#[test]
fn magic_wins_and_compressed_is_no_direct_archive() {
    let reg = BuiltinRegistry::with_all_formats();
    // Zip bytes under a tar name are zip.
    assert_eq!(reg.detect_archive(b"PK\x03\x04", Some("tar")).unwrap().id(), "zip");
    // A `.tgz` is gzip, not tar.
    assert!(reg.detect_archive(HELLO_GZ, Some("tgz")).is_none());
    assert_eq!(reg.detect_codec(HELLO_GZ, Some("tgz")).unwrap().id(), "gzip");
    // Without a signal in the bytes the extension decides.
    assert_eq!(reg.detect_archive(b"junk", Some("rar")).unwrap().id(), "rar");
    assert!(reg.detect_archive(b"junk", None).is_none());
    assert_eq!(reg.detect_codec(b"junk", Some("txz")).unwrap().id(), "xz");
}

#[test]
fn builtin_formats_keep_their_identity() {
    let reg = hajizip::registry::compose_registry();
    let ids: Vec<&str> = reg.archive_formats().iter().map(|f| f.id()).collect();
    assert_eq!(ids, ["zip", "tar", "7z", "rar"]);
    let names: Vec<&str> = reg.archive_formats().iter().map(|f| f.display_name()).collect();
    assert_eq!(names, ["Zip", "Tar", "7-Zip", "RAR"]);
    let exts: Vec<&str> = reg.archive_formats().iter().flat_map(|f| f.extensions().to_vec()).collect();
    assert_eq!(exts, ["zip", "tar", "tgz", "7z", "rar"]);
    let codecs: Vec<&str> = reg.codecs().iter().map(|c| c.id()).collect();
    assert_eq!(codecs, ["gzip", "xz"]);
    assert_eq!(reg.codecs()[1].display_name(), "XZ");
    assert_eq!(reg.codecs()[0].extensions(), &["gz", "gzip"]);
    assert!(matches!(reg.archive_formats()[0], BuiltinFormat::Zip(_)));
    assert!(matches!(reg.codecs()[0], BuiltinCodecFormat::Gzip(_)));
}

#[test]
fn extensions_are_lowercased() {
    let src = Source::Path {
        path: "/tmp/X.ZiP".to_string(),
        bytes: Vec::new(),
    };
    assert_eq!(src.extension().as_deref(), Some("zip"));
    assert_eq!(Source::Memory(vec![1]).extension(), None);
    let extension = |path: &str| {
        Source::Path {
            path: path.to_string(),
            bytes: Vec::new(),
        }
        .extension()
    };
    // Only the last extension counts.
    assert_eq!(extension("/tmp/Backup.TAR.GZ").as_deref(), Some("gz"));
    assert_eq!(extension("/tmp/a.zip/").as_deref(), Some("zip"));
    assert_eq!(extension("/tmp/a.zip/.").as_deref(), Some("zip"));
    assert_eq!(extension("a.").as_deref(), Some(""));
    assert_eq!(extension("...z").as_deref(), Some("z"));
    for path in ["/tmp.d/file", "/tmp/.zip", ".zip", "a.zip/..", "..", ".", "/", ""] {
        assert_eq!(extension(path), None, "{path}");
    }
    assert_eq!(Source::Memory(vec![1, 2]).open(), [1, 2]);
}

/// An archive that holds nothing and opens nothing.
struct Hollow;

impl Archive for Hollow {
    type Model = ();

    fn entries(&self) -> Result<Vec<EntryMeta>> {
        Ok(Vec::new())
    }
    fn find(&self, _path: &EntryPath) -> Result<EntryMeta> {
        Err(Error::UnsupportedFeature("fake".into()))
    }
    fn reader(&self, _entry: &EntryMeta) -> Result<Vec<u8>> {
        Err(Error::UnsupportedFeature("fake".into()))
    }
    fn open_nested(&self, _entry: &EntryMeta, _opts: &OpenOptions) -> Result<Self> {
        Ok(Hollow)
    }
    fn capabilities(&self) -> Capabilities {
        Capabilities {
            random_access: true,
            encrypted: false,
            needs_password: false,
            can_write: false,
        }
    }
}

#[test]
fn other_archives_can_be_browsed() {
    let root = Hollow.root();
    assert_eq!(root.meta().path.as_str(), "<archive root>");
    assert_eq!(root.meta().raw_name, b"<archive root>");
    assert!(root.children().unwrap().is_empty());
    assert!(root.open_archive(&OpenOptions::default()).is_err());
    assert_eq!(root.reader().unwrap(), b"");
}

/// Set the checksum of a header.
fn sealed(mut h: [u8; 512]) -> [u8; 512] {
    h[148..156].fill(b' ');
    let sum: u32 = h.iter().map(|b| *b as u32).sum();
    h[148..155].copy_from_slice(format!("{sum:06o}\0").as_bytes());
    h
}

/// A GNU header of the given type and size.
fn gnu_header(name: &str, kind: u8, size: u64) -> [u8; 512] {
    let mut h = [0u8; 512];
    h[..name.len()].copy_from_slice(name.as_bytes());
    h[124..135].copy_from_slice(format!("{size:011o}").as_bytes());
    h[156] = kind;
    h[257..265].copy_from_slice(b"ustar  \0");
    sealed(h)
}

/// The GNU header of a sparse file that goes on in further blocks, with a binary size.
fn sparse_header(size: u64) -> [u8; 512] {
    let mut h = gnu_header("x", b'S', 0);
    h[124] = 0x80;
    h[128..136].copy_from_slice(&size.to_be_bytes());
    h[482] = 1;
    sealed(h)
}

/// Content in whole blocks behind a header.
fn member(header: [u8; 512], content: &[u8]) -> Vec<u8> {
    let mut bytes = header.to_vec();
    bytes.extend_from_slice(content);
    bytes.resize(bytes.len().div_ceil(512) * 512, 0);
    bytes
}

/// A sparse file with five parts of one block each: four in the header, one in a further block.
fn sparse_member() -> Vec<u8> {
    let part = |i: u64| format!("{:011o}\0{:011o}\0", i * 1024, 512);
    let mut h = gnu_header("disk.img", b'S', 5 * 512);
    for i in 0..4 {
        let at = 386 + i * 24;
        h[at..at + 24].copy_from_slice(part(i as u64).as_bytes());
    }
    h[482] = 1;
    h[483..494].copy_from_slice(format!("{:011o}", 4 * 1024 + 512).as_bytes());
    let mut further = vec![0u8; 512];
    further[..24].copy_from_slice(part(4).as_bytes());
    further.extend_from_slice(&[7; 5 * 512]);
    member(sealed(h), &further)
}

/// Three blocks, each of which says that another follows.
fn further_blocks() -> Vec<u8> {
    let mut block = vec![0u8; 512];
    block[504] = 1;
    block.repeat(3)
}

fn open_tar(bytes: Vec<u8>) -> Result<Vec<EntryMeta>> {
    TarFormat
        .open(Source::Memory(bytes), &OpenOptions::default())?
        .entries()
}

fn tar_refusal(bytes: Vec<u8>) -> String {
    match open_tar(bytes) {
        Err(Error::Io(m)) => m,
        Err(e) => panic!("expected Io, got {}", e.message()),
        Ok(_) => panic!("expected an error"),
    }
}

#[test]
fn tar_sizes_that_leave_no_room_are_refused() {
    let message = |size: u64| tar_refusal(member(sparse_header(size), &further_blocks()));
    assert_eq!(message(u64::MAX - 2047), "seek position out of bounds");
    // What leaves room for the blocks is left to the header scan.
    assert_eq!(message(u64::MAX - 4096), "failed to read extension");
    assert_eq!(message(1 << 62), "failed to read extension");
    assert_eq!(message(4096), "failed to read extension");
    // So is a size that does not even fit by itself.
    assert_eq!(message(u64::MAX), "size overflow");
}

#[test]
fn tar_sizes_set_by_an_extended_header_count() {
    let record = b"29 size=18446744073709548544\n";
    let mut sparse = gnu_header("x", b'S', 512);
    sparse[482] = 1;
    let sparse = member(sealed(sparse), &further_blocks());
    let pax = member(gnu_header("pax", b'x', record.len() as u64), record);
    let long = member(gnu_header("name", b'L', 4), b"long");
    let plain = member(gnu_header("a.txt", b'0', 0), b"");

    let refused = "seek position out of bounds";
    assert_eq!(tar_refusal([pax.clone(), sparse.clone()].concat()), refused);
    assert_eq!(tar_refusal([pax.clone(), long, sparse.clone()].concat()), refused);
    // Behind the entry that it belongs to, an extended header says nothing.
    let small = b"10 size=0\n";
    let pax_small = member(gnu_header("pax", b'x', small.len() as u64), small);
    let bytes = [pax_small, plain.clone(), sparse.clone()].concat();
    assert_eq!(tar_refusal(bytes), "failed to read extension");
    // Nor does the content of a file.
    let text = member(gnu_header("b.txt", b'0', pax.len() as u64), &pax);
    assert_eq!(tar_refusal([text, sparse].concat()), "failed to read extension");
}

#[test]
fn sparse_files_and_long_numbers_are_listed() {
    let text = b"size=1234567890123456789 size=18446744073709551000";
    let inner = member(sparse_header(u64::MAX - 2047), &further_blocks());
    let bytes = [
        sparse_member(),
        member(gnu_header("a.txt", b'0', text.len() as u64), text),
        member(gnu_header("evil.tar", b'0', inner.len() as u64), &inner),
        member(gnu_header("inner.tar.gz", b'0', HELLO_GZ.len() as u64), HELLO_GZ),
        vec![0; 1024],
        // Behind the end of the archive.
        inner.clone(),
    ]
    .concat();
    let entries = open_tar(bytes).unwrap_or_else(|e| panic!("{}", e.message()));
    let listed: Vec<(&str, NodeKind, Option<u64>)> = entries
        .iter()
        .map(|e| (e.path.as_str(), e.kind, e.uncompressed_size))
        .collect();
    assert_eq!(
        listed,
        [
            ("disk.img", NodeKind::File, Some(4608)),
            ("a.txt", NodeKind::File, Some(text.len() as u64)),
            ("evil.tar", NodeKind::Archive, Some(inner.len() as u64)),
            ("inner.tar.gz", NodeKind::Archive, Some(HELLO_GZ.len() as u64)),
        ]
    );
}
