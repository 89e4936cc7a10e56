//! Core data model: paths, entries and the small types around them.

use vstd::prelude::*;
use vstd::string::*;

use crate::error::{Error, ErrorView, Result};
use crate::text::{chars_of, concat2, quoted, quoted_text, text_of};

verus! {

/// A point in time, counted from 1970-01-01 00:00:00 UTC.
///
/// The time is `secs` seconds plus `nanos` nanoseconds after that instant; `secs` is negative for
/// earlier times.
#[derive(Debug, Clone, Copy, PartialEq, Eq, Structural)]
pub struct Timestamp {
    pub secs: i64,
    pub nanos: u32,
}

/// The kind of a node within an archive tree.
#[derive(Debug, Clone, Copy, PartialEq, Eq, Structural)]
pub enum NodeKind {
    /// A regular file with content.
    File,
    /// A directory containing other nodes.
    Dir,
    /// An entry that is itself an openable archive.
    Archive,
    /// A symbolic link.
    Symlink,
}

/// Identifier for a supported single-stream compression codec.
#[derive(Debug, Clone, Copy, PartialEq, Eq, Structural)]
pub enum CodecId {
    /// Raw DEFLATE.
    Deflate,
    /// gzip (DEFLATE with gzip framing).
    Gzip,
    /// bzip2.
    Bzip2,
    /// xz / LZMA2.
    Xz,
    /// Zstandard.
    Zstd,
    /// LZ4.
    Lz4,
    /// Brotli.
    Brotli,
}

/// Identifier for a supported archive / container format.
#[derive(Debug, Clone, Copy, PartialEq, Eq, Structural)]
pub enum FormatKind {
    /// ZIP archive.
    Zip,
    /// 7-Zip archive.
    SevenZ,
    /// tar archive (uncompressed).
    Tar,
    /// gzip single-stream.
    Gzip,
    /// bzip2 single-stream.
    Bzip2,
    /// xz single-stream.
    Xz,
    /// Zstandard single-stream.
    Zstd,
}

impl FormatKind {
    /// All archive/container formats known to the library.
    pub fn all() -> (r: &'static [FormatKind])
        ensures
            r@ == seq![
                FormatKind::Zip,
                FormatKind::SevenZ,
                FormatKind::Tar,
                FormatKind::Gzip,
                FormatKind::Bzip2,
                FormatKind::Xz,
                FormatKind::Zstd,
            ],
    {
        &[
            FormatKind::Zip,
            FormatKind::SevenZ,
            FormatKind::Tar,
            FormatKind::Gzip,
            FormatKind::Bzip2,
            FormatKind::Xz,
            FormatKind::Zstd,
        ]
    }
}

/// A compression level. Interpretation is codec-specific.
#[derive(Debug, Clone, Copy, PartialEq, Eq, Structural)]
pub struct Level(pub u32);

impl Default for Level {
    fn default() -> (r: Self)
        ensures
            r == Level(6),
    {
        Level(6)
    }
}

/// A secret value such as a password.
pub struct Secret(Vec<u8>);

impl View for Secret {
    type V = Seq<u8>;

    closed spec fn view(&self) -> Seq<u8> {
        self.0@
    }
}

impl Secret {
    /// Create a secret from a UTF-8 string.
    pub fn new(s: &str) -> (r: Self)
        ensures
            r@ == s.spec_bytes(),
    {
        Self(s.as_bytes_vec())
    }

    /// The raw secret bytes.
    pub fn as_bytes(&self) -> (r: &[u8])
        ensures
            r@ == self@,
    {
        self.0.as_slice()
    }

    /// A text for logs: it is the same for every secret, so the value cannot leak through it.
    pub fn debug_text(&self) -> (r: String)
        ensures
            r@ == "Secret(<redacted>)"@,
    {
        "Secret(<redacted>)".to_string()
    }
}

impl Clone for Secret {
    fn clone(&self) -> (r: Self)
        ensures
            r@ == self@,
    {
        let bytes = self.0.clone();
        assert(bytes@ =~= self.0@);
        Self(bytes)
    }
}

/// Whether the character separates path components in a raw name.
pub open spec fn is_separator(c: char) -> bool {
    c == '/' || c == '\\'
}

/// The parts of `s` between its separators; always one more than there are separators.
pub open spec fn pieces(s: Seq<char>) -> Seq<Seq<char>>
    decreases s.len(),
{
    if s.len() == 0 {
        seq![Seq::empty()]
    } else {
        let front = pieces(s.drop_last());
        if is_separator(s.last()) {
            front.push(Seq::empty())
        } else {
            front.drop_last().push(front.last().push(s.last()))
        }
    }
}

/// Whether a piece says nothing about where the entry is.
pub open spec fn is_skipped(piece: Seq<char>) -> bool {
    piece.len() == 0 || piece == seq!['.']
}

/// Whether a piece leads to the parent directory.
pub open spec fn is_parent(piece: Seq<char>) -> bool {
    piece == seq!['.', '.']
}

/// The pieces that name something.
pub open spec fn kept(ps: Seq<Seq<char>>) -> Seq<Seq<char>>
    decreases ps.len(),
{
    if ps.len() == 0 {
        Seq::empty()
    } else if is_skipped(ps.last()) {
        kept(ps.drop_last())
    } else {
        kept(ps.drop_last()).push(ps.last())
    }
}

/// The pieces with a `/` between each two.
pub open spec fn joined(ps: Seq<Seq<char>>) -> Seq<char>
    decreases ps.len(),
{
    if ps.len() == 0 {
        Seq::empty()
    } else if ps.len() == 1 {
        ps[0]
    } else {
        joined(ps.drop_last()) + seq!['/'] + ps.last()
    }
}

/// Whether one of the pieces leads to the parent directory.
pub open spec fn has_parent(ps: Seq<Seq<char>>) -> bool {
    exists|i: int| 0 <= i < ps.len() && is_parent(#[trigger] ps[i])
}

/// What a raw entry name stands for: its components joined by `/`, or why it is refused.
pub open spec fn normal_path(raw: Seq<char>) -> std::result::Result<Seq<char>, ErrorView> {
    let ps = pieces(raw);
    if has_parent(ps) {
        Err(ErrorView::InvalidPath("parent-directory traversal in "@ + quoted(raw)))
    } else if kept(ps).len() == 0 {
        Err(ErrorView::InvalidPath("no valid component in "@ + quoted(raw)))
    } else {
        Ok(joined(kept(ps)))
    }
}

/// Whether a piece is a proper file name: not empty, not `.` and not `..`.
pub open spec fn is_component(piece: Seq<char>) -> bool {
    !is_skipped(piece) && !is_parent(piece)
}

/// Whether `s` is made of proper file names joined by single `/`.
pub open spec fn is_normal(s: Seq<char>) -> bool {
    &&& !s.contains('\\')
    &&& forall|i: int| 0 <= i < pieces(s).len() ==> is_component(#[trigger] pieces(s)[i])
}

/// There is always at least one piece.
pub proof fn pieces_nonempty(s: Seq<char>)
    ensures
        pieces(s).len() >= 1,
    decreases s.len(),
{
    if s.len() > 0 {
        pieces_nonempty(s.drop_last());
    }
}

/// A text without separators is its only piece.
pub proof fn pieces_of_one(s: Seq<char>)
    requires
        forall|i: int| 0 <= i < s.len() ==> !is_separator(#[trigger] s[i]),
    ensures
        pieces(s) == seq![s],
    decreases s.len(),
{
    if s.len() > 0 {
        let front = s.drop_last();
        assert forall|i: int| 0 <= i < front.len() implies !is_separator(#[trigger] front[i]) by {
            assert(front[i] == s[i]);
        }
        pieces_of_one(front);
        assert(front.push(s.last()) =~= s);
        assert(pieces(s) =~= seq![s]);
    } else {
        assert(s =~= Seq::<char>::empty());
    }
}

/// The pieces of two texts with a `/` between them are the pieces of the first and of the second.
pub proof fn pieces_across_slash(a: Seq<char>, b: Seq<char>)
    ensures
        pieces(a + seq!['/'] + b) == pieces(a) + pieces(b),
    decreases b.len(),
{
    let s = a + seq!['/'] + b;
    pieces_nonempty(a);
    pieces_nonempty(b);
    if b.len() == 0 {
        assert(s.drop_last() =~= a);
        assert(b =~= Seq::<char>::empty());
        assert(pieces(s) =~= pieces(a) + pieces(b));
    } else {
        pieces_across_slash(a, b.drop_last());
        pieces_nonempty(b.drop_last());
        assert(s.drop_last() =~= a + seq!['/'] + b.drop_last());
        assert(s.last() == b.last());
        assert(pieces(s) =~= pieces(a) + pieces(b));
    }
}

/// No piece holds a separator.
pub proof fn pieces_hold_no_separator(s: Seq<char>)
    ensures
        forall|i: int, j: int|
            0 <= i < pieces(s).len() && 0 <= j < pieces(s)[i].len() ==> !is_separator(
                #[trigger] pieces(s)[i][j],
            ),
    decreases s.len(),
{
    if s.len() > 0 {
        pieces_hold_no_separator(s.drop_last());
        pieces_nonempty(s.drop_last());
        let front = pieces(s.drop_last());
        assert forall|i: int, j: int|
            0 <= i < pieces(s).len() && 0 <= j < pieces(s)[i].len() implies !is_separator(
            #[trigger] pieces(s)[i][j],
        ) by {
            if i < front.len() - 1 {
                assert(pieces(s)[i] == front[i]);
                assert(!is_separator(front[i][j]));
            } else if i == front.len() - 1 {
                if is_separator(s.last()) {
                    assert(pieces(s)[i] == front[i]);
                    assert(!is_separator(front[i][j]));
                } else if j < front[i].len() {
                    assert(!is_separator(front[i][j]));
                }
            }
        }
    }
}

/// Splitting what was joined gives the parts back.
pub proof fn pieces_of_joined(ps: Seq<Seq<char>>)
    requires
        ps.len() >= 1,
        forall|i: int, j: int|
            0 <= i < ps.len() && 0 <= j < ps[i].len() ==> !is_separator(#[trigger] ps[i][j]),
    ensures
        pieces(joined(ps)) == ps,
        !joined(ps).contains('\\'),
    decreases ps.len(),
{
    assert forall|j: int| 0 <= j < ps.last().len() implies !is_separator(#[trigger] ps.last()[j]) by {
        assert(!is_separator(ps[ps.len() - 1][j]));
    }
    pieces_of_one(ps.last());
    if ps.len() == 1 {
        assert(ps =~= seq![ps[0]]);
    } else {
        let front = ps.drop_last();
        assert forall|i: int, j: int|
            0 <= i < front.len() && 0 <= j < front[i].len() implies !is_separator(
            #[trigger] front[i][j],
        ) by {
            assert(front[i] == ps[i]);
            assert(!is_separator(ps[i][j]));
        }
        pieces_of_joined(front);
        pieces_across_slash(joined(front), ps.last());
        assert(pieces(joined(ps)) =~= ps);
        let s = joined(ps);
        assert forall|i: int| 0 <= i < s.len() implies s[i] != '\\' by {
            if i < joined(front).len() {
                assert(s[i] == joined(front)[i]);
                assert(joined(front).contains(joined(front)[i]));
            } else if i > joined(front).len() {
                let j = i - joined(front).len() - 1;
                assert(s[i] == ps.last()[j]);
            }
        }
    }
}

/// Joining the pieces of a text without `\` gives the text back.
pub proof fn joined_of_pieces(s: Seq<char>)
    requires
        !s.contains('\\'),
    ensures
        joined(pieces(s)) == s,
    decreases s.len(),
{
    if s.len() == 0 {
        assert(s =~= Seq::<char>::empty());
    } else {
        let t = s.drop_last();
        let front = pieces(t);
        assert forall|i: int| 0 <= i < t.len() implies t[i] != '\\' by {
            assert(s.contains(s[i]));
        }
        assert(s.contains(s.last()));
        joined_of_pieces(t);
        pieces_nonempty(t);
        assert(t.push(s.last()) =~= s);
        if is_separator(s.last()) {
            assert(pieces(s).drop_last() =~= front);
            assert(joined(pieces(s)) =~= s);
        } else {
            assert(pieces(s).drop_last() =~= front.drop_last());
            assert(pieces(s).last() == front.last().push(s.last()));
            if front.len() == 1 {
                assert(joined(pieces(s)) =~= s);
            } else {
                assert(joined(pieces(s)) =~= joined(front).push(s.last()));
            }
        }
    }
}

/// Every kept piece is one of the pieces, and not one that is skipped.
proof fn kept_are_pieces(ps: Seq<Seq<char>>)
    ensures
        forall|i: int| 0 <= i < kept(ps).len() ==> ps.contains(#[trigger] kept(ps)[i]),
        forall|i: int| 0 <= i < kept(ps).len() ==> !is_skipped(#[trigger] kept(ps)[i]),
    decreases ps.len(),
{
    if ps.len() > 0 {
        let front = ps.drop_last();
        kept_are_pieces(front);
        assert forall|i: int| 0 <= i < kept(ps).len() implies ps.contains(#[trigger] kept(ps)[i]) by {
            if i < kept(front).len() {
                assert(kept(ps)[i] == kept(front)[i]);
                assert(front.contains(kept(front)[i]));
                let j = choose|j: int| 0 <= j < front.len() && front[j] == kept(front)[i];
                assert(ps[j] == kept(ps)[i]);
            } else {
                assert(ps[ps.len() - 1] == kept(ps)[i]);
            }
        }
    }
}

/// Where nothing is skipped, everything is kept.
proof fn kept_all(ps: Seq<Seq<char>>)
    requires
        forall|i: int| 0 <= i < ps.len() ==> !is_skipped(#[trigger] ps[i]),
    ensures
        kept(ps) == ps,
    decreases ps.len(),
{
    if ps.len() > 0 {
        let front = ps.drop_last();
        assert forall|i: int| 0 <= i < front.len() implies !is_skipped(#[trigger] front[i]) by {
            assert(front[i] == ps[i]);
        }
        kept_all(front);
        assert(!is_skipped(ps[ps.len() - 1]));
        assert(front.push(ps.last()) =~= ps);
    } else {
        assert(ps =~= Seq::<Seq<char>>::empty());
    }
}

/// What a raw name is normalized to is itself normal: a relative path without `.`, `..` or empty
/// components.
pub proof fn normal_path_is_normal(raw: Seq<char>)
    requires
        normal_path(raw) is Ok,
    ensures
        is_normal(normal_path(raw)->Ok_0),
        pieces(normal_path(raw)->Ok_0) == kept(pieces(raw)),
{
    let ps = pieces(raw);
    let ks = kept(ps);
    kept_are_pieces(ps);
    pieces_hold_no_separator(raw);
    assert forall|i: int, j: int| 0 <= i < ks.len() && 0 <= j < ks[i].len() implies !is_separator(
        #[trigger] ks[i][j],
    ) by {
        assert(ps.contains(ks[i]));
        let k = choose|k: int| 0 <= k < ps.len() && ps[k] == ks[i];
        assert(!is_separator(ps[k][j]));
    }
    pieces_of_joined(ks);
    assert forall|i: int| 0 <= i < ks.len() implies is_component(#[trigger] ks[i]) by {
        assert(ps.contains(ks[i]));
        let k = choose|k: int| 0 <= k < ps.len() && ps[k] == ks[i];
        assert(!is_parent(ps[k]));
    }
}

/// Normalizing is idempotent: a normal path stands for itself.
pub proof fn normal_path_idempotent(s: Seq<char>)
    requires
        is_normal(s),
    ensures
        normal_path(s) == Ok::<Seq<char>, ErrorView>(s),
{
    let ps = pieces(s);
    pieces_nonempty(s);
    assert forall|i: int| 0 <= i < ps.len() implies !is_skipped(#[trigger] ps[i]) by {
        assert(is_component(ps[i]));
    }
    kept_all(ps);
    joined_of_pieces(s);
    assert(!has_parent(ps)) by {
        if has_parent(ps) {
            let i = choose|i: int| 0 <= i < ps.len() && is_parent(#[trigger] ps[i]);
            assert(is_component(ps[i]));
        }
    }
}

/// A normal path is relative and not empty: it begins and ends with something else than `/`.
pub proof fn normal_path_is_relative(s: Seq<char>)
    requires
        is_normal(s),
    ensures
        s.len() > 0,
        s[0] != '/',
        s.last() != '/',
{
    pieces_nonempty(s);
    assert(is_component(pieces(s)[0]));
    if s.len() > 0 && s[0] == '/' {
        let rest = s.drop_first();
        assert(s =~= Seq::<char>::empty() + seq!['/'] + rest);
        pieces_across_slash(Seq::empty(), rest);
        assert(pieces(s)[0] =~= Seq::<char>::empty());
    }
    if s.len() > 0 && s.last() == '/' {
        assert(is_component(pieces(s)[pieces(s).len() - 1]));
    }
}

/// A normal path cut at a `/` is normal on both sides.
pub proof fn normal_path_cut(a: Seq<char>, b: Seq<char>)
    ensures
        is_normal(a + seq!['/'] + b) <==> is_normal(a) && is_normal(b),
{
    let s = a + seq!['/'] + b;
    pieces_across_slash(a, b);
    pieces_nonempty(a);
    let (pa, pb, ps) = (pieces(a), pieces(b), pieces(s));
    if is_normal(s) {
        assert forall|i: int| 0 <= i < pa.len() implies is_component(#[trigger] pa[i]) by {
            assert(ps[i] == pa[i]);
        }
        assert forall|i: int| 0 <= i < pb.len() implies is_component(#[trigger] pb[i]) by {
            assert(ps[i + pa.len()] == pb[i]);
        }
        assert forall|i: int| 0 <= i < a.len() implies a[i] != '\\' by {
            assert(s.contains(s[i]));
        }
        assert forall|i: int| 0 <= i < b.len() implies b[i] != '\\' by {
            assert(s[i + a.len() + 1] == b[i]);
            assert(s.contains(s[i + a.len() + 1]));
        }
    }
    if is_normal(a) && is_normal(b) {
        assert forall|i: int| 0 <= i < ps.len() implies is_component(#[trigger] ps[i]) by {
            if i < pa.len() {
                assert(ps[i] == pa[i]);
            } else {
                assert(ps[i] == pb[i - pa.len()]);
            }
        }
        assert forall|i: int| 0 <= i < s.len() implies s[i] != '\\' by {
            if i < a.len() {
                assert(a.contains(a[i]));
            } else if i > a.len() {
                assert(b.contains(b[i - a.len() - 1]));
            }
        }
    }
}

/// Add the next piece of a raw path to what has been kept; `false` where it leads to the parent.
fn absorb(out: &mut Vec<char>, piece: &Vec<char>, Ghost(done): Ghost<Seq<Seq<char>>>) -> (ok: bool)
    requires
        old(out)@ == joined(kept(done)),
        old(out)@.len() == 0 <==> kept(done).len() == 0,
    ensures
        ok == !is_parent(piece@),
        ok ==> final(out)@ == joined(kept(done.push(piece@))),
        ok ==> (final(out)@.len() == 0 <==> kept(done.push(piece@)).len() == 0),
{
    assert(done.push(piece@).drop_last() =~= done);
    if piece.len() == 2 && piece[0] == '.' && piece[1] == '.' {
        assert(piece@ =~= seq!['.', '.']);
        return false;
    }
    if piece.len() == 0 || (piece.len() == 1 && piece[0] == '.') {
        assert(piece@.len() == 1 ==> piece@ =~= seq!['.']);
        return true;
    }
    let ghost before = out@;
    proof {
        kept_are_pieces(done);
        assert(kept(done.push(piece@)) == kept(done).push(piece@));
        assert(kept(done.push(piece@)).drop_last() =~= kept(done));
    }
    if out.len() > 0 {
        out.push('/');
    }
    let mut i: usize = 0;
    let ghost base = out@;
    while i < piece.len()
        invariant
            i <= piece@.len(),
            out@ == base + piece@.take(i as int),
        decreases piece@.len() - i,
    {
        out.push(piece[i]);
        i += 1;
        assert(base + piece@.take(i as int) =~= (base + piece@.take(i - 1)).push(piece@[i - 1]));
    }
    assert(piece@.take(i as int) =~= piece@);
    proof {
        if before.len() == 0 {
            assert(out@ =~= piece@);
        } else {
            assert(out@ =~= before + seq!['/'] + piece@);
        }
    }
    true
}

/// Normalize a raw path: split on `/` or `\`, drop empty and `.` components, reject `..`, and
/// rejoin with `/`.
fn normalize(raw: &str) -> (r: Result<String>)
    ensures
        match r {
            Ok(s) => normal_path(raw@) == Ok::<Seq<char>, ErrorView>(s@),
            Err(e) => normal_path(raw@) == Err::<Seq<char>, ErrorView>(e@),
        },
{
    let chars = chars_of(raw);
    let mut out: Vec<char> = Vec::new();
    let mut piece: Vec<char> = Vec::new();
    let mut traversal = false;
    let mut i: usize = 0;
    assert(pieces(chars@.take(0)).drop_last() =~= Seq::<Seq<char>>::empty());
    while i < chars.len()
        invariant
            i <= chars@.len(),
            pieces(chars@.take(i as int)).len() >= 1,
            piece@ == pieces(chars@.take(i as int)).last(),
            traversal == has_parent(pieces(chars@.take(i as int)).drop_last()),
            !traversal ==> {
                let ks = kept(pieces(chars@.take(i as int)).drop_last());
                out@ == joined(ks) && (out@.len() == 0 <==> ks.len() == 0)
            },
        decreases chars@.len() - i,
    {
        let c = chars[i];
        let ghost ps = pieces(chars@.take(i as int));
        assert(chars@.take(i + 1).drop_last() =~= chars@.take(i as int));
        if c == '/' || c == '\\' {
            proof {
                let qs = ps.push(Seq::<char>::empty());
                assert(qs.drop_last() =~= ps);
                assert(ps.drop_last().push(ps.last()) =~= ps);
                if has_parent(ps.drop_last()) {
                    let k = choose|k: int|
                        0 <= k < ps.drop_last().len() && is_parent(#[trigger] ps.drop_last()[k]);
                    assert(is_parent(ps[k]));
                }
                if has_parent(ps) && !is_parent(ps.last()) {
                    let k = choose|k: int| 0 <= k < ps.len() && is_parent(#[trigger] ps[k]);
                    assert(is_parent(ps.drop_last()[k]));
                }
                if is_parent(ps.last()) {
                    assert(is_parent(ps[ps.len() - 1]));
                }
            }
            if !traversal && !absorb(&mut out, &piece, Ghost(ps.drop_last())) {
                traversal = true;
            }
            piece = Vec::new();
        } else {
            piece.push(c);
            assert(pieces(chars@.take(i + 1)).drop_last() =~= ps.drop_last());
        }
        i += 1;
    }
    assert(chars@.take(i as int) =~= raw@);
    let ghost ps = pieces(raw@);
    proof {
        assert(ps.drop_last().push(ps.last()) =~= ps);
        if has_parent(ps.drop_last()) {
            let k = choose|k: int|
                0 <= k < ps.drop_last().len() && is_parent(#[trigger] ps.drop_last()[k]);
            assert(is_parent(ps[k]));
        }
        if has_parent(ps) && !is_parent(ps.last()) {
            let k = choose|k: int| 0 <= k < ps.len() && is_parent(#[trigger] ps[k]);
            assert(is_parent(ps.drop_last()[k]));
        }
        if is_parent(ps.last()) {
            assert(is_parent(ps[ps.len() - 1]));
        }
    }
    if traversal || !absorb(&mut out, &piece, Ghost(ps.drop_last())) {
        return Err(
            Error::InvalidPath(concat2("parent-directory traversal in ", quoted_text(raw).as_str())),
        );
    }
    if out.len() == 0 {
        return Err(Error::InvalidPath(concat2("no valid component in ", quoted_text(raw).as_str())));
    }
    Ok(text_of(out.as_slice()))
}

/// A normalized, validated path of an entry inside an archive.
///
/// Construction rejects parent-directory traversal (`..`) and strips any leading separators so the
/// path is always relative. This is the first line of defense against zip-slip when extracting.
#[derive(Debug, PartialEq, Eq, Hash)]
pub struct EntryPath(String);

impl View for EntryPath {
    type V = Seq<char>;

    closed spec fn view(&self) -> Seq<char> {
        self.0@
    }
}

impl EntryPath {
    /// Every path is normal.
    #[verifier::type_invariant]
    closed spec fn inv(self) -> bool {
        is_normal(self.0@)
    }

    /// Validate and normalize a raw entry path.
    pub fn new(raw: &str) -> (r: Result<Self>)
        ensures
            match r {
                Ok(p) => normal_path(raw@) == Ok::<Seq<char>, ErrorView>(p@) && is_normal(p@),
                Err(e) => normal_path(raw@) == Err::<Seq<char>, ErrorView>(e@),
            },
    {
        match normalize(raw) {
            Ok(s) => {
                proof {
                    normal_path_is_normal(raw@);
                }
                Ok(EntryPath(s))
            },
            Err(e) => Err(e),
        }
    }

    /// The normalized path as a string slice (using `/` separators).
    pub fn as_str(&self) -> (r: &str)
        ensures
            r@ == self@,
            is_normal(self@),
    {
        proof {
            use_type_invariant(self);
        }
        self.0.as_str()
    }

    /// Whether two paths are the same.
    pub fn same(&self, other: &EntryPath) -> (r: bool)
        ensures
            r == (self@ == other@),
    {
        self.0 == other.0
    }
}

impl Clone for EntryPath {
    fn clone(&self) -> (r: Self)
        ensures
            r@ == self@,
    {
        proof {
            use_type_invariant(self);
        }
        EntryPath(self.0.clone())
    }
}

/// Whether a path is the given one or lies below it.
pub open spec fn is_at_or_below(path: Seq<char>, dir: Seq<char>) -> bool {
    path == dir || dir.push('/').is_prefix_of(path)
}

/// The directory that a path lies in, unless it lies at the top.
pub open spec fn parent_of(path: Seq<char>) -> Option<Seq<char>>
    decreases path.len(),
{
    if path.len() == 0 {
        None
    } else if path.last() == '/' {
        Some(path.drop_last())
    } else {
        parent_of(path.drop_last())
    }
}

/// A path is its parent, a `/` and a name without `/`.
pub proof fn parent_splits(path: Seq<char>)
    ensures
        match parent_of(path) {
            Some(p) => p.len() < path.len() && path == p + seq!['/'] + path.skip(
                p.len() as int + 1,
            ) && !path.skip(p.len() as int + 1).contains('/'),
            None => !path.contains('/'),
        },
    decreases path.len(),
{
    if path.len() > 0 {
        if path.last() == '/' {
            let p = path.drop_last();
            assert(path.skip(p.len() as int + 1) =~= Seq::<char>::empty());
            assert(path =~= p + seq!['/'] + path.skip(p.len() as int + 1));
        } else {
            let front = path.drop_last();
            parent_splits(front);
            match parent_of(path) {
                Some(p) => {
                    let name = path.skip(p.len() as int + 1);
                    assert(name =~= front.skip(p.len() as int + 1).push(path.last()));
                    let whole = p + seq!['/'] + front.skip(p.len() as int + 1);
                    assert(front == whole);
                    assert(path =~= whole.push(path.last()));
                    assert(whole.push(path.last()) =~= p + seq!['/'] + name);
                    assert forall|i: int| 0 <= i < name.len() implies name[i] != '/' by {
                        if i < name.len() - 1 {
                            assert(front.skip(p.len() as int + 1).contains(name[i]));
                        }
                    }
                },
                None => {
                    assert forall|i: int| 0 <= i < path.len() implies path[i] != '/' by {
                        if i < path.len() - 1 {
                            assert(front.contains(front[i]));
                        }
                    }
                },
            }
        }
    }
}

impl EntryPath {
    /// Whether this path is `dir` itself or lies below it.
    pub fn is_under(&self, dir: &EntryPath) -> (r: bool)
        ensures
            r == is_at_or_below(self@, dir@),
    {
        let path = chars_of(self.as_str());
        let mut prefix = chars_of(dir.as_str());
        if self.same(dir) {
            return true;
        }
        prefix.push('/');
        if path.len() < prefix.len() {
            return false;
        }
        let mut i: usize = 0;
        while i < prefix.len()
            invariant
                prefix@ == dir@.push('/'),
                path@ == self@,
                self@ != dir@,
                prefix@.len() <= path@.len(),
                i <= prefix@.len(),
                forall|j: int| 0 <= j < i ==> prefix@[j] == path@[j],
            decreases prefix@.len() - i,
        {
            if prefix[i] != path[i] {
                assert(prefix@[i as int] != path@.subrange(0, prefix@.len() as int)[i as int]);
                return false;
            }
            i += 1;
        }
        assert(prefix@ =~= path@.subrange(0, prefix@.len() as int));
        true
    }

    /// The directory that this path lies in, unless it lies at the top.
    pub fn parent(&self) -> (r: Option<EntryPath>)
        ensures
            match r {
                Some(p) => parent_of(self@) == Some(p@),
                None => parent_of(self@) is None,
            },
    {
        let path = chars_of(self.as_str());
        let mut n: usize = path.len();
        assert(path@.take(n as int) =~= path@);
        while n > 0
            invariant
                n <= path@.len(),
                path@ == self@,
                is_normal(self@),
                parent_of(path@.take(n as int)) == parent_of(self@),
            decreases n,
        {
            assert(path@.take(n as int).drop_last() =~= path@.take(n - 1));
            assert(path@.take(n as int).last() == path@[n - 1]);
            n -= 1;
            if path[n] == '/' {
                let front = text_of(vstd::slice::slice_subrange(path.as_slice(), 0, n));
                proof {
                    assert(front@ =~= path@.take(n as int));
                    parent_splits(self@);
                    normal_path_cut(front@, self@.skip(n + 1));
                }
                return Some(EntryPath(front));
            }
        }
        None
    }
}

/// Metadata describing a single archive entry.
#[derive(Debug)]
pub struct EntryMeta {
    /// Normalized, validated path inside the archive.
    pub path: EntryPath,
    /// The original raw name bytes (for round-tripping and debugging).
    pub raw_name: Vec<u8>,
    /// The node kind.
    pub kind: NodeKind,
    /// Uncompressed size in bytes, if known.
    pub uncompressed_size: Option<u64>,
    /// Compressed size in bytes, if known.
    pub compressed_size: Option<u64>,
    /// Last modification time, if known.
    pub mtime: Option<Timestamp>,
    /// Unix permission bits, if present.
    pub mode: Option<u32>,
    /// CRC-32 checksum, if present.
    pub crc: Option<u32>,
    /// Whether the entry is encrypted.
    pub encrypted: bool,
    /// Optional comment.
    pub comment: Option<String>,
}

/// An [`EntryMeta`] as a mathematical value.
pub struct EntryView {
    pub path: Seq<char>,
    pub raw_name: Seq<u8>,
    pub kind: NodeKind,
    pub uncompressed_size: Option<u64>,
    pub compressed_size: Option<u64>,
    pub mtime: Option<Timestamp>,
    pub mode: Option<u32>,
    pub crc: Option<u32>,
    pub encrypted: bool,
    pub comment: Option<Seq<char>>,
}

/// An optional text as a character sequence.
pub open spec fn opt_text(s: Option<String>) -> Option<Seq<char>> {
    match s {
        Some(s) => Some(s@),
        None => None,
    }
}

impl View for EntryMeta {
    type V = EntryView;

    open spec fn view(&self) -> EntryView {
        EntryView {
            path: self.path@,
            raw_name: self.raw_name@,
            kind: self.kind,
            uncompressed_size: self.uncompressed_size,
            compressed_size: self.compressed_size,
            mtime: self.mtime,
            mode: self.mode,
            crc: self.crc,
            encrypted: self.encrypted,
            comment: opt_text(self.comment),
        }
    }
}

impl Clone for EntryMeta {
    fn clone(&self) -> (r: Self)
        ensures
            r@ == self@,
    {
        let raw_name = self.raw_name.clone();
        assert(raw_name@ =~= self.raw_name@);
        let comment = match &self.comment {
            Some(c) => Some(c.clone()),
            None => None,
        };
        EntryMeta {
            path: self.path.clone(),
            raw_name,
            kind: self.kind,
            uncompressed_size: self.uncompressed_size,
            compressed_size: self.compressed_size,
            mtime: self.mtime,
            mode: self.mode,
            crc: self.crc,
            encrypted: self.encrypted,
            comment,
        }
    }
}

/// The entries of a listing as mathematical values.
pub open spec fn views(es: Seq<EntryMeta>) -> Seq<EntryView> {
    es.map_values(|e: EntryMeta| e@)
}

/// A copy of a listing.
pub fn clone_entries(es: &[EntryMeta]) -> (r: Vec<EntryMeta>)
    ensures
        views(r@) == views(es@),
{
    let mut out: Vec<EntryMeta> = Vec::new();
    let mut i: usize = 0;
    while i < es.len()
        invariant
            i <= es@.len(),
            views(out@) == views(es@).take(i as int),
        decreases es@.len() - i,
    {
        let ghost before = out@;
        out.push(es[i].clone());
        i += 1;
        assert(views(out@) =~= views(before).push(es@[i - 1]@));
        assert(views(es@).take(i as int) =~= views(es@).take(i - 1).push(es@[i - 1]@));
    }
    assert(views(out@) =~= views(es@));
    out
}

/// A fully-qualified location across nested archives.
///
/// Example: `"outer.zip/inner.7z/docs/readme.txt"`.
#[derive(Debug, PartialEq, Eq)]
pub struct Location(pub String);

impl Clone for Location {
    fn clone(&self) -> (r: Self)
        ensures
            r.0@ == self.0@,
    {
        Location(self.0.clone())
    }
}

} // verus!
