//! Paths of files on disk, as text with `/` between the components.

use vstd::prelude::*;
use vstd::string::*;

use crate::model::opt_text;
use crate::text::{after_last, chars_of, same_text, tail_after, text_of};

verus! {

/// The parts of a text between its slashes, empty ones included.
pub open spec fn slash_pieces(s: Seq<char>) -> Seq<Seq<char>>
    decreases s.len(),
{
    if s.len() == 0 {
        seq![Seq::empty()]
    } else {
        let front = slash_pieces(s.drop_last());
        if s.last() == '/' {
            front.push(Seq::empty())
        } else {
            front.drop_last().push(front.last().push(s.last()))
        }
    }
}

/// The parts that count: empty ones do not, nor does `.`, unless the path begins with it.
pub open spec fn counting(ps: Seq<Seq<char>>) -> Seq<Seq<char>>
    decreases ps.len(),
{
    if ps.len() == 0 {
        Seq::empty()
    } else {
        let front = counting(ps.drop_last());
        if ps.last().len() == 0 || (ps.last() == seq!['.'] && ps.len() > 1) {
            front
        } else {
            front.push(ps.last())
        }
    }
}

/// Whether a path begins at the root.
pub open spec fn is_absolute(path: Seq<char>) -> bool {
    path.len() > 0 && path[0] == '/'
}

/// The components of a path: `/` where it begins at the root, then the parts that count. Repeated
/// slashes, slashes at the end and `.` in the middle make no difference.
pub open spec fn components(path: Seq<char>) -> Seq<Seq<char>> {
    if is_absolute(path) {
        seq![seq!['/']] + counting(slash_pieces(path))
    } else {
        counting(slash_pieces(path))
    }
}

/// Whether two paths are the same, component by component.
pub open spec fn is_same_path(a: Seq<char>, b: Seq<char>) -> bool {
    components(a) == components(b)
}

/// Whether a component is the name of a file or directory.
pub open spec fn is_name(component: Seq<char>) -> bool {
    component != seq!['/'] && component != seq!['.'] && component != seq!['.', '.']
}

/// The last component of a path, where it is a name.
pub open spec fn file_name(path: Seq<char>) -> Option<Seq<char>> {
    let cs = components(path);
    if cs.len() > 0 && is_name(cs.last()) {
        Some(cs.last())
    } else {
        None
    }
}

/// The name under which a file is shown: its file name, or the whole path where it has none.
pub open spec fn shown_file_name(path: Seq<char>) -> Seq<char> {
    match file_name(path) {
        Some(name) => name,
        None => path,
    }
}

/// What follows the last dot of a name, unless there is none or the name begins with it.
pub open spec fn name_extension(name: Seq<char>) -> Option<Seq<char>> {
    let tail = after_last(name, '.');
    if tail.len() + 1 < name.len() {
        Some(tail)
    } else {
        None
    }
}

/// The extension of a path's file name, without the dot.
pub open spec fn path_extension(path: Seq<char>) -> Option<Seq<char>> {
    match file_name(path) {
        Some(name) => name_extension(name),
        None => None,
    }
}

/// Components as texts.
pub open spec fn component_texts(cs: Seq<String>) -> Seq<Seq<char>> {
    cs.map_values(|c: String| c@)
}

/// Slashes are where the parts end: there is always a last part.
proof fn slash_pieces_nonempty(s: Seq<char>)
    ensures
        slash_pieces(s).len() > 0,
    decreases s.len(),
{
    if s.len() > 0 {
        slash_pieces_nonempty(s.drop_last());
    }
}

/// Add a part to the ones that count, if it does.
fn count_in(
    out: &mut Vec<String>,
    piece: &Vec<char>,
    first: bool,
    Ghost(before): Ghost<Seq<Seq<char>>>,
)
    requires
        first == (before.len() == 0),
        component_texts(old(out)@) == counting(before),
    ensures
        component_texts(final(out)@) == counting(before.push(piece@)),
{
    let ghost parts = before.push(piece@);
    assert(parts.drop_last() =~= before);
    let dot = piece.len() == 1 && piece[0] == '.';
    proof {
        if dot {
            assert(piece@ =~= seq!['.']);
        }
    }
    if piece.len() > 0 && (first || !dot) {
        let ghost old_out = out@;
        let text = text_of(piece.as_slice());
        out.push(text);
        assert(component_texts(out@) =~= component_texts(old_out).push(piece@));
    }
}

/// The components of a path.
fn components_of(path: &str) -> (r: Vec<String>)
    ensures
        component_texts(r@) == components(path@),
{
    let chars = chars_of(path);
    let mut out: Vec<String> = Vec::new();
    let mut piece: Vec<char> = Vec::new();
    let ghost mut done: Seq<Seq<char>> = Seq::empty();
    let mut first = true;
    let mut i: usize = 0;
    assert(component_texts(out@) =~= Seq::<Seq<char>>::empty());
    assert(done.push(piece@) =~= slash_pieces(chars@.take(0)));
    while i < chars.len()
        invariant
            i <= chars@.len(),
            chars@ == path@,
            first == (done.len() == 0),
            component_texts(out@) == counting(done),
            done.push(piece@) == slash_pieces(chars@.take(i as int)),
        decreases chars@.len() - i,
    {
        let ghost read = chars@.take(i + 1);
        assert(read.drop_last() =~= chars@.take(i as int));
        assert(read.last() == chars@[i as int]);
        if chars[i] == '/' {
            count_in(&mut out, &piece, first, Ghost(done));
            proof {
                done = done.push(piece@);
            }
            piece = Vec::new();
            first = false;
            assert(piece@ =~= Seq::<char>::empty());
        } else {
            let ghost before = piece@;
            piece.push(chars[i]);
            assert(done.push(before).drop_last() =~= done);
        }
        i += 1;
    }
    assert(chars@.take(i as int) =~= path@);
    count_in(&mut out, &piece, first, Ghost(done));
    if chars.len() > 0 && chars[0] == '/' {
        let mut all: Vec<String> = Vec::new();
        let root: Vec<char> = vec!['/'];
        all.push(text_of(root.as_slice()));
        let ghost rest = out@;
        all.append(&mut out);
        assert(root@ =~= seq!['/']);
        assert(component_texts(all@) =~= seq![seq!['/']] + component_texts(rest));
        all
    } else {
        out
    }
}

/// Whether two paths are the same, component by component.
pub fn same_path(a: &str, b: &str) -> (r: bool)
    ensures
        r == is_same_path(a@, b@),
{
    let xs = components_of(a);
    let ys = components_of(b);
    let ghost (us, vs) = (component_texts(xs@), component_texts(ys@));
    if xs.len() != ys.len() {
        assert(us.len() != vs.len());
        return false;
    }
    let mut i: usize = 0;
    while i < xs.len()
        invariant
            i <= xs@.len(),
            xs@.len() == ys@.len(),
            us == component_texts(xs@),
            vs == component_texts(ys@),
            us == components(a@),
            vs == components(b@),
            forall|j: int| 0 <= j < i ==> us[j] == vs[j],
        decreases xs@.len() - i,
    {
        assert(us[i as int] == xs@[i as int]@ && vs[i as int] == ys@[i as int]@);
        if !same_text(xs[i].as_str(), ys[i].as_str()) {
            return false;
        }
        i += 1;
    }
    assert(us =~= vs);
    true
}

/// The last component of a path, where it is a name.
pub fn file_name_of(path: &str) -> (r: Option<String>)
    ensures
        opt_text(r) == file_name(path@),
{
    let mut cs = components_of(path);
    let ghost all = component_texts(cs@);
    if cs.len() == 0 {
        return None;
    }
    assert(all.last() == cs@.last()@);
    let name = cs.remove(cs.len() - 1);
    proof {
        reveal_strlit("/");
        reveal_strlit(".");
        reveal_strlit("..");
        assert("/"@ =~= seq!['/']);
        assert("."@ =~= seq!['.']);
        assert(".."@ =~= seq!['.', '.']);
    }
    if same_text(name.as_str(), "/") || same_text(name.as_str(), ".") || same_text(
        name.as_str(),
        "..",
    ) {
        None
    } else {
        Some(name)
    }
}

/// The name under which a file is shown.
pub fn display_file_name(path: &str) -> (r: String)
    ensures
        r@ == shown_file_name(path@),
{
    match file_name_of(path) {
        Some(name) => name,
        None => path.to_string(),
    }
}

/// The extension of a path's file name, without the dot.
pub fn extension_of(path: &str) -> (r: Option<String>)
    ensures
        opt_text(r) == path_extension(path@),
{
    match file_name_of(path) {
        Some(name) => {
            let chars = chars_of(name.as_str());
            let tail = tail_after(name.as_str(), '.');
            let short = chars_of(tail.as_str());
            if short.len() < chars.len() && chars.len() - short.len() > 1 {
                Some(tail)
            } else {
                None
            }
        },
        None => None,
    }
}

/// The parts across a slash are those on either side.
proof fn slash_pieces_across(a: Seq<char>, b: Seq<char>)
    ensures
        slash_pieces(a + seq!['/'] + b) == slash_pieces(a) + slash_pieces(b),
    decreases b.len(),
{
    let s = a + seq!['/'] + b;
    if b.len() == 0 {
        assert(s.drop_last() =~= a);
        assert(slash_pieces(s) =~= slash_pieces(a) + slash_pieces(b));
    } else {
        let front = a + seq!['/'] + b.drop_last();
        assert(s.drop_last() =~= front);
        slash_pieces_across(a, b.drop_last());
        slash_pieces_nonempty(b.drop_last());
        let (pa, pb) = (slash_pieces(a), slash_pieces(b.drop_last()));
        assert((pa + pb).drop_last() =~= pa + pb.drop_last());
        assert(slash_pieces(s) =~= slash_pieces(a) + slash_pieces(b));
    }
}

/// Where the parts on the left are there, empty parts and `.` between two others do not count.
proof fn counting_across(a: Seq<Seq<char>>, b: Seq<Seq<char>>, c: Seq<Seq<char>>)
    requires
        a.len() > 0,
        forall|i: int|
            0 <= i < b.len() ==> #[trigger] b[i] == Seq::<char>::empty() || b[i] == seq!['.'],
    ensures
        counting(a + b + c) == counting(a + c),
    decreases b.len() + c.len(),
{
    if c.len() > 0 {
        let d = c.drop_last();
        counting_across(a, b, d);
        assert((a + b + c).drop_last() =~= a + b + d);
        assert((a + c).drop_last() =~= a + d);
    } else if b.len() > 0 {
        let d = b.drop_last();
        counting_across(a, d, c);
        assert((a + b + c).drop_last() =~= a + d + c);
        assert((a + b + c).last() == b.last());
    } else {
        assert(a + b + c =~= a + c);
    }
}

/// A repeated slash makes no other path, nor does a `.` between two slashes.
pub proof fn slashes_and_dots_do_not_count(a: Seq<char>, b: Seq<char>)
    ensures
        is_same_path(a + seq!['/'] + seq!['/'] + b, a + seq!['/'] + b),
        is_same_path(a + seq!['/'] + seq!['.'] + seq!['/'] + b, a + seq!['/'] + b),
{
    let none = Seq::<char>::empty();
    let dot = seq!['.'];
    let plain = a + seq!['/'] + b;
    let doubled = a + seq!['/'] + seq!['/'] + b;
    let dotted = a + seq!['/'] + dot + seq!['/'] + b;
    slash_pieces_across(a, b);
    slash_pieces_across(a, none);
    slash_pieces_across(a + seq!['/'], b);
    assert(a + seq!['/'] + none =~= a + seq!['/']);
    slash_pieces_across(a, dot);
    slash_pieces_across(a + seq!['/'] + dot, b);
    assert(slash_pieces(none) =~= seq![none]);
    assert(dot.drop_last() =~= none);
    assert(slash_pieces(dot) =~= seq![dot]) by {
        assert(slash_pieces(none).drop_last() =~= Seq::<Seq<char>>::empty());
        assert(slash_pieces(none).last().push('.') =~= dot);
    }
    slash_pieces_nonempty(a);
    counting_across(slash_pieces(a), seq![none], slash_pieces(b));
    counting_across(slash_pieces(a), seq![dot], slash_pieces(b));
    assert(is_absolute(doubled) == is_absolute(plain));
    assert(is_absolute(dotted) == is_absolute(plain));
}

/// A text without slashes is its only part.
proof fn slash_pieces_of_one(s: Seq<char>)
    requires
        !s.contains('/'),
    ensures
        slash_pieces(s) == seq![s],
    decreases s.len(),
{
    if s.len() > 0 {
        let front = s.drop_last();
        assert forall|i: int| 0 <= i < front.len() implies front[i] != '/' by {
            assert(s.contains(s[i]));
        }
        slash_pieces_of_one(front);
        assert(s.contains(s.last()));
        assert(front.push(s.last()) =~= s);
        assert(slash_pieces(s) =~= seq![s]);
    } else {
        assert(s =~= Seq::<char>::empty());
        assert(slash_pieces(s) =~= seq![s]);
    }
}

/// Nothing but `ext` follows the last dot of `stem.ext`, where `ext` has no dot.
proof fn after_last_dot(stem: Seq<char>, ext: Seq<char>)
    requires
        !ext.contains('.'),
    ensures
        after_last(stem + seq!['.'] + ext, '.') == ext,
    decreases ext.len(),
{
    let name = stem + seq!['.'] + ext;
    if ext.len() > 0 {
        let front = ext.drop_last();
        assert forall|i: int| 0 <= i < front.len() implies front[i] != '.' by {
            assert(ext.contains(ext[i]));
        }
        assert(ext.contains(ext.last()));
        after_last_dot(stem, front);
        assert(name.drop_last() =~= stem + seq!['.'] + front);
        assert(front.push(ext.last()) =~= ext);
    } else {
        assert(ext =~= Seq::<char>::empty());
    }
}

/// A file's name is what follows the last slash of its path, and its extension what follows the
/// last dot of its name: of `Backup.tar.gz` that is `gz`.
pub proof fn last_extension_counts(dir: Seq<char>, stem: Seq<char>, ext: Seq<char>)
    requires
        stem.len() > 0,
        !stem.contains('/'),
        !ext.contains('/'),
        !ext.contains('.'),
        stem + seq!['.'] + ext != seq!['.', '.'],
    ensures
        ({
            let name = stem + seq!['.'] + ext;
            &&& file_name(name) == Some(name)
            &&& file_name(dir + seq!['/'] + name) == Some(name)
            &&& path_extension(name) == Some(ext)
            &&& path_extension(dir + seq!['/'] + name) == Some(ext)
        }),
{
    let name = stem + seq!['.'] + ext;
    let path = dir + seq!['/'] + name;
    assert forall|i: int| 0 <= i < name.len() implies name[i] != '/' by {
        if i < stem.len() {
            assert(stem.contains(stem[i]));
        } else if i > stem.len() {
            assert(ext.contains(ext[i - stem.len() - 1]));
        }
    }
    after_last_dot(stem, ext);
    slash_pieces_of_one(name);
    slash_pieces_across(dir, name);
    let parts = slash_pieces(dir) + seq![name];
    assert(name.len() > 1);
    assert(name[0] != '/');
    assert(parts.last() == name);
    assert(parts.drop_last() =~= slash_pieces(dir));
    assert(counting(parts) == counting(slash_pieces(dir)).push(name));
    assert(seq![name].drop_last() =~= Seq::<Seq<char>>::empty());
    assert(counting(seq![name].drop_last()) =~= Seq::<Seq<char>>::empty());
    assert(counting(seq![name]) =~= seq![name]) by {
        assert(seq![name].last() == name);
    }
    assert(components(path).last() == name);
    assert(components(name).last() == name);
}

} // verus!
