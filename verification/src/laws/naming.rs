//! What names, numbers and times in archives stand for.

use vstd::prelude::*;
use vstd::utf8::*;

use crate::encoding::{
    big5_text, decoded_name, detected_codepage, gbk_text, guessed_encoding, shift_jis_text,
    Codepage, FilenameEncoding, Utf8Flag,
};
use crate::error::ErrorView;
use crate::model::{is_at_or_below, kept, normal_path, pieces, pieces_nonempty};
use crate::text::{ascii_lower, decimal};
use crate::timestamp::{
    civil_timestamp, days_before_month, dos_civil, file_time, seconds_after_epoch, Civil,
};

verus! {

/// A name is decoded strictly as UTF-8 where the format says that it is UTF-8; else as UTF-8 where
/// it is valid, and as GBK where it is not. A forced codepage overrules both: nothing is an error in
/// GBK, Shift-JIS and Big5, what is no UTF-8 is one in UTF-8, and code page 437 is not supported.
pub proof fn names_are_decoded_as_asked(raw: Seq<u8>, enc: FilenameEncoding, says_utf8: bool)
    ensures
        ({
            let name = decoded_name(raw, enc, Utf8Flag(says_utf8));
            match enc {
                FilenameEncoding::Auto => {
                    &&& (valid_utf8(raw) ==> name is Ok && name->Ok_0 == decode_utf8(raw))
                    &&& (!valid_utf8(raw) && says_utf8 ==> name is Err
                        && name->Err_0 is CorruptArchive)
                    &&& (!valid_utf8(raw) && !says_utf8 ==> name is Ok && name->Ok_0 == gbk_text(
                        raw,
                    ))
                },
                FilenameEncoding::Forced(Codepage::Utf8) => {
                    &&& (valid_utf8(raw) ==> name is Ok && name->Ok_0 == decode_utf8(raw))
                    &&& (!valid_utf8(raw) ==> name is Err && name->Err_0 is CorruptArchive)
                },
                FilenameEncoding::Forced(Codepage::Gbk) => name is Ok && name->Ok_0 == gbk_text(raw),
                FilenameEncoding::Forced(Codepage::ShiftJis) => name is Ok && name->Ok_0
                    == shift_jis_text(raw),
                FilenameEncoding::Forced(Codepage::Big5) => name is Ok && name->Ok_0 == big5_text(
                    raw,
                ),
                FilenameEncoding::Forced(Codepage::Cp437) => name is Err
                    && name->Err_0 is UnsupportedFeature,
            }
        }),
{
}

/// A codepage is detected exactly where there is something to guess from and the guess is one of the
/// three that are supported.
pub proof fn supported_guesses_are_trusted(bytes: Seq<u8>)
    ensures
        ({
            let guess = guessed_encoding(bytes);
            let found = detected_codepage(bytes);
            &&& (found == Some(Codepage::Gbk) <==> bytes.len() > 0 && guess == "GBK"@)
            &&& (found == Some(Codepage::ShiftJis) <==> bytes.len() > 0 && guess == "Shift_JIS"@)
            &&& (found == Some(Codepage::Big5) <==> bytes.len() > 0 && guess == "Big5"@)
            &&& found != Some(Codepage::Utf8)
            &&& found != Some(Codepage::Cp437)
        }),
{
    reveal_strlit("GBK");
    reveal_strlit("Shift_JIS");
    reveal_strlit("Big5");
    assert("GBK"@.len() == 3 && "Shift_JIS"@.len() == 9 && "Big5"@.len() == 4);
}

/// A date and time that is stored in two words of an MS-DOS header comes back as it was: years from
/// 1980 on, and seconds in steps of two.
pub proof fn dos_times_come_back(
    year: int,
    month: int,
    day: int,
    hour: int,
    minute: int,
    second: int,
    date: u16,
    time: u16,
)
    requires
        1980 <= year <= 2107,
        0 <= month <= 15,
        0 <= day <= 31,
        0 <= hour <= 31,
        0 <= minute <= 63,
        0 <= second <= 62,
        second % 2 == 0,
        date == (year - 1980) * 512 + month * 32 + day,
        time == hour * 2048 + minute * 32 + second / 2,
    ensures
        dos_civil(date, time) == (Civil { year, month, day, hour, minute, second }),
{
}

/// The days before a month are no more than a year has.
proof fn month_starts_in_year(year: int, month: int)
    requires
        1 <= month <= 13,
    ensures
        0 <= days_before_month(year, month) <= 366,
{
    reveal_with_fuel(days_before_month, 13);
}

/// The time in an MS-DOS header is the number of seconds after 1970 of its date and time, taken as
/// UTC, where there is such a date and time; else there is none.
pub proof fn dos_times_are_exact(date: u16, time: u16)
    ensures
        ({
            let at = dos_civil(date, time);
            match civil_timestamp(at) {
                Some(t) => at.exists_in_calendar() && t.secs == at.unix_seconds() && t.nanos == 0,
                None => !at.exists_in_calendar(),
            }
        }),
{
    let at = dos_civil(date, time);
    if at.exists_in_calendar() {
        month_starts_in_year(at.year, at.month);
        assert(1980 <= at.year <= 2107);
    }
}

/// A Windows file time counts steps of 100 nanoseconds from 1601 on: the time it stands for is as
/// many nanoseconds after 1970 as that says, less the 11644473600 seconds in between. Different file
/// times are different times.
pub proof fn file_times_are_exact(ticks: u64, other: u64)
    ensures
        file_time(ticks).secs * 1_000_000_000 + file_time(ticks).nanos == ticks * 100
            - 11_644_473_600_000_000_000,
        file_time(ticks).nanos < 1_000_000_000,
        file_time(ticks) == file_time(other) ==> ticks == other,
{
    let (a, b) = (file_time(ticks), file_time(other));
    assert(ticks == ticks / 10_000_000 * 10_000_000 + ticks % 10_000_000);
    assert(other == other / 10_000_000 * 10_000_000 + other % 10_000_000);
    assert(a.secs == ticks / 10_000_000 - 11_644_473_600);
    assert(b.secs == other / 10_000_000 - 11_644_473_600);
}

/// A time in seconds after 1970 is that time.
pub proof fn unix_times_are_exact(secs: u64)
    ensures
        secs <= i64::MAX ==> seconds_after_epoch(secs) is Some && seconds_after_epoch(secs)->0.secs
            == secs && seconds_after_epoch(secs)->0.nanos == 0,
        secs > i64::MAX ==> seconds_after_epoch(secs) is None,
{
}

/// The number that decimal digits stand for.
pub open spec fn number_in(s: Seq<char>) -> int
    decreases s.len(),
{
    if s.len() == 0 {
        0
    } else {
        number_in(s.drop_last()) * 10 + (s.last() as u32 - '0' as u32)
    }
}

/// A number is written in decimal digits, without zeros before it, and stands for itself.
pub proof fn decimals_stand_for_their_number(n: nat)
    ensures
        number_in(decimal(n)) == n,
        decimal(n).len() > 0,
        decimal(n)[0] == '0' ==> n == 0,
        forall|i: int| 0 <= i < decimal(n).len() ==> '0' <= #[trigger] decimal(n)[i] <= '9',
    decreases n,
{
    let digit = (48 + n % 10) as u8 as char;
    assert('0' <= digit <= '9');
    assert(digit as u32 - '0' as u32 == n % 10);
    if n < 10 {
        assert(decimal(n) =~= seq![digit]);
        assert(decimal(n).drop_last() =~= Seq::<char>::empty());
        assert(number_in(decimal(n).drop_last()) == 0);
    } else {
        decimals_stand_for_their_number(n / 10);
        assert(decimal(n).drop_last() =~= decimal(n / 10));
    }
}

/// In lower case, the letters from A to Z become those from a to z, and nothing else changes.
pub proof fn lower_case_changes_letters(s: Seq<char>, i: int)
    requires
        0 <= i < s.len(),
    ensures
        ascii_lower(s).len() == s.len(),
        'A' <= s[i] && s[i] <= 'Z' ==> ascii_lower(s)[i] as u32 == s[i] as u32 + 32,
        !('A' <= s[i] && s[i] <= 'Z') ==> ascii_lower(s)[i] == s[i],
        ascii_lower(ascii_lower(s)) == ascii_lower(s),
{
    assert(ascii_lower(ascii_lower(s)) =~= ascii_lower(s));
}

/// Both separators part a path alike.
pub proof fn separators_part_paths(a: Seq<char>, b: Seq<char>, c: char)
    requires
        c == '/' || c == '\\',
    ensures
        pieces(a.push(c) + b) == pieces(a) + pieces(b),
    decreases b.len(),
{
    let s = a.push(c) + b;
    if b.len() == 0 {
        assert(s =~= a.push(c));
        assert(s.drop_last() =~= a);
        assert(pieces(s) =~= pieces(a) + pieces(b));
    } else {
        let front = a.push(c) + b.drop_last();
        assert(s.drop_last() =~= front);
        separators_part_paths(a, b.drop_last(), c);
        pieces_nonempty(b.drop_last());
        let (x, y) = (pieces(a), pieces(b.drop_last()));
        assert((x + y).drop_last() =~= x + y.drop_last());
        assert(pieces(s) =~= pieces(a) + pieces(b));
    }
}

/// What is kept of two lists of parts is what is kept of each.
proof fn kept_across(a: Seq<Seq<char>>, b: Seq<Seq<char>>)
    ensures
        kept(a + b) == kept(a) + kept(b),
    decreases b.len(),
{
    if b.len() == 0 {
        assert(a + b =~= a);
        assert(kept(a) + kept(b) =~= kept(a));
    } else {
        kept_across(a, b.drop_last());
        assert((a + b).drop_last() =~= a + b.drop_last());
        assert(kept(a + b) =~= kept(a) + kept(b));
    }
}

/// A name is refused exactly if one of its parts is `..`, or if all of them are empty or `.`.
pub proof fn unsafe_names_are_refused(raw: Seq<char>)
    ensures
        normal_path(raw) is Err <==> {
            ||| exists|i: int| 0 <= i < pieces(raw).len() && #[trigger] pieces(raw)[i] == seq!['.', '.']
            ||| forall|i: int|
                0 <= i < pieces(raw).len() ==> (#[trigger] pieces(raw)[i]).len() == 0
                    || pieces(raw)[i] == seq!['.']
        },
        normal_path(raw) is Err ==> normal_path(raw)->Err_0 is InvalidPath,
{
    kept_none(pieces(raw));
    if exists|i: int| 0 <= i < pieces(raw).len() && #[trigger] pieces(raw)[i] == seq!['.', '.'] {
        let i = choose|i: int|
            0 <= i < pieces(raw).len() && #[trigger] pieces(raw)[i] == seq!['.', '.'];
        assert(crate::model::is_parent(pieces(raw)[i]));
    }
}

/// Nothing is kept exactly if no part names anything.
proof fn kept_none(ps: Seq<Seq<char>>)
    ensures
        kept(ps).len() == 0 <==> forall|i: int|
            0 <= i < ps.len() ==> (#[trigger] ps[i]).len() == 0 || ps[i] == seq!['.'],
    decreases ps.len(),
{
    if ps.len() > 0 {
        let front = ps.drop_last();
        kept_none(front);
        assert forall|i: int| 0 <= i < front.len() implies front[i] == #[trigger] ps[i] by {}
        assert(ps.last() == ps[ps.len() - 1]);
        if kept(ps).len() == 0 {
            assert forall|i: int| 0 <= i < ps.len() implies (#[trigger] ps[i]).len() == 0 || ps[i]
                == seq!['.'] by {
                if i < front.len() {
                    assert(front[i].len() == 0 || front[i] == seq!['.']);
                }
            }
        } else if forall|i: int|
            0 <= i < ps.len() ==> (#[trigger] ps[i]).len() == 0 || ps[i] == seq!['.'] {
            assert forall|i: int| 0 <= i < front.len() implies (#[trigger] front[i]).len() == 0
                || front[i] == seq!['.'] by {
                assert(ps[i].len() == 0 || ps[i] == seq!['.']);
            }
        }
    }
}

/// Parts that name nothing make no difference: a leading separator, a doubled one, and `.` between
/// two of them leave a path what it is, and either separator stands for `/`.
pub proof fn idle_parts_make_no_difference(a: Seq<char>, b: Seq<char>, c: char, d: char)
    requires
        c == '/' || c == '\\',
        d == '/' || d == '\\',
        normal_path(a.push('/') + b) is Ok,
    ensures
        normal_path(a.push(c) + b) == normal_path(a.push('/') + b),
        normal_path(a.push(c).push(d) + b) == normal_path(a.push('/') + b),
        normal_path(a.push(c).push('.').push(d) + b) == normal_path(a.push('/') + b),
{
    let none = Seq::<char>::empty();
    let dot = seq!['.'];
    let plain = pieces(a) + pieces(b);
    separators_part_paths(a, b, '/');
    separators_part_paths(a, b, c);
    // Doubled.
    separators_part_paths(a.push(c), b, d);
    separators_part_paths(a, none, c);
    assert(a.push(c) + none =~= a.push(c));
    assert(pieces(none) =~= seq![none]);
    // With a dot.
    separators_part_paths(a.push(c).push('.'), b, d);
    separators_part_paths(a, dot, c);
    assert(a.push(c) + dot =~= a.push(c).push('.'));
    assert(dot.drop_last() =~= none);
    assert(pieces(dot) =~= seq![dot]) by {
        assert(pieces(none).drop_last() =~= Seq::<Seq<char>>::empty());
        assert(pieces(none).last().push('.') =~= dot);
    }
    kept_across(pieces(a), pieces(b));
    kept_across(pieces(a), seq![none]);
    kept_across(pieces(a), seq![dot]);
    kept_across(pieces(a) + seq![none], pieces(b));
    kept_across(pieces(a) + seq![dot], pieces(b));
    assert(seq![none].drop_last() =~= Seq::<Seq<char>>::empty());
    assert(seq![dot].drop_last() =~= Seq::<Seq<char>>::empty());
    assert(kept(seq![none].drop_last()) =~= Seq::<Seq<char>>::empty());
    assert(kept(seq![none]) =~= Seq::<Seq<char>>::empty());
    assert(kept(seq![dot].drop_last()) =~= Seq::<Seq<char>>::empty());
    assert(kept(seq![dot]) =~= Seq::<Seq<char>>::empty());
    assert(kept(pieces(a)) + Seq::<Seq<char>>::empty() =~= kept(pieces(a)));
    no_new_parents(pieces(a), seq![none], pieces(b));
    no_new_parents(pieces(a), seq![dot], pieces(b));
}

/// A part that is not `..` adds no `..`.
proof fn no_new_parents(a: Seq<Seq<char>>, x: Seq<Seq<char>>, b: Seq<Seq<char>>)
    requires
        x.len() == 1,
        x[0].len() <= 1,
    ensures
        crate::model::has_parent(a + x + b) == crate::model::has_parent(a + b),
{
    let (long, short) = (a + x + b, a + b);
    if crate::model::has_parent(long) {
        let i = choose|i: int| 0 <= i < long.len() && crate::model::is_parent(#[trigger] long[i]);
        let j = if i < a.len() {
            i
        } else {
            i - 1
        };
        assert(long[i].len() == 2);
        assert(short[j] == long[i]);
    }
    if crate::model::has_parent(short) {
        let i = choose|i: int| 0 <= i < short.len() && crate::model::is_parent(#[trigger] short[i]);
        let j = if i < a.len() {
            i
        } else {
            i + 1
        };
        assert(long[j] == short[i]);
    }
}

/// A path lies at or below a directory exactly if it is the directory's, or the directory's followed
/// by a slash and more.
pub proof fn lying_below_means_following(path: Seq<char>, dir: Seq<char>)
    ensures
        is_at_or_below(path, dir) <==> path == dir || (path.len() > dir.len() && path.subrange(
            0,
            dir.len() as int,
        ) == dir && path[dir.len() as int] == '/'),
{
    let p = dir.push('/');
    if path.len() > dir.len() && path.subrange(0, dir.len() as int) == dir && path[dir.len() as int]
        == '/' {
        assert(path.subrange(0, p.len() as int) =~= p);
    }
    if p.is_prefix_of(path) {
        assert(path.subrange(0, p.len() as int) == p);
        assert(path.subrange(0, dir.len() as int) =~= dir) by {
            assert forall|i: int| 0 <= i < dir.len() implies path[i] == dir[i] by {
                assert(path.subrange(0, p.len() as int)[i] == p[i]);
            }
        }
        assert(path.subrange(0, p.len() as int)[dir.len() as int] == p[dir.len() as int]);
    }
}

/// What an error says is part of its message, at its end.
pub proof fn messages_hold_their_text(m: Seq<char>)
    ensures
        m.is_suffix_of(ErrorView::Io(m).message()),
        m.is_suffix_of(ErrorView::UnsupportedFormat(m).message()),
        m.is_suffix_of(ErrorView::UnsupportedFeature(m).message()),
        m.is_suffix_of(ErrorView::CorruptArchive(m).message()),
        m.is_suffix_of(ErrorView::InvalidPath(m).message()),
{
    suffix_of_sum("i/o error: "@, m);
    suffix_of_sum("unsupported format: "@, m);
    suffix_of_sum("unsupported feature: "@, m);
    suffix_of_sum("corrupt archive: "@, m);
    suffix_of_sum("invalid entry path: "@, m);
}

/// A text is a suffix of what it is appended to.
pub proof fn suffix_of_sum(a: Seq<char>, m: Seq<char>)
    ensures
        m.is_suffix_of(a + m),
{
    assert((a + m).subrange((a + m).len() - m.len(), (a + m).len() as int) =~= m);
}

/// Texts are ordered by their bytes: a text stands before another if the two agree up to a place
/// where the first has ended, or where it holds the smaller byte.
pub proof fn texts_are_ordered_by_bytes(a: Seq<char>, b: Seq<char>, k: int)
    requires
        0 <= k <= encode_utf8(a).len(),
        k < encode_utf8(b).len(),
        forall|j: int| 0 <= j < k ==> encode_utf8(a)[j] == encode_utf8(b)[j],
        k == encode_utf8(a).len() || encode_utf8(a)[k] < encode_utf8(b)[k],
    ensures
        crate::text::text_before(a, b),
        !crate::text::text_before(b, a),
{
    assert(crate::text::parts_at(encode_utf8(a), encode_utf8(b), k));
    if crate::text::text_before(b, a) {
        crate::text::text_before_transitive(a, b, a);
        crate::text::text_before_irreflexive(a);
    }
}

/// The last part of a text behind a sign is what follows that sign, and holds it no more; without
/// the sign, it is the whole text.
pub proof fn last_parts_follow_their_sign(s: Seq<char>, c: char)
    ensures
        ({
            let tail = crate::text::after_last(s, c);
            &&& tail.len() <= s.len()
            &&& tail == s.subrange(s.len() - tail.len(), s.len() as int)
            &&& !tail.contains(c)
            &&& (tail.len() < s.len() ==> s[s.len() - tail.len() - 1] == c)
            &&& (!s.contains(c) ==> tail == s)
        }),
    decreases s.len(),
{
    let tail = crate::text::after_last(s, c);
    if s.len() > 0 && s.last() != c {
        let front = s.drop_last();
        last_parts_follow_their_sign(front, c);
        let inner = crate::text::after_last(front, c);
        assert(tail =~= s.subrange(s.len() - tail.len(), s.len() as int));
        assert forall|i: int| 0 <= i < tail.len() implies tail[i] != c by {
            if i < inner.len() {
                assert(inner.contains(inner[i]));
            }
        }
        if !s.contains(c) {
            assert forall|i: int| 0 <= i < front.len() implies front[i] != c by {
                assert(s.contains(s[i]));
            }
            assert(tail =~= s);
        }
    } else {
        assert(tail =~= s.subrange(s.len() as int, s.len() as int));
        if s.len() > 0 {
            assert(s.contains(s.last()));
        } else {
            assert(tail =~= s);
        }
    }
}

/// No name that can occur is too long to be decoded.
pub proof fn names_are_not_too_long(raw: Seq<u8>)
    requires
        raw.len() <= 0x1000_0000,
    ensures
        crate::encoding::decodable(raw),
{
}

/// Files with different names in one directory are different files.
pub proof fn different_names_are_different_files(dir: Seq<char>, x: Seq<char>, y: Seq<char>)
    requires
        x != y,
        x.len() > 0,
        y.len() > 0,
        !x.contains('/'),
        !y.contains('/'),
        x != seq!['.'],
        y != seq!['.'],
    ensures
        !crate::file_path::is_same_path(dir.push('/') + x, dir.push('/') + y),
{
    last_component_is_name(dir, x);
    last_component_is_name(dir, y);
}

/// The last component of a path is its name.
proof fn last_component_is_name(dir: Seq<char>, x: Seq<char>)
    requires
        x.len() > 0,
        !x.contains('/'),
        x != seq!['.'],
    ensures
        crate::file_path::components(dir.push('/') + x).len() > 0,
        crate::file_path::components(dir.push('/') + x).last() == x,
{
    slashes_part_paths(dir, x);
    no_slash_one_part(x);
    let parts = crate::file_path::slash_pieces(dir) + seq![x];
    assert(parts.drop_last() =~= crate::file_path::slash_pieces(dir));
    assert(parts.last() == x);
}

/// The parts of a path on either side of a slash.
proof fn slashes_part_paths(a: Seq<char>, b: Seq<char>)
    ensures
        crate::file_path::slash_pieces(a.push('/') + b) == crate::file_path::slash_pieces(a)
            + crate::file_path::slash_pieces(b),
        crate::file_path::slash_pieces(b).len() > 0,
    decreases b.len(),
{
    let s = a.push('/') + b;
    let (x, y) = (crate::file_path::slash_pieces(a), crate::file_path::slash_pieces(b));
    if b.len() == 0 {
        assert(s =~= a.push('/'));
        assert(s.drop_last() =~= a);
        assert(crate::file_path::slash_pieces(s) =~= x + y);
    } else {
        let front = b.drop_last();
        slashes_part_paths(a, front);
        assert(s.drop_last() =~= a.push('/') + front);
        let z = crate::file_path::slash_pieces(front);
        assert((x + z).drop_last() =~= x + z.drop_last());
        assert(crate::file_path::slash_pieces(s) =~= x + y);
    }
}

/// Without a slash there is one part.
proof fn no_slash_one_part(s: Seq<char>)
    requires
        !s.contains('/'),
    ensures
        crate::file_path::slash_pieces(s) == seq![s],
    decreases s.len(),
{
    if s.len() > 0 {
        let front = s.drop_last();
        assert forall|i: int| 0 <= i < front.len() implies front[i] != '/' by {
            assert(s.contains(s[i]));
        }
        no_slash_one_part(front);
        assert(s.contains(s.last()));
        assert(front.push(s.last()) =~= s);
        assert(crate::file_path::slash_pieces(s) =~= seq![s]);
    } else {
        assert(s =~= Seq::<char>::empty());
        assert(crate::file_path::slash_pieces(s) =~= seq![s]);
    }
}

} // verus!
