//! Application settings and their stored form.

use vstd::prelude::*;
use vstd::string::*;

use crate::encoding::{Codepage, FilenameEncoding};
use crate::extract::{default_limits, OverwritePolicy, SafetyLimits};
use crate::file_path::{is_same_path, same_path};
use crate::model::opt_text;
use crate::text::same_text;

verus! {

/// Maximum number of recently opened archives remembered.
pub const MAX_RECENT_FILES: usize = 10;

/// User-facing application settings.
#[derive(Debug)]
pub struct AppConfig {
    /// Default directory offered for extraction, if any.
    pub default_extract_dir: Option<String>,
    /// How to handle existing files at the destination.
    pub overwrite_policy: OverwritePolicy,
    /// Whether to preserve modification times when extracting.
    pub preserve_mtime: bool,
    /// Safety limits guarding against zip-bombs and runaway recursion.
    pub safety_limits: SafetyLimits,
    /// Nested archives whose uncompressed size is at most this many bytes are buffered in memory.
    pub nested_buffer_threshold: u64,
    /// Filename decoding strategy for non-UTF-8 entry names.
    pub filename_encoding: FilenameEncoding,
    /// Recently opened archive paths, most recent first.
    pub recent_files: Vec<String>,
}

/// An [`AppConfig`] as a mathematical value.
pub struct ConfigView {
    pub default_extract_dir: Option<Seq<char>>,
    pub overwrite_policy: OverwritePolicy,
    pub preserve_mtime: bool,
    pub safety_limits: SafetyLimits,
    pub nested_buffer_threshold: u64,
    pub filename_encoding: FilenameEncoding,
    pub recent_files: Seq<Seq<char>>,
}

/// Texts as character sequences.
pub open spec fn texts(ss: Seq<String>) -> Seq<Seq<char>> {
    ss.map_values(|s: String| s@)
}

impl View for AppConfig {
    type V = ConfigView;

    open spec fn view(&self) -> ConfigView {
        ConfigView {
            default_extract_dir: opt_text(self.default_extract_dir),
            overwrite_policy: self.overwrite_policy,
            preserve_mtime: self.preserve_mtime,
            safety_limits: self.safety_limits,
            nested_buffer_threshold: self.nested_buffer_threshold,
            filename_encoding: self.filename_encoding,
            recent_files: texts(self.recent_files@),
        }
    }
}

/// The settings that apply where none are stored.
pub open spec fn default_config() -> ConfigView {
    ConfigView {
        default_extract_dir: None,
        overwrite_policy: OverwritePolicy::Ask,
        preserve_mtime: true,
        safety_limits: default_limits(),
        nested_buffer_threshold: 67_108_864,
        filename_encoding: FilenameEncoding::Auto,
        recent_files: Seq::empty(),
    }
}

impl Default for AppConfig {
    fn default() -> (r: Self)
        ensures
            r@ == default_config(),
    {
        let r = AppConfig {
            default_extract_dir: None,
            overwrite_policy: OverwritePolicy::default(),
            preserve_mtime: true,
            safety_limits: SafetyLimits::default(),
            // 64 MiB is a reasonable default split between memory and disk.
            nested_buffer_threshold: 67_108_864,
            filename_encoding: FilenameEncoding::default(),
            recent_files: Vec::new(),
        };
        assert(texts(r.recent_files@) =~= Seq::<Seq<char>>::empty());
        r
    }
}

/// A copy of an optional text.
fn clone_opt(s: &Option<String>) -> (r: Option<String>)
    ensures
        opt_text(r) == opt_text(*s),
{
    match s {
        Some(s) => Some(s.clone()),
        None => None,
    }
}

/// A copy of some texts.
fn clone_texts(ss: &Vec<String>) -> (r: Vec<String>)
    ensures
        texts(r@) == texts(ss@),
{
    let mut out: Vec<String> = Vec::new();
    let mut i: usize = 0;
    while i < ss.len()
        invariant
            i <= ss@.len(),
            texts(out@) == texts(ss@).take(i as int),
        decreases ss@.len() - i,
    {
        let ghost before = out@;
        out.push(ss[i].clone());
        i += 1;
        assert(texts(out@) =~= texts(before).push(ss@[i - 1]@));
        assert(texts(ss@).take(i as int) =~= texts(ss@).take(i - 1).push(ss@[i - 1]@));
    }
    assert(texts(out@) =~= texts(ss@));
    out
}

impl Clone for AppConfig {
    fn clone(&self) -> (r: Self)
        ensures
            r@ == self@,
    {
        AppConfig {
            default_extract_dir: clone_opt(&self.default_extract_dir),
            overwrite_policy: self.overwrite_policy,
            preserve_mtime: self.preserve_mtime,
            safety_limits: self.safety_limits,
            nested_buffer_threshold: self.nested_buffer_threshold,
            filename_encoding: self.filename_encoding,
            recent_files: clone_texts(&self.recent_files),
        }
    }
}

/// The paths other than `path`, in order.
pub open spec fn without(ss: Seq<Seq<char>>, path: Seq<char>) -> Seq<Seq<char>>
    decreases ss.len(),
{
    if ss.len() == 0 {
        Seq::empty()
    } else if is_same_path(ss.last(), path) {
        without(ss.drop_last(), path)
    } else {
        without(ss.drop_last(), path).push(ss.last())
    }
}

/// The first texts, as many as are remembered.
pub open spec fn capped(ss: Seq<Seq<char>>) -> Seq<Seq<char>> {
    if ss.len() <= MAX_RECENT_FILES {
        ss
    } else {
        ss.take(MAX_RECENT_FILES as int)
    }
}

/// The recent files after `path` was opened.
pub open spec fn with_recent(ss: Seq<Seq<char>>, path: Seq<char>) -> Seq<Seq<char>> {
    capped(seq![path] + without(ss, path))
}

/// Whether no path occurs twice.
pub open spec fn no_path_twice(ss: Seq<Seq<char>>) -> bool {
    forall|i: int, j: int| 0 <= i < j < ss.len() ==> !is_same_path(ss[i], ss[j])
}

/// What holds of every list of recent files: no path occurs twice, and it is not too long.
pub open spec fn is_recent_list(ss: Seq<Seq<char>>) -> bool {
    ss.len() <= MAX_RECENT_FILES && no_path_twice(ss)
}

/// Leaving a path out leaves the others, in order and once each.
proof fn without_keeps(ss: Seq<Seq<char>>, path: Seq<char>)
    ensures
        forall|i: int|
            0 <= i < without(ss, path).len() ==> !is_same_path(
                #[trigger] without(ss, path)[i],
                path,
            ) && ss.contains(without(ss, path)[i]),
        no_path_twice(ss) ==> no_path_twice(without(ss, path)),
    decreases ss.len(),
{
    if ss.len() > 0 {
        let front = ss.drop_last();
        without_keeps(front, path);
        let (some, all) = (without(front, path), without(ss, path));
        assert forall|i: int| 0 <= i < all.len() implies !is_same_path(#[trigger] all[i], path)
            && ss.contains(all[i]) by {
            if i < some.len() {
                assert(all[i] == some[i]);
                let k = choose|k: int| 0 <= k < front.len() && front[k] == some[i];
                assert(ss[k] == all[i]);
            } else {
                assert(ss[ss.len() - 1] == all[i]);
            }
        }
        if no_path_twice(ss) {
            assert forall|i: int, j: int| 0 <= i < j < front.len() implies !is_same_path(
                front[i],
                front[j],
            ) by {
                assert(!is_same_path(ss[i], ss[j]));
            }
            assert forall|i: int, j: int| 0 <= i < j < all.len() implies !is_same_path(
                all[i],
                all[j],
            ) by {
                assert(all[i] == some[i]);
                if j == some.len() {
                    assert(front.contains(some[i]));
                    let k = choose|k: int| 0 <= k < front.len() && front[k] == some[i];
                    assert(!is_same_path(ss[k], ss[ss.len() - 1]));
                } else {
                    assert(all[j] == some[j]);
                }
            }
        }
    }
}

/// Every path other than the one left out stays.
proof fn without_loses_nothing(ss: Seq<Seq<char>>, path: Seq<char>, other: Seq<char>)
    requires
        ss.contains(other),
        !is_same_path(other, path),
    ensures
        without(ss, path).contains(other),
    decreases ss.len(),
{
    let front = ss.drop_last();
    let (some, all) = (without(front, path), without(ss, path));
    let k = choose|k: int| 0 <= k < ss.len() && ss[k] == other;
    if k < front.len() {
        assert(front[k] == other);
        without_loses_nothing(front, path, other);
        let i = choose|i: int| 0 <= i < some.len() && some[i] == other;
        assert(all[i] == other);
    } else {
        assert(all[all.len() - 1] == other);
    }
}

/// Opening a file puts it first among the recent ones, forgets no other where there is room, and
/// keeps the list free of repetitions and short. Opening it again changes nothing.
pub proof fn recent_files_stay_in_order(ss: Seq<Seq<char>>, path: Seq<char>)
    requires
        is_recent_list(ss),
    ensures
        is_recent_list(with_recent(ss, path)),
        with_recent(ss, path).len() > 0,
        with_recent(ss, path)[0] == path,
        with_recent(with_recent(ss, path), path) == with_recent(ss, path),
        ss.len() < MAX_RECENT_FILES ==> forall|s: Seq<char>| #[trigger]
            ss.contains(s) && !is_same_path(s, path) ==> with_recent(ss, path).contains(s),
{
    without_keeps(ss, path);
    let rest = without(ss, path);
    let all = seq![path] + rest;
    let now = with_recent(ss, path);
    assert forall|i: int, j: int| 0 <= i < j < all.len() implies !is_same_path(all[i], all[j]) by {
        assert(all[j] == rest[j - 1]);
        if i > 0 {
            assert(all[i] == rest[i - 1]);
        }
    }
    assert forall|i: int, j: int| 0 <= i < j < now.len() implies !is_same_path(now[i], now[j]) by {
        assert(now[i] == all[i] && now[j] == all[j]);
    }
    // The path stands first and nowhere else, so leaving it out drops just the first.
    let tail = now.drop_first();
    assert forall|i: int| 0 <= i < tail.len() implies !is_same_path(tail[i], path) by {
        assert(tail[i] == now[i + 1]);
        assert(!is_same_path(now[0], now[i + 1]));
    }
    without_none(tail, path);
    assert(now =~= seq![path] + tail);
    without_first(tail, path);
    assert(with_recent(now, path) =~= now);
    without_shortens(ss, path);
    assert forall|s: Seq<char>| ss.len() < MAX_RECENT_FILES && #[trigger] ss.contains(s)
        && !is_same_path(s, path) implies now.contains(s) by {
        without_loses_nothing(ss, path, s);
        let k = choose|k: int| 0 <= k < rest.len() && rest[k] == s;
        assert(all[k + 1] == s);
    }
}

/// Leaving something out makes nothing longer.
proof fn without_shortens(ss: Seq<Seq<char>>, path: Seq<char>)
    ensures
        without(ss, path).len() <= ss.len(),
    decreases ss.len(),
{
    if ss.len() > 0 {
        without_shortens(ss.drop_last(), path);
    }
}

/// Leaving out what is not there changes nothing.
proof fn without_none(ss: Seq<Seq<char>>, path: Seq<char>)
    requires
        forall|i: int| 0 <= i < ss.len() ==> !is_same_path(#[trigger] ss[i], path),
    ensures
        without(ss, path) == ss,
    decreases ss.len(),
{
    if ss.len() > 0 {
        without_none(ss.drop_last(), path);
        assert(ss.drop_last().push(ss.last()) =~= ss);
    } else {
        assert(ss =~= Seq::<Seq<char>>::empty());
    }
}

/// Leaving out the first of several.
proof fn without_first(tail: Seq<Seq<char>>, path: Seq<char>)
    ensures
        without(seq![path] + tail, path) == without(tail, path),
    decreases tail.len(),
{
    let all = seq![path] + tail;
    if tail.len() > 0 {
        without_first(tail.drop_last(), path);
        assert(all.drop_last() =~= seq![path] + tail.drop_last());
        assert(all.last() == tail.last());
    } else {
        assert(all.drop_last() =~= Seq::<Seq<char>>::empty());
        assert(without(all.drop_last(), path) =~= Seq::<Seq<char>>::empty());
    }
}

impl AppConfig {
    /// Record a successfully opened archive in the recent-files list.
    ///
    /// The path is moved to the front (most recent first), duplicates are removed, and the list is
    /// capped at [`MAX_RECENT_FILES`].
    pub fn record_recent(&mut self, path: String)
        ensures
            final(self)@ == (ConfigView {
                recent_files: with_recent(old(self)@.recent_files, path@),
                ..old(self)@
            }),
    {
        let ghost ss = texts(self.recent_files@);
        let mut kept: Vec<String> = Vec::new();
        let mut i: usize = 0;
        assert(texts(kept@) =~= without(ss.take(0), path@));
        while i < self.recent_files.len()
            invariant
                i <= self.recent_files@.len(),
                ss == texts(self.recent_files@),
                texts(kept@) == without(ss.take(i as int), path@),
            decreases self.recent_files@.len() - i,
        {
            assert(ss.take(i + 1).drop_last() =~= ss.take(i as int));
            assert(ss.take(i + 1).last() == self.recent_files@[i as int]@);
            if !same_path(self.recent_files[i].as_str(), path.as_str()) {
                let ghost before = kept@;
                kept.push(self.recent_files[i].clone());
                assert(texts(kept@) =~= texts(before).push(self.recent_files@[i as int]@));
            }
            i += 1;
        }
        assert(ss.take(i as int) =~= ss);
        let mut all: Vec<String> = Vec::new();
        let ghost name = path@;
        all.push(path);
        let ghost rest = texts(kept@);
        all.append(&mut kept);
        assert(texts(all@) =~= seq![name] + rest);
        let ghost full = texts(all@);
        while all.len() > MAX_RECENT_FILES
            invariant
                capped(texts(all@)) == capped(full),
            decreases all@.len(),
        {
            let ghost before = texts(all@);
            all.pop();
            assert(texts(all@) =~= before.drop_last());
            assert(capped(texts(all@)) =~= capped(before));
        }
        self.recent_files = all;
    }
}

/// The stored form of [`AppConfig`], with stable text tags in place of enumerations.
#[derive(Debug)]
pub struct PersistedConfig {
    pub default_extract_dir: Option<String>,
    pub overwrite_policy: String,
    pub preserve_mtime: bool,
    pub max_total_bytes: u64,
    pub max_entries: u64,
    pub max_depth: usize,
    pub nested_buffer_threshold: u64,
    pub filename_encoding: String,
    pub recent_files: Vec<String>,
}

/// A [`PersistedConfig`] as a mathematical value.
pub struct PersistedView {
    pub default_extract_dir: Option<Seq<char>>,
    pub overwrite_policy: Seq<char>,
    pub preserve_mtime: bool,
    pub safety_limits: SafetyLimits,
    pub nested_buffer_threshold: u64,
    pub filename_encoding: Seq<char>,
    pub recent_files: Seq<Seq<char>>,
}

impl View for PersistedConfig {
    type V = PersistedView;

    open spec fn view(&self) -> PersistedView {
        PersistedView {
            default_extract_dir: opt_text(self.default_extract_dir),
            overwrite_policy: self.overwrite_policy@,
            preserve_mtime: self.preserve_mtime,
            safety_limits: SafetyLimits {
                max_total_bytes: self.max_total_bytes,
                max_entries: self.max_entries,
                max_depth: self.max_depth,
            },
            nested_buffer_threshold: self.nested_buffer_threshold,
            filename_encoding: self.filename_encoding@,
            recent_files: texts(self.recent_files@),
        }
    }
}

/// The tag of an overwrite policy.
pub open spec fn overwrite_tag(p: OverwritePolicy) -> Seq<char> {
    match p {
        OverwritePolicy::Ask => "ask"@,
        OverwritePolicy::Always => "always"@,
        OverwritePolicy::Never => "never"@,
        OverwritePolicy::Newer => "newer"@,
    }
}

/// The overwrite policy with a tag.
pub open spec fn overwrite_tagged(s: Seq<char>) -> Option<OverwritePolicy> {
    if s == "ask"@ {
        Some(OverwritePolicy::Ask)
    } else if s == "always"@ {
        Some(OverwritePolicy::Always)
    } else if s == "never"@ {
        Some(OverwritePolicy::Never)
    } else if s == "newer"@ {
        Some(OverwritePolicy::Newer)
    } else {
        None
    }
}

/// The tag of a filename encoding.
pub open spec fn encoding_tag(e: FilenameEncoding) -> Seq<char> {
    match e {
        FilenameEncoding::Auto => "auto"@,
        FilenameEncoding::Forced(Codepage::Utf8) => "utf8"@,
        FilenameEncoding::Forced(Codepage::Gbk) => "gbk"@,
        FilenameEncoding::Forced(Codepage::ShiftJis) => "shift-jis"@,
        FilenameEncoding::Forced(Codepage::Big5) => "big5"@,
        FilenameEncoding::Forced(Codepage::Cp437) => "cp437"@,
    }
}

/// The filename encoding with a tag.
pub open spec fn encoding_tagged(s: Seq<char>) -> Option<FilenameEncoding> {
    if s == "auto"@ {
        Some(FilenameEncoding::Auto)
    } else if s == "utf8"@ {
        Some(FilenameEncoding::Forced(Codepage::Utf8))
    } else if s == "gbk"@ {
        Some(FilenameEncoding::Forced(Codepage::Gbk))
    } else if s == "shift-jis"@ {
        Some(FilenameEncoding::Forced(Codepage::ShiftJis))
    } else if s == "big5"@ {
        Some(FilenameEncoding::Forced(Codepage::Big5))
    } else if s == "cp437"@ {
        Some(FilenameEncoding::Forced(Codepage::Cp437))
    } else {
        None
    }
}

/// The tags of overwrite policies lead back to the policies.
pub proof fn overwrite_tags_round_trip(p: OverwritePolicy)
    ensures
        overwrite_tagged(overwrite_tag(p)) == Some(p),
{
    reveal_strlit("ask");
    reveal_strlit("always");
    reveal_strlit("never");
    reveal_strlit("newer");
    assert("ask"@[0] == 'a' && "always"@[1] == 'l' && "never"@[0] == 'n' && "newer"@[2] == 'w');
    assert("ask"@[1] == 's' && "never"@[2] == 'v');
}

/// The tags of filename encodings lead back to the encodings.
pub proof fn encoding_tags_round_trip(e: FilenameEncoding)
    ensures
        encoding_tagged(encoding_tag(e)) == Some(e),
{
    reveal_strlit("auto");
    reveal_strlit("utf8");
    reveal_strlit("gbk");
    reveal_strlit("shift-jis");
    reveal_strlit("big5");
    reveal_strlit("cp437");
    assert("auto"@[0] == 'a' && "utf8"@[0] == 'u' && "gbk"@[0] == 'g' && "shift-jis"@[0] == 's'
        && "big5"@[0] == 'b' && "cp437"@[0] == 'c');
}

/// Stable text tags for overwrite policies, shared by the stored settings and the settings panel.
pub fn overwrite_to_str(p: OverwritePolicy) -> (r: &'static str)
    ensures
        r@ == overwrite_tag(p),
{
    match p {
        OverwritePolicy::Ask => "ask",
        OverwritePolicy::Always => "always",
        OverwritePolicy::Never => "never",
        OverwritePolicy::Newer => "newer",
    }
}

/// The overwrite policy with a tag.
pub fn str_to_overwrite(s: &str) -> (r: Option<OverwritePolicy>)
    ensures
        r == overwrite_tagged(s@),
{
    if same_text(s, "ask") {
        Some(OverwritePolicy::Ask)
    } else if same_text(s, "always") {
        Some(OverwritePolicy::Always)
    } else if same_text(s, "never") {
        Some(OverwritePolicy::Never)
    } else if same_text(s, "newer") {
        Some(OverwritePolicy::Newer)
    } else {
        None
    }
}

/// Stable text tags for filename encodings.
pub fn encoding_to_str(e: FilenameEncoding) -> (r: &'static str)
    ensures
        r@ == encoding_tag(e),
{
    match e {
        FilenameEncoding::Auto => "auto",
        FilenameEncoding::Forced(Codepage::Utf8) => "utf8",
        FilenameEncoding::Forced(Codepage::Gbk) => "gbk",
        FilenameEncoding::Forced(Codepage::ShiftJis) => "shift-jis",
        FilenameEncoding::Forced(Codepage::Big5) => "big5",
        FilenameEncoding::Forced(Codepage::Cp437) => "cp437",
    }
}

/// The filename encoding with a tag.
pub fn str_to_encoding(s: &str) -> (r: Option<FilenameEncoding>)
    ensures
        r == encoding_tagged(s@),
{
    if same_text(s, "auto") {
        Some(FilenameEncoding::Auto)
    } else if same_text(s, "utf8") {
        Some(FilenameEncoding::Forced(Codepage::Utf8))
    } else if same_text(s, "gbk") {
        Some(FilenameEncoding::Forced(Codepage::Gbk))
    } else if same_text(s, "shift-jis") {
        Some(FilenameEncoding::Forced(Codepage::ShiftJis))
    } else if same_text(s, "big5") {
        Some(FilenameEncoding::Forced(Codepage::Big5))
    } else if same_text(s, "cp437") {
        Some(FilenameEncoding::Forced(Codepage::Cp437))
    } else {
        None
    }
}

/// The texts that are not empty, in order.
pub open spec fn nonempty(ss: Seq<Seq<char>>) -> Seq<Seq<char>>
    decreases ss.len(),
{
    if ss.len() == 0 {
        Seq::empty()
    } else if ss.last().len() == 0 {
        nonempty(ss.drop_last())
    } else {
        nonempty(ss.drop_last()).push(ss.last())
    }
}

/// The stored form of some settings.
pub open spec fn stored(c: ConfigView) -> PersistedView {
    PersistedView {
        default_extract_dir: c.default_extract_dir,
        overwrite_policy: overwrite_tag(c.overwrite_policy),
        preserve_mtime: c.preserve_mtime,
        safety_limits: c.safety_limits,
        nested_buffer_threshold: c.nested_buffer_threshold,
        filename_encoding: encoding_tag(c.filename_encoding),
        recent_files: c.recent_files,
    }
}

/// The settings that a stored form stands for: unknown tags give the defaults, and empty paths are
/// dropped.
pub open spec fn restored(p: PersistedView) -> ConfigView {
    ConfigView {
        default_extract_dir: match p.default_extract_dir {
            Some(s) => if s.len() == 0 {
                None
            } else {
                Some(s)
            },
            None => None,
        },
        overwrite_policy: match overwrite_tagged(p.overwrite_policy) {
            Some(o) => o,
            None => OverwritePolicy::Ask,
        },
        preserve_mtime: p.preserve_mtime,
        safety_limits: p.safety_limits,
        nested_buffer_threshold: p.nested_buffer_threshold,
        filename_encoding: match encoding_tagged(p.filename_encoding) {
            Some(e) => e,
            None => FilenameEncoding::Auto,
        },
        recent_files: nonempty(p.recent_files),
    }
}

/// Where no text is empty, nothing is dropped.
proof fn nonempty_all(ss: Seq<Seq<char>>)
    requires
        forall|i: int| 0 <= i < ss.len() ==> (#[trigger] ss[i]).len() > 0,
    ensures
        nonempty(ss) == ss,
    decreases ss.len(),
{
    if ss.len() > 0 {
        let front = ss.drop_last();
        assert forall|i: int| 0 <= i < front.len() implies (#[trigger] front[i]).len() > 0 by {
            assert(front[i] == ss[i]);
        }
        nonempty_all(front);
        assert(ss[ss.len() - 1].len() > 0);
        assert(front.push(ss.last()) =~= ss);
    } else {
        assert(ss =~= Seq::<Seq<char>>::empty());
    }
}

/// What was saved is what is loaded: storing settings whose paths are not empty and restoring them
/// gives the same settings.
pub proof fn saved_config_is_restored(c: ConfigView)
    requires
        c.default_extract_dir is Some ==> c.default_extract_dir->0.len() > 0,
        forall|i: int| 0 <= i < c.recent_files.len() ==> (#[trigger] c.recent_files[i]).len() > 0,
    ensures
        restored(stored(c)) == c,
{
    overwrite_tags_round_trip(c.overwrite_policy);
    encoding_tags_round_trip(c.filename_encoding);
    nonempty_all(c.recent_files);
}

impl AppConfig {
    /// The settings that a stored form stands for; the defaults where nothing readable is stored.
    pub fn load(persisted: Option<PersistedConfig>) -> (r: Self)
        ensures
            r@ == match persisted {
                Some(p) => restored(p@),
                None => default_config(),
            },
    {
        match persisted {
            Some(p) => AppConfig::from_persisted(p),
            None => AppConfig::default(),
        }
    }

    /// The stored form of these settings.
    pub fn save(&self) -> (r: PersistedConfig)
        ensures
            r@ == stored(self@),
    {
        PersistedConfig {
            default_extract_dir: clone_opt(&self.default_extract_dir),
            overwrite_policy: overwrite_to_str(self.overwrite_policy).to_string(),
            preserve_mtime: self.preserve_mtime,
            max_total_bytes: self.safety_limits.max_total_bytes,
            max_entries: self.safety_limits.max_entries,
            max_depth: self.safety_limits.max_depth,
            nested_buffer_threshold: self.nested_buffer_threshold,
            filename_encoding: encoding_to_str(self.filename_encoding).to_string(),
            recent_files: clone_texts(&self.recent_files),
        }
    }

    /// The settings that a stored form stands for.
    fn from_persisted(p: PersistedConfig) -> (r: Self)
        ensures
            r@ == restored(p@),
    {
        let default_extract_dir = match &p.default_extract_dir {
            Some(s) => if s.as_str().unicode_len() == 0 {
                None
            } else {
                Some(s.clone())
            },
            None => None,
        };
        let overwrite_policy = match str_to_overwrite(p.overwrite_policy.as_str()) {
            Some(o) => o,
            None => OverwritePolicy::default(),
        };
        let filename_encoding = match str_to_encoding(p.filename_encoding.as_str()) {
            Some(e) => e,
            None => FilenameEncoding::default(),
        };
        let ghost ss = texts(p.recent_files@);
        let mut recent_files: Vec<String> = Vec::new();
        let mut i: usize = 0;
        assert(texts(recent_files@) =~= nonempty(ss.take(0)));
        while i < p.recent_files.len()
            invariant
                i <= p.recent_files@.len(),
                ss == texts(p.recent_files@),
                texts(recent_files@) == nonempty(ss.take(i as int)),
            decreases p.recent_files@.len() - i,
        {
            assert(ss.take(i + 1).drop_last() =~= ss.take(i as int));
            assert(ss.take(i + 1).last() == p.recent_files@[i as int]@);
            if p.recent_files[i].as_str().unicode_len() > 0 {
                let ghost before = recent_files@;
                recent_files.push(p.recent_files[i].clone());
                assert(texts(recent_files@) =~= texts(before).push(p.recent_files@[i as int]@));
            }
            i += 1;
        }
        assert(ss.take(i as int) =~= ss);
        AppConfig {
            default_extract_dir,
            overwrite_policy,
            preserve_mtime: p.preserve_mtime,
            safety_limits: SafetyLimits {
                max_total_bytes: p.max_total_bytes,
                max_entries: p.max_entries,
                max_depth: p.max_depth,
            },
            nested_buffer_threshold: p.nested_buffer_threshold,
            filename_encoding,
            recent_files,
        }
    }
}

} // verus!
