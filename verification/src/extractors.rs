//! Getting the plugins out of a downloaded archive: which way of
//! extraction is tried for which kind of archive, which entries of an
//! archive are plugins, and what a failure means for the file.
//!
//! Reading the archive itself is the caller's work. This module decides;
//! the caller reads and reports.

use vstd::prelude::*;
use std::collections::VecDeque;
use crate::lemmas::{lemma_filter_empty, lemma_filter_step};
use crate::text::{ascii_lower, chars_of, ends_with, is_suffix, str_eq, string_of, to_ascii_lower};

verus! {

/// The number of bytes at the start of an archive from which its kind is
/// told.
pub const SNIFF_LEN: usize = 8;

/// The failure of listing or decoding an archive with the streaming
/// reader, as opposed to a failure of what is done with a plugin once it
/// is out.
#[derive(Debug, Clone, Copy, PartialEq, Eq, Structural)]
pub struct ExtractorError;

/// The kinds of download that are told apart.
#[derive(Debug, Clone, Copy, PartialEq, Eq, Structural)]
pub enum ArchiveKind {
    /// `application/vnd.rar`
    Rar,
    /// `application/zip`
    Zip,
    /// `application/x-7z-compressed`
    SevenZip,
    /// `application/vnd.microsoft.portable-executable`: an installer, not
    /// an archive.
    Executable,
    /// Any other type.
    Other,
}

/// The ways of extracting plugins from an archive.
#[derive(Debug, Clone, Copy, PartialEq, Eq, Structural)]
pub enum Strategy {
    /// Unpack the whole RAR archive into a temporary directory.
    NativeRar,
    /// List the archive and decode one entry after the other.
    Streaming,
    /// Unpack the whole archive with the external `7z` program.
    External7z,
}

/// How an attempt at extraction failed.
#[derive(Debug, Clone, Copy, PartialEq, Eq, Structural)]
pub enum ExtractionFailure {
    /// The archive could not be listed or an entry not be decoded.
    Extractor,
    /// Anything else, such as a failure to store what was extracted.
    Other,
}

/// What a failed attempt at extraction is followed by.
#[derive(Debug, Clone, Copy, PartialEq, Eq, Structural)]
pub enum AfterFailure {
    /// Try again with another strategy.
    FallBack(Strategy),
    /// Give up: the failure ends the run.
    Fatal,
}

/// What follows when an archive cannot be read at all.
#[derive(Debug, Clone, Copy, PartialEq, Eq, Structural)]
pub enum UnreadableArchive {
    /// Record on the file that its plugins cannot be extracted, and go on
    /// with the next file.
    MarkUnableToExtract,
    /// The content preview had promised a plugin: this must be looked
    /// into, and ends the run.
    Fatal,
}

/// One entry of an archive.
#[derive(Debug, Clone, PartialEq)]
pub struct ArchiveEntry {
    pub path: String,
    /// Whether the entry is a file, not a directory.
    pub is_file: bool,
}

/// The MIME type that the `infer` crate tells from the first bytes of a
/// file, or `None` where it knows none: the result of `infer::get`.
pub uninterp spec fn inferred_mime(bytes: Seq<u8>) -> Option<Seq<char>>;

/// Calls `infer::get` on the first bytes of a file and hands out the MIME
/// type of the kind it found. Trusted: the result is the named function of
/// the bytes.
#[verifier::external_body]
fn infer_mime(bytes: &[u8; 8]) -> (r: Option<String>)
    ensures
        match r {
            Some(mime) => inferred_mime(bytes@) == Some(mime@),
            None => inferred_mime(bytes@) is None,
        },
{
    match infer::get(bytes) {
        Some(kind) => Some(kind.mime_type().to_string()),
        None => None,
    }
}

/// The kind of download that a MIME type stands for.
pub open spec fn kind_of_mime(mime: Seq<char>) -> ArchiveKind {
    if mime == "application/vnd.rar"@ {
        ArchiveKind::Rar
    } else if mime == "application/zip"@ {
        ArchiveKind::Zip
    } else if mime == "application/x-7z-compressed"@ {
        ArchiveKind::SevenZip
    } else if mime == "application/vnd.microsoft.portable-executable"@ {
        ArchiveKind::Executable
    } else {
        ArchiveKind::Other
    }
}

/// The kind of download that the first bytes of a file show, or `None`
/// where they show no known type.
pub open spec fn sniffed_kind(bytes: Seq<u8>) -> Option<ArchiveKind> {
    match inferred_mime(bytes) {
        Some(mime) => Some(kind_of_mime(mime)),
        None => None,
    }
}

/// The strategy that is tried first for a kind of download; `None` for an
/// installer, which is not extracted at all.
pub open spec fn primary_strategy_spec(kind: ArchiveKind) -> Option<Strategy> {
    match kind {
        ArchiveKind::Rar => Some(Strategy::NativeRar),
        ArchiveKind::Executable => None,
        _ => Some(Strategy::Streaming),
    }
}

/// What follows the failure of a strategy on a kind of download.
///
/// A RAR archive that the native extractor fails on goes to `7z`. A zip or
/// 7z archive that the streaming reader cannot list or decode goes to `7z`
/// too. Every other failure is final, one of `7z` itself among them.
pub open spec fn after_failure_spec(
    kind: ArchiveKind,
    failed: Strategy,
    failure: ExtractionFailure,
) -> AfterFailure {
    if kind == ArchiveKind::Rar && failed == Strategy::NativeRar {
        AfterFailure::FallBack(Strategy::External7z)
    } else if (kind == ArchiveKind::Zip || kind == ArchiveKind::SevenZip) && failed
        == Strategy::Streaming && failure == ExtractionFailure::Extractor {
        AfterFailure::FallBack(Strategy::External7z)
    } else {
        AfterFailure::Fatal
    }
}

/// What follows when an archive cannot be read at all, depending on
/// whether the content preview of the file had been checked.
pub open spec fn unreadable_archive_spec(checked_metadata: bool) -> UnreadableArchive {
    if checked_metadata {
        UnreadableArchive::Fatal
    } else {
        UnreadableArchive::MarkUnableToExtract
    }
}

/// A path in lower case, as far as ASCII letters go.
pub open spec fn lowered(path: Seq<char>) -> Seq<char> {
    path.map_values(|c: char| ascii_lower(c))
}

/// Whether a path within an archive names a plugin: it ends in `.esp`,
/// `.esm` or `.esl`, in whatever case.
pub open spec fn is_plugin_path_spec(path: Seq<char>) -> bool {
    is_suffix(".esp"@, lowered(path)) || is_suffix(".esm"@, lowered(path)) || is_suffix(
        ".esl"@,
        lowered(path),
    )
}

/// A path with every backslash turned into a forward slash.
pub open spec fn normalized(path: Seq<char>) -> Seq<char> {
    path.map_values(
        |c: char|
            if c == '\\' {
                '/'
            } else {
                c
            },
    )
}

/// Whether an entry is a plugin: a file whose path names one.
pub open spec fn is_plugin_entry(entry: ArchiveEntry) -> bool {
    entry.is_file && is_plugin_path_spec(entry.path@)
}

/// The paths of the plugins among the entries, in the order of the
/// entries.
pub open spec fn plugin_entries(entries: Seq<ArchiveEntry>) -> Seq<String> {
    entries.filter(|e: ArchiveEntry| is_plugin_entry(e)).map_values(|e: ArchiveEntry| e.path)
}

/// The plugins among the paths of a listing, in the order of the listing.
pub open spec fn plugin_paths(listing: Seq<String>) -> Seq<String> {
    listing.filter(|p: String| is_plugin_path_spec(p@))
}

/// The kind of download that a MIME type stands for.
pub fn archive_kind(mime: &str) -> (r: ArchiveKind)
    ensures
        r == kind_of_mime(mime@),
{
    if str_eq(mime, "application/vnd.rar") {
        ArchiveKind::Rar
    } else if str_eq(mime, "application/zip") {
        ArchiveKind::Zip
    } else if str_eq(mime, "application/x-7z-compressed") {
        ArchiveKind::SevenZip
    } else if str_eq(mime, "application/vnd.microsoft.portable-executable") {
        ArchiveKind::Executable
    } else {
        ArchiveKind::Other
    }
}

/// Tells the kind of a download from its first eight bytes.
pub fn sniff(initial_bytes: &[u8; 8]) -> (r: Option<ArchiveKind>)
    ensures
        r == sniffed_kind(initial_bytes@),
{
    match infer_mime(initial_bytes) {
        Some(mime) => Some(archive_kind(mime.as_str())),
        None => None,
    }
}

/// The strategy to try first.
pub fn primary_strategy(kind: ArchiveKind) -> (r: Option<Strategy>)
    ensures
        r == primary_strategy_spec(kind),
{
    match kind {
        ArchiveKind::Rar => Some(Strategy::NativeRar),
        ArchiveKind::Executable => None,
        _ => Some(Strategy::Streaming),
    }
}

/// What to do after a strategy has failed.
pub fn after_failure(kind: ArchiveKind, failed: Strategy, failure: ExtractionFailure) -> (r:
    AfterFailure)
    ensures
        r == after_failure_spec(kind, failed, failure),
{
    match (kind, failed, failure) {
        (ArchiveKind::Rar, Strategy::NativeRar, _) => AfterFailure::FallBack(Strategy::External7z),
        (ArchiveKind::Zip, Strategy::Streaming, ExtractionFailure::Extractor) => {
            AfterFailure::FallBack(Strategy::External7z)
        },
        (ArchiveKind::SevenZip, Strategy::Streaming, ExtractionFailure::Extractor) => {
            AfterFailure::FallBack(Strategy::External7z)
        },
        _ => AfterFailure::Fatal,
    }
}

/// What to do with a file whose archive cannot be read at all.
pub fn unreadable_archive(checked_metadata: bool) -> (r: UnreadableArchive)
    ensures
        r == unreadable_archive_spec(checked_metadata),
{
    if checked_metadata {
        UnreadableArchive::Fatal
    } else {
        UnreadableArchive::MarkUnableToExtract
    }
}

/// No strategy is ever followed by itself, and `7z` is followed by
/// nothing: an archive is attempted at most twice.
pub proof fn lemma_fallback_is_final(kind: ArchiveKind, failed: Strategy, failure: ExtractionFailure)
    ensures
        after_failure_spec(kind, failed, failure) matches AfterFailure::FallBack(next) ==> {
            &&& next == Strategy::External7z
            &&& failed != Strategy::External7z
            &&& primary_strategy_spec(kind) == Some(failed)
            &&& forall|again: ExtractionFailure|
                after_failure_spec(kind, next, again) == AfterFailure::Fatal
        },
{
}

/// Whether a path within an archive names a plugin.
pub fn is_plugin_path(path: &str) -> (r: bool)
    ensures
        r == is_plugin_path_spec(path@),
{
    let chars = chars_of(path);
    let mut lower: Vec<char> = Vec::new();
    let mut i: usize = 0;
    while i < chars.len()
        invariant
            i <= chars.len(),
            lower@ == lowered(chars@.subrange(0, i as int)),
        decreases chars.len() - i,
    {
        lower.push(to_ascii_lower(chars[i]));
        assert(lower@ =~= lowered(chars@.subrange(0, i + 1)));
        i += 1;
    }
    assert(chars@.subrange(0, chars.len() as int) =~= chars@);
    ends_with(&lower, &chars_of(".esp")) || ends_with(&lower, &chars_of(".esm")) || ends_with(
        &lower,
        &chars_of(".esl"),
    )
}

/// Turns the backslashes of a path into forward slashes, so that a path
/// reads the same whatever program packed the archive.
pub fn normalize_path(path: &str) -> (r: String)
    ensures
        r@ == normalized(path@),
{
    let chars = chars_of(path);
    let mut out: Vec<char> = Vec::new();
    let mut i: usize = 0;
    while i < chars.len()
        invariant
            i <= chars.len(),
            out@ == normalized(chars@.subrange(0, i as int)),
        decreases chars.len() - i,
    {
        let c: char = chars[i];
        out.push(
            if c == '\\' {
                '/'
            } else {
                c
            },
        );
        assert(out@ =~= normalized(chars@.subrange(0, i + 1)));
        i += 1;
    }
    assert(chars@.subrange(0, chars.len() as int) =~= chars@);
    string_of(&out)
}

/// Whether `path` begins with `root` and a forward slash after it.
pub open spec fn is_below(root: Seq<char>, path: Seq<char>) -> bool {
    root.len() < path.len() && path.subrange(0, root.len() as int) == root && path[root.len() as int]
        == '/'
}

/// The path of an entry within the directory that an archive was unpacked
/// into: `path` without `root` and the forward slash after it where `path`
/// begins with both, and `path` as it is otherwise.
pub open spec fn path_within_spec(root: Seq<char>, path: Seq<char>) -> Seq<char> {
    if is_below(root, path) {
        path.subrange(root.len() + 1 as int, path.len() as int)
    } else {
        path
    }
}

/// The path of an unpacked entry as it was within its archive: what
/// follows the directory that the archive was unpacked into.
pub fn path_within(root: &str, path: &str) -> (r: String)
    ensures
        r@ == path_within_spec(root@, path@),
{
    let root_chars = chars_of(root);
    let path_chars = chars_of(path);
    let n: usize = root_chars.len();
    if n >= path_chars.len() {
        return string_of(&path_chars);
    }
    let mut i: usize = 0;
    while i < n
        invariant
            i <= n,
            n == root_chars.len(),
            n < path_chars.len(),
            root_chars@ == root@,
            path_chars@ == path@,
            forall|j: int| 0 <= j < i ==> path_chars@[j] == root_chars@[j],
        decreases n - i,
    {
        if path_chars[i] != root_chars[i] {
            proof {
                let head = path_chars@.subrange(0, n as int);
                assert(head[i as int] == path_chars@[i as int]);
                assert(head != root_chars@);
            }
            return string_of(&path_chars);
        }
        i += 1;
    }
    assert(path_chars@.subrange(0, n as int) =~= root_chars@);
    if path_chars[n] != '/' {
        return string_of(&path_chars);
    }
    let mut rest: Vec<char> = Vec::new();
    let mut k: usize = n + 1;
    while k < path_chars.len()
        invariant
            n + 1 <= k <= path_chars.len(),
            rest@ == path_chars@.subrange(n + 1, k as int),
        decreases path_chars.len() - k,
    {
        rest.push(path_chars[k]);
        assert(rest@ =~= path_chars@.subrange(n + 1, k + 1));
        k += 1;
    }
    string_of(&rest)
}

/// The paths of the plugins among the entries of an unpacked archive:
/// every file whose path names a plugin, in the order of the entries.
/// Directories are left out, whatever their names.
pub fn select_plugin_entries(entries: &Vec<ArchiveEntry>) -> (r: Vec<String>)
    ensures
        r@ == plugin_entries(entries@),
{
    let ghost pred = |e: ArchiveEntry| is_plugin_entry(e);
    let ghost path_of = |e: ArchiveEntry| e.path;
    let mut out: Vec<String> = Vec::new();
    let mut i: usize = 0;
    proof {
        lemma_filter_empty(entries@.subrange(0, 0), pred);
    }
    while i < entries.len()
        invariant
            i <= entries.len(),
            pred == (|e: ArchiveEntry| is_plugin_entry(e)),
            path_of == (|e: ArchiveEntry| e.path),
            out@ =~= entries@.subrange(0, i as int).filter(pred).map_values(path_of),
        decreases entries.len() - i,
    {
        proof {
            lemma_filter_step(entries@, pred, i as int);
        }
        let entry = &entries[i];
        if entry.is_file && is_plugin_path(entry.path.as_str()) {
            out.push(entry.path.clone());
        }
        i += 1;
    }
    assert(entries@.subrange(0, entries.len() as int) =~= entries@);
    out
}

/// The queue of plugins that the streaming reader still has to decode from
/// one archive.
///
/// The archive is listed once, when the first plugin is asked for. From
/// then on the queue hands out the paths of its plugins in the order of the
/// listing, each once.
pub struct Extractor {
    plugin_file_paths: Option<VecDeque<String>>,
}

/// What the queue asks of its caller.
#[derive(Debug, Clone, PartialEq)]
pub enum NextPlugin {
    /// List the entries of the archive and hand the listing over.
    ListArchive,
    /// Decode the entry under this path.
    Decode(String),
    /// Every plugin has been handed out.
    Finished,
}

impl Extractor {
    /// Whether the archive has been listed yet.
    pub closed spec fn listed(&self) -> bool {
        self.plugin_file_paths is Some
    }

    /// The paths still to be handed out.
    pub closed spec fn pending(&self) -> Seq<String> {
        match self.plugin_file_paths {
            Some(paths) => paths@,
            None => Seq::empty(),
        }
    }

    /// A queue for an archive that has not been listed yet.
    pub fn new() -> (r: Extractor)
        ensures
            !r.listed(),
            r.pending() == Seq::<String>::empty(),
    {
        Extractor { plugin_file_paths: None }
    }

    /// Takes the listing of the archive and keeps the plugins among its
    /// paths, in the order of the listing. A later listing replaces what
    /// an earlier one left.
    pub fn list_plugins(&mut self, archive_files: &Vec<String>)
        ensures
            final(self).listed(),
            final(self).pending() == plugin_paths(archive_files@),
    {
        let ghost pred = |p: String| is_plugin_path_spec(p@);
        let mut queue: VecDeque<String> = VecDeque::new();
        let mut i: usize = 0;
        proof {
            lemma_filter_empty(archive_files@.subrange(0, 0), pred);
        }
        while i < archive_files.len()
            invariant
                i <= archive_files.len(),
                pred == (|p: String| is_plugin_path_spec(p@)),
                queue@ =~= archive_files@.subrange(0, i as int).filter(pred),
            decreases archive_files.len() - i,
        {
            proof {
                lemma_filter_step(archive_files@, pred, i as int);
            }
            if is_plugin_path(archive_files[i].as_str()) {
                queue.push_back(archive_files[i].clone());
            }
            i += 1;
        }
        assert(archive_files@.subrange(0, archive_files.len() as int) =~= archive_files@);
        self.plugin_file_paths = Some(queue);
    }

    /// What to do next: list the archive where that has not been done,
    /// else decode the plugin at the front of the queue, which leaves the
    /// queue, or finish where the queue is empty.
    pub fn next(&mut self) -> (r: NextPlugin)
        ensures
            !old(self).listed() ==> r == NextPlugin::ListArchive && *final(self) == *old(self),
            old(self).listed() && old(self).pending().len() == 0 ==> r == NextPlugin::Finished
                && final(self).listed() && final(self).pending() == old(self).pending(),
            old(self).listed() && old(self).pending().len() > 0 ==> r == NextPlugin::Decode(
                old(self).pending()[0],
            ) && final(self).listed() && final(self).pending() == old(self).pending().drop_first(),
    {
        match &mut self.plugin_file_paths {
            None => NextPlugin::ListArchive,
            Some(queue) => match queue.pop_front() {
                Some(path) => NextPlugin::Decode(path),
                None => NextPlugin::Finished,
            },
        }
    }
}

} // verus!
