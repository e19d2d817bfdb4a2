//! Replacing literal text, line by line, in text files.
use vstd::prelude::*;
use crate::error::ToolError;
use crate::files::{
    backup_path, count_kind, lemma_count_kind_push, lemma_scan_counts_partition, read_error, skip_kind,
    read_error_of, views, SkipReason,
};
use crate::literal::{
    count_in_lines, count_occurrences, lemma_count_bound, replace_all, replace_in_lines,
    replace_range,
};
use crate::text::{
    chars_of, ending_of, flatten, lemma_flatten_take, lemma_segments_split, line_end, lines,
    push_chars, segment_ranges, segments, string_of, strip_ending,
};

verus! {

/// What to replace, by what, and where.
#[derive(Debug)]
pub struct ReplaceOptions {
    pub old_text: String,
    pub new_text: String,
    pub path: String,
    /// Report the changes without writing any file.
    pub dry_run: bool,
    /// Copy each file to its backup path before changing it.
    pub backup: bool,
}

/// One changed line.
#[derive(Debug, PartialEq, Eq)]
pub struct ReplacementChange {
    pub path: String,
    /// The 1-based number of the line.
    pub line_number: usize,
    pub old_line: String,
    pub new_line: String,
    /// How many occurrences the line held.
    pub replacements: usize,
}

/// The counts of a replacement.
#[derive(Debug)]
pub struct ReplaceSummary {
    pub total_files: usize,
    pub scanned_files: usize,
    pub skipped_files: usize,
    pub binary_files: usize,
    pub non_utf8_files: usize,
    pub unreadable_files: usize,
    pub skipped_directories: usize,
    pub changed_files: usize,
    pub changed_lines: usize,
    pub replacements: usize,
    pub backups_created: usize,
    pub failed_files: usize,
}

impl Default for ReplaceSummary {
    fn default() -> (s: Self)
        ensures
            s.total_files == 0 && s.scanned_files == 0 && s.skipped_files == 0 && s.binary_files
                == 0 && s.non_utf8_files == 0 && s.unreadable_files == 0 && s.skipped_directories
                == 0 && s.changed_files == 0 && s.changed_lines == 0 && s.replacements == 0
                && s.backups_created == 0 && s.failed_files == 0,
    {
        ReplaceSummary {
            total_files: 0,
            scanned_files: 0,
            skipped_files: 0,
            binary_files: 0,
            non_utf8_files: 0,
            unreadable_files: 0,
            skipped_directories: 0,
            changed_files: 0,
            changed_lines: 0,
            replacements: 0,
            backups_created: 0,
            failed_files: 0,
        }
    }
}

/// The report of a replacement.
#[derive(Debug)]
pub struct ReplaceReport {
    pub command: String,
    pub old_text: String,
    pub new_text: String,
    pub root: String,
    pub dry_run: bool,
    pub backup: bool,
    pub changes: Vec<ReplacementChange>,
    pub summary: ReplaceSummary,
    pub errors: Vec<String>,
}

/// What replacing in one file gave. The file was scanned exactly when it
/// has no skip reason, and its number of replacements is that of its
/// changes summed.
#[derive(Debug)]
pub struct FileReplaceResult {
    pub path: String,
    pub skip_reason: Option<SkipReason>,
    pub changes: Vec<ReplacementChange>,
    pub backup_created: bool,
    pub failed: bool,
    pub error: Option<String>,
}

/// `s` holds a line feed or a carriage return.
pub open spec fn has_line_break(s: Seq<char>) -> bool {
    s.contains('\n') || s.contains('\r')
}

fn has_line_break_exec(s: &str) -> (b: bool)
    ensures
        b == has_line_break(s@),
{
    let v = chars_of(s);
    let mut i: usize = 0;
    while i < v.len()
        invariant
            v@ == s@,
            i <= v.len(),
            forall|k: int| 0 <= k < i ==> v@[k] != '\n' && v@[k] != '\r',
        decreases v.len() - i,
    {
        if v[i] == '\n' || v[i] == '\r' {
            assert(v@[i as int] == '\n' ==> s@.contains('\n'));
            assert(v@[i as int] == '\r' ==> s@.contains('\r'));
            return true;
        }
        i += 1;
    }
    false
}

/// Refuses an empty text to replace, and line breaks in either text, since
/// replacements are made within lines.
pub fn validate_options(options: &ReplaceOptions) -> (r: Result<(), ToolError>)
    ensures
        options.old_text@.len() == 0 ==> r matches Err(ToolError::EmptyOldText),
        options.old_text@.len() > 0 && has_line_break(options.old_text@) ==> r matches Err(
            ToolError::OldTextHasLineBreak,
        ),
        options.old_text@.len() > 0 && !has_line_break(options.old_text@) && has_line_break(
            options.new_text@,
        ) ==> r matches Err(ToolError::NewTextHasLineBreak),
        options.old_text@.len() > 0 && !has_line_break(options.old_text@) && !has_line_break(
            options.new_text@,
        ) ==> r is Ok,
{
    if options.old_text.as_str().is_empty() {
        return Err(ToolError::EmptyOldText);
    }
    if has_line_break_exec(options.old_text.as_str()) {
        return Err(ToolError::OldTextHasLineBreak);
    }
    if has_line_break_exec(options.new_text.as_str()) {
        return Err(ToolError::NewTextHasLineBreak);
    }
    Ok(())
}

/// The lines of a text that hold `p`, each with its 1-based number, its
/// replaced form and its number of occurrences, in order.
pub open spec fn changed_lines(ls: Seq<Seq<char>>, p: Seq<char>, r: Seq<char>) -> Seq<
    (int, Seq<char>, Seq<char>, nat),
>
    decreases ls.len(),
{
    if ls.len() == 0 {
        Seq::empty()
    } else {
        let prev = changed_lines(ls.drop_last(), p, r);
        let n = count_occurrences(ls.last(), p);
        if n > 0 {
            prev.push((ls.len() as int, ls.last(), replace_all(ls.last(), p, r), n))
        } else {
            prev
        }
    }
}

/// The changes `cs` are the changed lines `cl`, all in the file `path`.
pub open spec fn changes_are(
    cs: Seq<ReplacementChange>,
    path: Seq<char>,
    cl: Seq<(int, Seq<char>, Seq<char>, nat)>,
) -> bool {
    &&& cs.len() == cl.len()
    &&& forall|k: int|
        0 <= k < cs.len() ==> {
            &&& (#[trigger] cs[k]).path@ == path
            &&& cs[k].line_number == cl[k].0
            &&& cs[k].old_line@ == cl[k].1
            &&& cs[k].new_line@ == cl[k].2
            &&& cs[k].replacements == cl[k].3
        }
}

/// The occurrences counted by the changes, summed.
pub open spec fn sum_change_counts(cs: Seq<ReplacementChange>) -> nat
    decreases cs.len(),
{
    if cs.len() == 0 {
        0
    } else {
        sum_change_counts(cs.drop_last()) + cs.last().replacements as nat
    }
}

/// Replaces `old_text` by `new_text` in every line of `content`, keeping
/// each line's terminator. Gives the new content, one change for each line
/// that held `old_text`, and the number of replacements.
pub fn replace_lines(path: &str, content: &str, old_text: &str, new_text: &str) -> (r: (
    String,
    Vec<ReplacementChange>,
    usize,
))
    requires
        old_text@.len() > 0,
    ensures
        r.0@ == replace_in_lines(segments(content@), old_text@, new_text@),
        changes_are(r.1@, path@, changed_lines(lines(content@), old_text@, new_text@)),
        r.2 == count_in_lines(segments(content@), old_text@),
        r.2 == sum_change_counts(r.1@),
{
    let v = chars_of(content);
    let old = chars_of(old_text);
    let new = chars_of(new_text);
    let ranges = segment_ranges(&v);
    let ghost segs = segments(v@);
    let ghost ls = lines(v@);
    proof {
        lemma_segments_split(v@);
    }
    let mut new_content = String::new();
    let mut changes: Vec<ReplacementChange> = Vec::new();
    let mut total: usize = 0;
    let mut k: usize = 0;
    while k < ranges.len()
        invariant
            v@ == content@,
            old@ == old_text@,
            new@ == new_text@,
            old@.len() > 0,
            segs == segments(v@),
            ls == lines(v@),
            flatten(segs) == v@,
            ranges.len() == segs.len(),
            forall|j: int|
                0 <= j < ranges.len() ==> {
                    &&& (#[trigger] ranges[j]).0 <= ranges[j].1 <= v.len()
                    &&& v@.subrange(ranges[j].0 as int, ranges[j].1 as int) == segs[j]
                },
            k <= ranges.len(),
            new_content@ == replace_in_lines(segs.take(k as int), old@, new@),
            changes_are(changes@, path@, changed_lines(ls.take(k as int), old@, new@)),
            total == count_in_lines(segs.take(k as int), old@),
            total == sum_change_counts(changes@),
            total <= flatten(segs.take(k as int)).len(),
        decreases ranges.len() - k,
    {
        let (a, b) = ranges[k];
        let e = line_end(&v, a, b);
        let (replaced, count) = replace_range(&v, a, e, &old, &new);
        let ghost seg = segs[k as int];
        let ghost line = v@.subrange(a as int, e as int);
        proof {
            assert(line == strip_ending(seg));
            assert(v@.subrange(e as int, b as int) =~= ending_of(seg));
            assert(segs.take(k + 1).drop_last() =~= segs.take(k as int));
            assert(ls.take(k + 1).drop_last() =~= ls.take(k as int));
            assert(ls[k as int] == line);
            assert(ls.take(k + 1).last() == line);
            assert(ls.take(k + 1).len() == k + 1);
            lemma_flatten_take(segs, k as int);
            lemma_count_bound(line, old@);
            assert(flatten(segs.take(k + 1)).len() <= v.len()) by {
                assert(segs.take(segs.len() as int) =~= segs);
                lemma_flatten_prefix_len(segs, k + 1);
            }
        }
        push_chars(&mut new_content, &replaced, 0, replaced.len());
        push_chars(&mut new_content, &v, e, b);
        proof {
            assert(replaced@.subrange(0, replaced@.len() as int) =~= replaced@);
            assert(new_content@ =~= replace_in_lines(segs.take(k + 1), old@, new@));
        }
        total = total + count;
        let ghost changes0 = changes@;
        if count > 0 {
            let old_line = string_of(&v, a, e);
            let new_line = string_of(&replaced, 0, replaced.len());
            changes.push(
                ReplacementChange {
                    path: path.to_owned(),
                    line_number: k + 1,
                    old_line,
                    new_line,
                    replacements: count,
                },
            );
        }
        proof {
            if count > 0 {
                assert(changes@.drop_last() =~= changes0);
            } else {
                assert(changes@ == changes0);
            }
        }
        k += 1;
    }
    proof {
        assert(segs.take(ranges.len() as int) =~= segs);
        assert(ls.take(ranges.len() as int) =~= ls);
    }
    (new_content, changes, total)
}

proof fn lemma_flatten_prefix_len(segs: Seq<Seq<char>>, k: int)
    requires
        0 <= k <= segs.len(),
    ensures
        flatten(segs.take(k)).len() <= flatten(segs).len(),
    decreases segs.len() - k,
{
    if k < segs.len() {
        lemma_flatten_take(segs, k);
        lemma_flatten_prefix_len(segs, k + 1);
    } else {
        assert(segs.take(k) =~= segs);
    }
}


/// A file whose new content is yet to be written.
#[derive(Debug)]
pub struct PendingWrite {
    pub path: String,
    pub new_content: String,
    pub changes: Vec<ReplacementChange>,
    /// A backup is to be made before the file is written.
    pub backup: bool,
}

/// Where replacing in one file stands after its content is known.
#[derive(Debug)]
pub enum FileStep {
    /// Nothing is to be written; this is the outcome.
    Done(FileReplaceResult),
    /// The file is to be written.
    Write(PendingWrite),
}

/// What to do next for a file that is to be written.
#[derive(Debug)]
pub enum FileAction {
    /// Nothing more; this is the outcome.
    Finish(FileReplaceResult),
    /// Copy the file to `target`, then ask again with the outcome.
    CopyBackup { pending: PendingWrite, target: String },
    /// Write the new content to the file, then ask again with the outcome.
    WriteContent(PendingWrite),
}

/// The outcome for a file that was not scanned.
pub fn skipped_result(path: &str, reason: SkipReason) -> (r: FileReplaceResult)
    ensures
        r.path@ == path@,
        r.skip_reason == Some(reason),
        r.changes.len() == 0,
        !r.backup_created,
        !r.failed,
        r.error is None,
{
    FileReplaceResult {
        path: path.to_owned(),
        skip_reason: Some(reason),
        changes: Vec::new(),
        backup_created: false,
        failed: false,
        error: None,
    }
}

/// The outcome for a file that could not be changed.
pub fn failed_result(path: &str, error: String, backup_created: bool) -> (r: FileReplaceResult)
    ensures
        r.path@ == path@,
        r.skip_reason is None,
        r.changes.len() == 0,
        r.backup_created == backup_created,
        r.failed,
        r.error == Some(error),
{
    FileReplaceResult {
        path: path.to_owned(),
        skip_reason: None,
        changes: Vec::new(),
        backup_created,
        failed: true,
        error: Some(error),
    }
}

/// `d` reports the file `path` as reading it gave: skipped for the reason
/// reading failed, or scanned with exactly the lines that hold `p`, each
/// replaced by `r`.
pub open spec fn reports_read(
    d: FileReplaceResult,
    path: Seq<char>,
    read: Result<String, SkipReason>,
    p: Seq<char>,
    r: Seq<char>,
) -> bool {
    &&& d.path@ == path
    &&& match read {
        Err(reason) => d.skip_reason == Some(reason) && d.changes.len() == 0,
        Ok(content) => d.skip_reason is None && changes_are(
            d.changes@,
            path,
            changed_lines(lines(content@), p, r),
        ),
    }
}

/// Replaces in one file, given what reading it gave. A file that was not
/// read, holds no occurrence, or is only previewed (dry run) is done
/// without writing; any other is to be written.
pub fn replace_file(path: &str, read: Result<String, SkipReason>, options: &ReplaceOptions) -> (r:
    FileStep)
    requires
        options.old_text@.len() > 0,
    ensures
        r matches FileStep::Done(d) ==> reports_read(
            d,
            path@,
            read,
            options.old_text@,
            options.new_text@,
        ),
        options.dry_run ==> r is Done,
        match read {
            Err(reason) => r matches FileStep::Done(d) && d.path@ == path@
                && d.skip_reason == Some(reason) && d.changes.len() == 0
                && !d.backup_created && !d.failed && d.error is None,
            Ok(content) => {
                let cl = changed_lines(lines(content@), options.old_text@, options.new_text@);
                let n = count_in_lines(segments(content@), options.old_text@);
                if cl.len() == 0 || options.dry_run {
                    r matches FileStep::Done(d) && d.path@ == path@ && d.skip_reason is None
                        && changes_are(d.changes@, path@, cl) && sum_change_counts(d.changes@)
                        == n && !d.backup_created
                        && !d.failed && d.error is None
                } else {
                    r matches FileStep::Write(w) && w.path@ == path@ && w.new_content@
                        == replace_in_lines(
                        segments(content@),
                        options.old_text@,
                        options.new_text@,
                    ) && changes_are(w.changes@, path@, cl) && sum_change_counts(w.changes@)
                        == n && w.backup
                        == options.backup
                }
            },
        },
{
    let content = match read {
        Ok(content) => content,
        Err(reason) => return FileStep::Done(skipped_result(path, reason)),
    };
    let (new_content, changes, _replacements) = replace_lines(
        path,
        content.as_str(),
        options.old_text.as_str(),
        options.new_text.as_str(),
    );
    if changes.len() == 0 || options.dry_run {
        return FileStep::Done(
            FileReplaceResult {
                path: path.to_owned(),
                skip_reason: None,
                changes,
                backup_created: false,
                failed: false,
                error: None,
            },
        );
    }
    FileStep::Write(
        PendingWrite {
            path: path.to_owned(),
            new_content,
            changes,
            backup: options.backup,
        },
    )
}

/// The warning for a backup that could not be made.
pub open spec fn backup_error_message(path: Seq<char>, message: Seq<char>) -> Seq<char> {
    "Could not create backup "@ + path + ".bak"@ + " for "@ + path + ": "@ + message
}

/// The warning for a file that could not be written.
pub open spec fn write_error_message(path: Seq<char>, message: Seq<char>) -> Seq<char> {
    "Could not write "@ + path + ": "@ + message
}

/// Decides the next step for a file to be written, from what the backup
/// and the write gave so far. The backup, when asked for, comes first; the
/// file is written only once its backup exists; a failure ends the file.
pub fn next_write_action(
    pending: PendingWrite,
    backup_outcome: &Option<Result<(), String>>,
    write_outcome: &Option<Result<(), String>>,
) -> (r: FileAction)
    ensures
        match *write_outcome {
            Some(Ok(())) => r matches FileAction::Finish(d) && d.path == pending.path
                && d.skip_reason is None && d.changes == pending.changes
                && d.backup_created == pending.backup && !d.failed
                && d.error is None,
            Some(Err(message)) => r matches FileAction::Finish(d) && d.path == pending.path
                && d.skip_reason is None && d.changes.len() == 0
                && d.backup_created == pending.backup && d.failed && (d.error matches Some(
                e) && e@ == write_error_message(pending.path@, message@)),
            None => match *backup_outcome {
                Some(Err(message)) => r matches FileAction::Finish(d) && d.path == pending.path
                    && d.skip_reason is None && d.changes.len() == 0
                    && !d.backup_created && d.failed && (d.error matches Some(
                    e) && e@ == backup_error_message(pending.path@, message@)),
                Some(Ok(())) => r == FileAction::WriteContent(pending),
                None => if pending.backup {
                    r matches FileAction::CopyBackup { pending: p, target } && p == pending
                        && target@ == pending.path@ + ".bak"@
                } else {
                    r == FileAction::WriteContent(pending)
                },
            },
        },
{
    match write_outcome {
        Some(Ok(())) => {
            let PendingWrite { path, new_content: _, changes, backup } = pending;
            FileAction::Finish(
                FileReplaceResult {
                    path,
                    skip_reason: None,
                    changes,
                    backup_created: backup,
                    failed: false,
                    error: None,
                },
            )
        },
        Some(Err(message)) => {
            let mut e = "Could not write ".to_owned();
            e.append(pending.path.as_str());
            e.append(": ");
            e.append(message.as_str());
            let r = failed_result(pending.path.as_str(), e, pending.backup);
            FileAction::Finish(FileReplaceResult { path: pending.path, ..r })
        },
        None => match backup_outcome {
            Some(Err(message)) => {
                let target = backup_path(pending.path.as_str());
                let mut e = "Could not create backup ".to_owned();
                e.append(target.as_str());
                e.append(" for ");
                e.append(pending.path.as_str());
                e.append(": ");
                e.append(message.as_str());
                let r = failed_result(pending.path.as_str(), e, false);
                FileAction::Finish(FileReplaceResult { path: pending.path, ..r })
            },
            Some(Ok(())) => FileAction::WriteContent(pending),
            None => {
                if pending.backup {
                    let target = backup_path(pending.path.as_str());
                    FileAction::CopyBackup { pending, target }
                } else {
                    FileAction::WriteContent(pending)
                }
            },
        },
    }
}


/// The skip reasons of the outcomes, in order.
pub open spec fn replace_reasons(rs: Seq<FileReplaceResult>) -> Seq<Option<SkipReason>> {
    rs.map_values(|r: FileReplaceResult| r.skip_reason)
}

/// How many outcomes satisfy `f`.
pub open spec fn count_where(rs: Seq<FileReplaceResult>, f: spec_fn(FileReplaceResult) -> bool) -> nat
    decreases rs.len(),
{
    if rs.len() == 0 {
        0
    } else {
        count_where(rs.drop_last(), f) + if f(rs.last()) {
            1nat
        } else {
            0nat
        }
    }
}

/// The changes of all outcomes, file after file.
pub open spec fn all_changes(rs: Seq<FileReplaceResult>) -> Seq<ReplacementChange>
    decreases rs.len(),
{
    if rs.len() == 0 {
        Seq::empty()
    } else {
        all_changes(rs.drop_last()) + rs.last().changes@
    }
}

/// The warnings of the outcomes, file after file: for each, the warning of
/// an unreadable file, then its own error.
pub open spec fn replace_errors(rs: Seq<FileReplaceResult>) -> Seq<Seq<char>>
    decreases rs.len(),
{
    if rs.len() == 0 {
        Seq::empty()
    } else {
        let last = rs.last();
        replace_errors(rs.drop_last()) + read_error_of(last.path@, last.skip_reason) + match last.error {
            Some(e) => seq![e@],
            None => Seq::empty(),
        }
    }
}

proof fn lemma_count_where_bound(rs: Seq<FileReplaceResult>, f: spec_fn(FileReplaceResult) -> bool)
    ensures
        count_where(rs, f) <= rs.len(),
    decreases rs.len(),
{
    if rs.len() > 0 {
        lemma_count_where_bound(rs.drop_last(), f);
    }
}

proof fn lemma_sum_change_counts_concat(a: Seq<ReplacementChange>, b: Seq<ReplacementChange>)
    ensures
        sum_change_counts(a + b) == sum_change_counts(a) + sum_change_counts(b),
    decreases b.len(),
{
    if b.len() == 0 {
        assert(a + b =~= a);
    } else {
        lemma_sum_change_counts_concat(a, b.drop_last());
        assert((a + b).drop_last() =~= a + b.drop_last());
    }
}

/// The counts of a prefix of changes are at most those of all of them.
proof fn lemma_sum_change_counts_prefix(cs: Seq<ReplacementChange>, k: int)
    requires
        0 <= k <= cs.len(),
    ensures
        sum_change_counts(cs.take(k)) <= sum_change_counts(cs),
{
    lemma_sum_change_counts_concat(cs.take(k), cs.skip(k));
    assert(cs.take(k) + cs.skip(k) =~= cs);
}

/// The changes of a prefix of the outcomes are a prefix of all changes.
proof fn lemma_all_changes_prefix(rs: Seq<FileReplaceResult>, k: int)
    requires
        0 <= k <= rs.len(),
    ensures
        sum_change_counts(all_changes(rs.take(k))) <= sum_change_counts(all_changes(rs)),
    decreases rs.len() - k,
{
    if k < rs.len() {
        lemma_all_changes_prefix(rs, k + 1);
        assert(rs.take(k + 1).drop_last() =~= rs.take(k));
        lemma_sum_change_counts_concat(all_changes(rs.take(k)), rs[k].changes@);
    } else {
        assert(rs.take(k) =~= rs);
    }
}

/// The occurrences counted by the changes, summed, as a number.
fn change_count_total(cs: &Vec<ReplacementChange>) -> (n: usize)
    requires
        sum_change_counts(cs@) <= usize::MAX,
    ensures
        n == sum_change_counts(cs@),
{
    let mut n: usize = 0;
    let mut i: usize = 0;
    while i < cs.len()
        invariant
            i <= cs.len(),
            sum_change_counts(cs@) <= usize::MAX,
            n == sum_change_counts(cs@.take(i as int)),
        decreases cs.len() - i,
    {
        proof {
            assert(cs@.take(i + 1).drop_last() =~= cs@.take(i as int));
            lemma_sum_change_counts_prefix(cs@, i + 1);
        }
        n = n + cs[i].replacements;
        i += 1;
    }
    assert(cs@.take(cs.len() as int) =~= cs@);
    n
}

/// Adds the outcome of one file to the running counts, changes and warnings.
fn add_replace_result(
    summary: &mut ReplaceSummary,
    changes: &mut Vec<ReplacementChange>,
    errors: &mut Vec<String>,
    result: FileReplaceResult,
)
    requires
        old(summary).scanned_files < usize::MAX,
        old(summary).replacements + sum_change_counts(result.changes@) <= usize::MAX,
        old(summary).failed_files < usize::MAX,
        old(summary).backups_created < usize::MAX,
        old(summary).changed_files < usize::MAX,
        old(summary).binary_files + old(summary).non_utf8_files + old(summary).unreadable_files
            < usize::MAX,
        old(summary).skipped_files == old(summary).binary_files + old(summary).non_utf8_files
            + old(summary).unreadable_files,
        old(summary).changed_lines == old(changes).len(),
    ensures
        final(summary).total_files == old(summary).total_files,
        final(summary).skipped_directories == old(summary).skipped_directories,
        final(summary).scanned_files == old(summary).scanned_files + if result.skip_reason is None {
            1int
        } else {
            0int
        },
        final(summary).failed_files == old(summary).failed_files + if result.failed {
            1int
        } else {
            0int
        },
        final(summary).backups_created == old(summary).backups_created + if result.backup_created {
            1int
        } else {
            0int
        },
        final(summary).changed_files == old(summary).changed_files + if result.changes.len() > 0 {
            1int
        } else {
            0int
        },
        final(summary).binary_files == old(summary).binary_files + if skip_kind(result.skip_reason)
            == 1 {
            1int
        } else {
            0int
        },
        final(summary).non_utf8_files == old(summary).non_utf8_files + if skip_kind(
            result.skip_reason,
        ) == 2 {
            1int
        } else {
            0int
        },
        final(summary).unreadable_files == old(summary).unreadable_files + if skip_kind(
            result.skip_reason,
        ) == 3 {
            1int
        } else {
            0int
        },
        final(summary).skipped_files == final(summary).binary_files
            + final(summary).non_utf8_files + final(summary).unreadable_files,
        final(summary).replacements == old(summary).replacements + sum_change_counts(
            result.changes@,
        ),
        final(changes)@ == old(changes)@ + result.changes@,
        final(summary).changed_lines == final(changes).len(),
        views(final(errors)@) == views(old(errors)@) + read_error_of(
            result.path@,
            result.skip_reason,
        ) + match result.error {
            Some(e) => seq![e@],
            None => Seq::empty(),
        },
{
    let FileReplaceResult {
        path,
        skip_reason,
        changes: mut file_changes,
        backup_created,
        failed,
        error,
    } = result;
    if skip_reason.is_none() {
        summary.scanned_files += 1;
    }
    let ghost errors0 = views(errors@);
    match skip_reason {
        Some(SkipReason::Binary) => {
            summary.skipped_files += 1;
            summary.binary_files += 1;
        },
        Some(SkipReason::NonUtf8) => {
            summary.skipped_files += 1;
            summary.non_utf8_files += 1;
        },
        Some(SkipReason::Unreadable(message)) => {
            summary.skipped_files += 1;
            summary.unreadable_files += 1;
            let e = read_error(path.as_str(), message.as_str());
            errors.push(e);
            assert(views(errors@) =~= errors0.push(e@));
        },
        None => {},
    }
    assert(views(errors@) =~= errors0 + read_error_of(path@, skip_reason));
    if failed {
        summary.failed_files += 1;
    }
    if backup_created {
        summary.backups_created += 1;
    }
    if file_changes.len() > 0 {
        summary.changed_files += 1;
        let n = change_count_total(&file_changes);
        summary.replacements += n;
        changes.append(&mut file_changes);
        summary.changed_lines = changes.len();
    }
    let ghost errors1 = views(errors@);
    if let Some(e) = error {
        errors.push(e);
        assert(views(errors@) =~= errors1.push(e@));
    } else {
        assert(views(errors@) =~= errors1 + Seq::empty());
    }
}

/// Puts the outcomes of the files of a replacement together into its
/// report: the changes in order, the counts, and the warnings of the walk
/// followed by those of the files.
pub fn summarize_replace(
    options: &ReplaceOptions,
    results: Vec<FileReplaceResult>,
    skipped_directories: usize,
    errors: Vec<String>,
) -> (r: ReplaceReport)
    requires
        sum_change_counts(all_changes(results@)) <= usize::MAX,
    ensures
        r.command@ == "replace"@,
        r.old_text@ == options.old_text@,
        r.new_text@ == options.new_text@,
        r.root@ == options.path@,
        r.dry_run == options.dry_run,
        r.backup == options.backup,
        r.changes@ == all_changes(results@),
        r.summary.total_files == results.len(),
        r.summary.scanned_files == count_kind(replace_reasons(results@), 0),
        r.summary.binary_files == count_kind(replace_reasons(results@), 1),
        r.summary.non_utf8_files == count_kind(replace_reasons(results@), 2),
        r.summary.unreadable_files == count_kind(replace_reasons(results@), 3),
        r.summary.skipped_files == r.summary.binary_files + r.summary.non_utf8_files
            + r.summary.unreadable_files,
        r.summary.skipped_directories == skipped_directories,
        r.summary.scanned_files + r.summary.skipped_files == r.summary.total_files,
        r.summary.failed_files == count_where(results@, |x: FileReplaceResult| x.failed),
        r.summary.backups_created == count_where(
            results@,
            |x: FileReplaceResult| x.backup_created,
        ),
        r.summary.changed_files == count_where(
            results@,
            |x: FileReplaceResult| x.changes.len() > 0,
        ),
        r.summary.changed_lines == r.changes.len(),
        r.summary.replacements == sum_change_counts(r.changes@),
        views(r.errors@) == views(errors@) + replace_errors(results@),
{
    let ghost rs = results@;
    let ghost reasons = replace_reasons(rs);
    let total = results.len();
    let mut summary = ReplaceSummary::default();
    summary.total_files = total;
    summary.skipped_directories = skipped_directories;
    let mut changes: Vec<ReplacementChange> = Vec::new();
    let mut errors = errors;
    let ghost errors0 = views(errors@);
    let ghost f_failed = |x: FileReplaceResult| x.failed;
    let ghost f_backup = |x: FileReplaceResult| x.backup_created;
    let ghost f_changed = |x: FileReplaceResult| x.changes.len() > 0;
    for result in it: results
        invariant
            it.seq() == rs,
            rs.len() == total,
            reasons == replace_reasons(rs),
            sum_change_counts(all_changes(rs)) <= usize::MAX,
            f_failed == (|x: FileReplaceResult| x.failed),
            f_backup == (|x: FileReplaceResult| x.backup_created),
            f_changed == (|x: FileReplaceResult| x.changes.len() > 0),
            summary.total_files == total,
            summary.skipped_directories == skipped_directories,
            summary.scanned_files == count_kind(reasons.take(it.index() as int), 0),
            summary.failed_files == count_where(rs.take(it.index() as int), f_failed),
            summary.backups_created == count_where(rs.take(it.index() as int), f_backup),
            summary.changed_files == count_where(rs.take(it.index() as int), f_changed),
            summary.binary_files == count_kind(reasons.take(it.index() as int), 1),
            summary.non_utf8_files == count_kind(reasons.take(it.index() as int), 2),
            summary.unreadable_files == count_kind(reasons.take(it.index() as int), 3),
            summary.skipped_files == summary.binary_files + summary.non_utf8_files
                + summary.unreadable_files,
            summary.changed_lines == changes.len(),
            summary.replacements == sum_change_counts(changes@),
            changes@ == all_changes(rs.take(it.index() as int)),
            views(errors@) == errors0 + replace_errors(rs.take(it.index() as int)),
    {
        let ghost i = it.index() as int;
        let ghost pre = rs.take(i);
        proof {
            lemma_count_kind_push(reasons, i, 0);
            lemma_count_kind_push(reasons, i, 1);
            lemma_count_kind_push(reasons, i, 2);
            lemma_count_kind_push(reasons, i, 3);
            lemma_scan_counts_partition(reasons.take(i));
            assert(rs.take(i + 1).drop_last() =~= pre);
            assert(reasons.take(i + 1).drop_last() =~= reasons.take(i));
            assert(reasons[i] == result.skip_reason);
            assert(rs.take(i + 1).last() == result);
            lemma_count_where_bound(pre, f_failed);
            lemma_count_where_bound(pre, f_backup);
            lemma_count_where_bound(pre, f_changed);
            lemma_all_changes_prefix(rs, i + 1);
            lemma_sum_change_counts_concat(all_changes(pre), result.changes@);
        }
        let ghost errors_before = views(errors@);
        add_replace_result(&mut summary, &mut changes, &mut errors, result);
        proof {
            let last = rs.take(i + 1).last();
            assert(replace_errors(rs.take(i + 1)) =~= replace_errors(pre) + read_error_of(
                last.path@,
                last.skip_reason,
            ) + match last.error {
                Some(e) => seq![e@],
                None => Seq::empty(),
            });
            assert(views(errors@) =~= errors0 + replace_errors(rs.take(i + 1)));
        }
    }
    proof {
        assert(rs.take(rs.len() as int) =~= rs);
        assert(reasons.take(rs.len() as int) =~= reasons);
    }
    proof {
        lemma_scan_counts_partition(reasons);
    }
    ReplaceReport {
        command: "replace".to_owned(),
        old_text: options.old_text.clone(),
        new_text: options.new_text.clone(),
        root: options.path.clone(),
        dry_run: options.dry_run,
        backup: options.backup,
        changes,
        summary,
        errors,
    }
}


/// The changes of a replacement are exactly the lines that contain the
/// text to replace, each with its own 1-based number, its replaced form and
/// its number of occurrences, in increasing order.
pub proof fn lemma_changed_lines_exact(ls: Seq<Seq<char>>, p: Seq<char>, r: Seq<char>)
    requires
        p.len() > 0,
    ensures
        ({
            let cl = changed_lines(ls, p, r);
            &&& forall|k: int|
                0 <= k < cl.len() ==> 1 <= (#[trigger] cl[k]).0 <= ls.len() && cl[k].1 == ls[cl[k].0
                    - 1] && cl[k].2 == replace_all(cl[k].1, p, r) && cl[k].3 == count_occurrences(
                    cl[k].1,
                    p,
                ) && crate::literal::contains(cl[k].1, p)
            &&& forall|k: int, j: int| 0 <= k < j < cl.len() ==> (#[trigger] cl[k]).0 < (
            #[trigger] cl[j]).0
            &&& forall|i: int|
                0 <= i < ls.len() && crate::literal::contains(#[trigger] ls[i], p) ==> exists|k: int|
                    0 <= k < cl.len() && (#[trigger] cl[k]).0 == i + 1
        }),
    decreases ls.len(),
{
    if ls.len() > 0 {
        let prev = ls.drop_last();
        lemma_changed_lines_exact(prev, p, r);
        crate::literal::lemma_count_positive_iff_contains(ls.last(), p);
        let pc = changed_lines(prev, p, r);
        let cl = changed_lines(ls, p, r);
        assert forall|k: int| 0 <= k < pc.len() implies (#[trigger] pc[k]).1 == ls[pc[k].0 - 1] by {
            assert(prev[pc[k].0 - 1] == ls[pc[k].0 - 1]);
        }
        assert forall|i: int| 0 <= i < ls.len() && crate::literal::contains(#[trigger] ls[i], p) implies exists|
            k: int,
        | 0 <= k < cl.len() && (#[trigger] cl[k]).0 == i + 1 by {
            if i < prev.len() {
                assert(prev[i] == ls[i]);
                let k = choose|k: int| 0 <= k < pc.len() && (#[trigger] pc[k]).0 == i + 1;
                assert(cl[k] == pc[k]);
            } else {
                assert(cl[cl.len() - 1].0 == i + 1);
            }
        }
    }
}


/// A replacement changes exactly the lines that a literal, case-sensitive
/// search for the replaced text reports: the same lines, with the same
/// numbers, in the same order.
pub proof fn lemma_replace_changes_searched_lines(
    ls: Seq<Seq<char>>,
    m: crate::matcher::Matcher,
    p: Seq<char>,
    r: Seq<char>,
)
    requires
        p.len() > 0,
        forall|line: Seq<char>| #[trigger] m.accepts(line) == crate::literal::contains(line, p),
    ensures
        ({
            let ml = crate::search::matching_lines(ls, m);
            let cl = changed_lines(ls, p, r);
            &&& ml.len() == cl.len()
            &&& forall|k: int|
                0 <= k < ml.len() ==> (#[trigger] ml[k]).0 == cl[k].0 && ml[k].1 == cl[k].1
        }),
    decreases ls.len(),
{
    if ls.len() > 0 {
        lemma_replace_changes_searched_lines(ls.drop_last(), m, p, r);
        crate::literal::lemma_count_positive_iff_contains(ls.last(), p);
        assert(m.accepts(ls.last()) == crate::literal::contains(ls.last(), p));
    }
}


/// The text of a change: its path, line number, old and new line, and count.
pub open spec fn change_view(c: ReplacementChange) -> (Seq<char>, int, Seq<char>, Seq<char>, int) {
    (c.path@, c.line_number as int, c.old_line@, c.new_line@, c.replacements as int)
}

/// The texts of the changes, in order.
pub open spec fn change_views(cs: Seq<ReplacementChange>) -> Seq<
    (Seq<char>, int, Seq<char>, Seq<char>, int),
> {
    cs.map_values(|c: ReplacementChange| change_view(c))
}

/// A file whose new content was written reports exactly its changed lines:
/// what `next_write_action` gives after a successful write keeps the
/// changes that `replace_file` planned.
pub proof fn lemma_written_file_reports_its_changes(
    w: PendingWrite,
    d: FileReplaceResult,
    path: Seq<char>,
    content: String,
    p: Seq<char>,
    r: Seq<char>,
)
    requires
        w.path@ == path,
        changes_are(w.changes@, path, changed_lines(lines(content@), p, r)),
        d.path == w.path,
        d.skip_reason is None,
        d.changes == w.changes,
    ensures
        reports_read(d, path, Ok::<String, SkipReason>(content), p, r),
{
}

proof fn lemma_change_views_of_lines(
    a: Seq<ReplacementChange>,
    b: Seq<ReplacementChange>,
    path: Seq<char>,
    cl: Seq<(int, Seq<char>, Seq<char>, nat)>,
)
    requires
        changes_are(a, path, cl),
        changes_are(b, path, cl),
    ensures
        change_views(a) == change_views(b),
{
    assert forall|k: int| 0 <= k < a.len() implies change_views(a)[k] == change_views(b)[k] by {
        assert(a[k].path@ == path && b[k].path@ == path);
    }
    assert(change_views(a) =~= change_views(b));
}

proof fn lemma_change_views_sum(a: Seq<ReplacementChange>, b: Seq<ReplacementChange>)
    requires
        change_views(a) == change_views(b),
    ensures
        sum_change_counts(a) == sum_change_counts(b),
    decreases a.len(),
{
    assert(a.len() == change_views(a).len());
    assert(b.len() == change_views(b).len());
    if a.len() > 0 {
        assert(change_views(a.drop_last()) =~= change_views(a).drop_last());
        assert(change_views(b.drop_last()) =~= change_views(b).drop_last());
        lemma_change_views_sum(a.drop_last(), b.drop_last());
        assert(change_views(a)[a.len() - 1] == change_views(b)[b.len() - 1]);
    }
}

/// A dry run reports exactly what the real run reports when every backup
/// and write succeeds, and two runs over the same reads report the same
/// thing however their files were processed: for the same reads of the
/// same files, in the order of the discovery, outcomes that
/// each report their read (as `replace_file` gives in a dry run, and
/// `next_write_action` after successful writes, see
/// `lemma_written_file_reports_its_changes`) hold the same changes in the
/// same order, the same number of replacements, the same changed files and
/// the same skipped ones. `summarize_replace` makes its report's changes and
/// counts from exactly these.
pub proof fn lemma_dry_run_reports_the_real_changes(
    dry: Seq<FileReplaceResult>,
    applied: Seq<FileReplaceResult>,
    paths: Seq<Seq<char>>,
    reads: Seq<Result<String, SkipReason>>,
    p: Seq<char>,
    r: Seq<char>,
)
    requires
        dry.len() == paths.len(),
        applied.len() == paths.len(),
        reads.len() == paths.len(),
        forall|k: int|
            0 <= k < paths.len() ==> reports_read(#[trigger] dry[k], paths[k], reads[k], p, r),
        forall|k: int|
            0 <= k < paths.len() ==> reports_read(#[trigger] applied[k], paths[k], reads[k], p, r),
    ensures
        change_views(all_changes(dry)) == change_views(all_changes(applied)),
        sum_change_counts(all_changes(dry)) == sum_change_counts(all_changes(applied)),
        count_where(dry, |x: FileReplaceResult| x.changes.len() > 0) == count_where(
            applied,
            |x: FileReplaceResult| x.changes.len() > 0,
        ),
        replace_reasons(dry) == replace_reasons(applied),
    decreases paths.len(),
{
    if paths.len() > 0 {
        let n = paths.len() - 1;
        let (dp, rp) = (dry.drop_last(), applied.drop_last());
        assert forall|k: int| 0 <= k < n implies reports_read(
            #[trigger] dp[k],
            paths.drop_last()[k],
            reads.drop_last()[k],
            p,
            r,
        ) by {
            assert(reports_read(dry[k], paths[k], reads[k], p, r));
        }
        assert forall|k: int| 0 <= k < n implies reports_read(
            #[trigger] rp[k],
            paths.drop_last()[k],
            reads.drop_last()[k],
            p,
            r,
        ) by {
            assert(reports_read(applied[k], paths[k], reads[k], p, r));
        }
        lemma_dry_run_reports_the_real_changes(dp, rp, paths.drop_last(), reads.drop_last(), p, r);
        assert(reports_read(dry[n], paths[n], reads[n], p, r));
        assert(reports_read(applied[n], paths[n], reads[n], p, r));
        let (dl, rl) = (dry[n], applied[n]);
        match reads[n] {
            Err(_) => {
                assert(dl.changes@ =~= rl.changes@);
            },
            Ok(content) => {
                lemma_change_views_of_lines(
                    dl.changes@,
                    rl.changes@,
                    paths[n],
                    changed_lines(lines(content@), p, r),
                );
            },
        }
        assert(dl.changes@.len() == change_views(dl.changes@).len());
        assert(rl.changes@.len() == change_views(rl.changes@).len());
        assert(change_views(all_changes(dry)) =~= change_views(all_changes(dp)) + change_views(
            dl.changes@,
        ));
        assert(change_views(all_changes(applied)) =~= change_views(all_changes(rp)) + change_views(
            rl.changes@,
        ));
        lemma_sum_change_counts_concat(all_changes(dp), dl.changes@);
        lemma_sum_change_counts_concat(all_changes(rp), rl.changes@);
        lemma_change_views_sum(dl.changes@, rl.changes@);
        assert(replace_reasons(dry) =~= replace_reasons(dp).push(dl.skip_reason));
        assert(replace_reasons(applied) =~= replace_reasons(rp).push(rl.skip_reason));
    }
}

} // verus!
