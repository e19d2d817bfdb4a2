//! The plain-text reports that the command line prints.
use vstd::prelude::*;
use crate::replace::{ReplaceReport, ReplacementChange};
use crate::search::{SearchMatch, SearchReport};
use crate::stats::StatsReport;
use crate::text::{decimal, push_decimal};
use crate::literal::{contains, occurs_at};

verus! {

/// The texts of the items put one after the other.
pub open spec fn joined<T>(items: Seq<T>, f: spec_fn(T) -> Seq<char>) -> Seq<char>
    decreases items.len(),
{
    if items.len() == 0 {
        Seq::empty()
    } else {
        joined(items.drop_last(), f) + f(items.last())
    }
}

/// Joining one more item appends its text.
pub proof fn lemma_joined_take<T>(items: Seq<T>, f: spec_fn(T) -> Seq<char>, i: int)
    requires
        0 <= i < items.len(),
    ensures
        joined(items.take(i + 1), f) == joined(items.take(i), f) + f(items[i]),
{
    assert(items.take(i + 1).drop_last() =~= items.take(i));
}

/// Joining all the items of a prefix that is the whole sequence.
pub proof fn lemma_joined_all<T>(items: Seq<T>, f: spec_fn(T) -> Seq<char>)
    ensures
        joined(items.take(items.len() as int), f) == joined(items, f),
{
    assert(items.take(items.len() as int) =~= items);
}

/// Joining two sequences one after the other joins their texts.
pub proof fn lemma_joined_concat<T>(a: Seq<T>, b: Seq<T>, f: spec_fn(T) -> Seq<char>)
    ensures
        joined(a + b, f) == joined(a, f) + joined(b, f),
    decreases b.len(),
{
    if b.len() == 0 {
        assert(a + b =~= a);
    } else {
        lemma_joined_concat(a, b.drop_last(), f);
        assert((a + b).drop_last() =~= a + b.drop_last());
        assert((a + b).last() == b.last());
    }
}

/// The text of every item stands whole in the joined text, with the texts
/// of the items before it in front and those after it behind.
pub proof fn lemma_joined_at<T>(items: Seq<T>, f: spec_fn(T) -> Seq<char>, k: int)
    requires
        0 <= k < items.len(),
    ensures
        joined(items, f) == joined(items.take(k), f) + f(items[k]) + joined(items.skip(k + 1), f),
{
    lemma_joined_concat(items.take(k), items.skip(k), f);
    lemma_joined_concat(seq![items[k]], items.skip(k + 1), f);
    assert(items.take(k) + items.skip(k) =~= items);
    assert(seq![items[k]] + items.skip(k + 1) =~= items.skip(k));
    let one = seq![items[k]];
    assert(one.drop_last() =~= Seq::<T>::empty());
    assert(one.last() == items[k]);
    assert(joined(one.drop_last(), f) == Seq::<char>::empty());
    assert(joined(one, f) == joined(one.drop_last(), f) + f(one.last()));
    assert(joined(one, f) =~= f(items[k]));
}

/// Appends the decimal notation of a count.
pub fn push_count(s: &mut String, n: usize)
    ensures
        final(s)@ == old(s)@ + decimal(n as nat),
{
    push_decimal(s, n as u64);
}

/// `path:line: text`, one matching line.
pub open spec fn match_line(m: SearchMatch) -> Seq<char> {
    m.path@ + ":"@ + decimal(m.line_number as nat) + ": "@ + m.line@ + "\n"@
}

/// Appends `path:line: text` and a line feed for each match.
pub fn push_match_lines(s: &mut String, matches: &Vec<SearchMatch>)
    ensures
        final(s)@ == old(s)@ + joined(matches@, |m: SearchMatch| match_line(m)),
{
    let ghost f = |m: SearchMatch| match_line(m);
    let ghost s0 = s@;
    let mut i: usize = 0;
    while i < matches.len()
        invariant
            i <= matches.len(),
            f == (|m: SearchMatch| match_line(m)),
            s@ == s0 + joined(matches@.take(i as int), f),
        decreases matches.len() - i,
    {
        let m = &matches[i];
        let ghost before = s@;
        s.append(m.path.as_str());
        s.append(":");
        push_count(s, m.line_number);
        s.append(": ");
        s.append(m.line.as_str());
        s.append("\n");
        proof {
            lemma_joined_take(matches@, f, i as int);
            assert(s@ =~= before + match_line(matches@[i as int]));
        }
        i += 1;
    }
    proof {
        lemma_joined_all(matches@, f);
    }
}

/// The text a search prints: its matching lines, then its counts.
pub open spec fn search_text_of(r: SearchReport) -> Seq<char> {
    joined(r.matches@, |m: SearchMatch| match_line(m)) + "\nMatches: "@ + decimal(
        r.summary.matches as nat,
    ) + " | Scanned files: "@ + decimal(r.summary.scanned_files as nat) + " | Skipped files: "@
        + decimal(r.summary.skipped_files as nat) + " | Skipped directories: "@ + decimal(
        r.summary.skipped_directories as nat,
    ) + "\n"@
}

/// The text a search prints.
pub fn search_text(r: &SearchReport) -> (t: String)
    ensures
        t@ == search_text_of(*r),
{
    let mut t = String::new();
    push_match_lines(&mut t, &r.matches);
    t.append("\nMatches: ");
    push_count(&mut t, r.summary.matches);
    t.append(" | Scanned files: ");
    push_count(&mut t, r.summary.scanned_files);
    t.append(" | Skipped files: ");
    push_count(&mut t, r.summary.skipped_files);
    t.append(" | Skipped directories: ");
    push_count(&mut t, r.summary.skipped_directories);
    t.append("\n");
    assert(t@ =~= search_text_of(*r));
    t
}

/// The block that tells one change: a head with the mode, the place and
/// the count, the old line and the new line.
pub open spec fn change_block(c: ReplacementChange, mode: Seq<char>, unit: Seq<char>, tail: Seq<char>) -> Seq<char> {
    "["@ + mode + "] "@ + c.path@ + ":"@ + decimal(c.line_number as nat) + " ("@ + decimal(
        c.replacements as nat,
    ) + unit + ")\n- "@ + c.old_line@ + "\n+ "@ + c.new_line@ + tail
}

/// Appends one block for each change.
pub fn push_change_blocks(
    s: &mut String,
    changes: &Vec<ReplacementChange>,
    mode: &str,
    unit: &str,
    tail: &str,
)
    ensures
        final(s)@ == old(s)@ + joined(
            changes@,
            |c: ReplacementChange| change_block(c, mode@, unit@, tail@),
        ),
{
    let ghost f = |c: ReplacementChange| change_block(c, mode@, unit@, tail@);
    let ghost s0 = s@;
    let mut i: usize = 0;
    while i < changes.len()
        invariant
            i <= changes.len(),
            f == (|c: ReplacementChange| change_block(c, mode@, unit@, tail@)),
            s@ == s0 + joined(changes@.take(i as int), f),
        decreases changes.len() - i,
    {
        let c = &changes[i];
        let ghost before = s@;
        s.append("[");
        s.append(mode);
        s.append("] ");
        s.append(c.path.as_str());
        s.append(":");
        push_count(s, c.line_number);
        s.append(" (");
        push_count(s, c.replacements);
        s.append(unit);
        s.append(")\n- ");
        s.append(c.old_line.as_str());
        s.append("\n+ ");
        s.append(c.new_line.as_str());
        s.append(tail);
        proof {
            lemma_joined_take(changes@, f, i as int);
            assert(s@ =~= before + change_block(changes@[i as int], mode@, unit@, tail@));
        }
        i += 1;
    }
    proof {
        lemma_joined_all(changes@, f);
    }
}

/// `DRY-RUN` for a preview, `CHANGED` otherwise.
pub open spec fn replace_mode(dry_run: bool) -> Seq<char> {
    if dry_run {
        "DRY-RUN"@
    } else {
        "CHANGED"@
    }
}

/// The text a replacement prints: a block for each change, then its counts.
pub open spec fn replace_text_of(r: ReplaceReport) -> Seq<char> {
    joined(
        r.changes@,
        |c: ReplacementChange| change_block(c, replace_mode(r.dry_run), " replacement(s)"@, "\n"@),
    ) + "\nChanged files: "@ + decimal(r.summary.changed_files as nat) + " | Changed lines: "@
        + decimal(r.summary.changed_lines as nat) + " | Replacements: "@ + decimal(
        r.summary.replacements as nat,
    ) + " | Backups: "@ + decimal(r.summary.backups_created as nat) + " | Failed files: "@
        + decimal(r.summary.failed_files as nat) + "\n"@
}

/// The text a replacement prints.
pub fn replace_text(r: &ReplaceReport) -> (t: String)
    ensures
        t@ == replace_text_of(*r),
{
    let mut t = String::new();
    let mode = if r.dry_run {
        "DRY-RUN"
    } else {
        "CHANGED"
    };
    push_change_blocks(&mut t, &r.changes, mode, " replacement(s)", "\n");
    t.append("\nChanged files: ");
    push_count(&mut t, r.summary.changed_files);
    t.append(" | Changed lines: ");
    push_count(&mut t, r.summary.changed_lines);
    t.append(" | Replacements: ");
    push_count(&mut t, r.summary.replacements);
    t.append(" | Backups: ");
    push_count(&mut t, r.summary.backups_created);
    t.append(" | Failed files: ");
    push_count(&mut t, r.summary.failed_files);
    t.append("\n");
    assert(t@ =~= replace_text_of(*r));
    t
}

/// The text a count prints, one line for each figure.
pub open spec fn stats_text_of(r: StatsReport) -> Seq<char> {
    "Root: "@ + r.root@ + "\nTotal files: "@ + decimal(r.stats.total_files as nat)
        + "\nScanned files: "@ + decimal(r.stats.scanned_files as nat) + "\nSkipped files: "@
        + decimal(r.stats.skipped_files as nat) + "\nBinary files: "@ + decimal(
        r.stats.binary_files as nat,
    ) + "\nNon-UTF-8 files: "@ + decimal(r.stats.non_utf8_files as nat)
        + "\nUnreadable files: "@ + decimal(r.stats.unreadable_files as nat)
        + "\nSkipped directories: "@ + decimal(r.stats.skipped_directories as nat)
        + "\nTotal lines: "@ + decimal(r.stats.total_lines as nat) + "\nTotal bytes: "@ + decimal(
        r.stats.total_bytes as nat,
    ) + "\n"@
}

/// The text a count prints.
pub fn stats_text(r: &StatsReport) -> (t: String)
    ensures
        t@ == stats_text_of(*r),
{
    let mut t = "Root: ".to_owned();
    t.append(r.root.as_str());
    t.append("\nTotal files: ");
    push_count(&mut t, r.stats.total_files);
    t.append("\nScanned files: ");
    push_count(&mut t, r.stats.scanned_files);
    t.append("\nSkipped files: ");
    push_count(&mut t, r.stats.skipped_files);
    t.append("\nBinary files: ");
    push_count(&mut t, r.stats.binary_files);
    t.append("\nNon-UTF-8 files: ");
    push_count(&mut t, r.stats.non_utf8_files);
    t.append("\nUnreadable files: ");
    push_count(&mut t, r.stats.unreadable_files);
    t.append("\nSkipped directories: ");
    push_count(&mut t, r.stats.skipped_directories);
    t.append("\nTotal lines: ");
    push_count(&mut t, r.stats.total_lines);
    t.append("\nTotal bytes: ");
    push_decimal(&mut t, r.stats.total_bytes);
    t.append("\n");
    assert(t@ =~= stats_text_of(*r));
    t
}

/// Appends `prefix`, the warning and a line feed for each warning.
pub fn push_warnings(s: &mut String, errors: &Vec<String>, prefix: &str)
    ensures
        final(s)@ == old(s)@ + joined(errors@, |e: String| prefix@ + e@ + "\n"@),
{
    let ghost f = |e: String| prefix@ + e@ + "\n"@;
    let ghost s0 = s@;
    let mut i: usize = 0;
    while i < errors.len()
        invariant
            i <= errors.len(),
            f == (|e: String| prefix@ + e@ + "\n"@),
            s@ == s0 + joined(errors@.take(i as int), f),
        decreases errors.len() - i,
    {
        let ghost before = s@;
        s.append(prefix);
        s.append(errors[i].as_str());
        s.append("\n");
        proof {
            lemma_joined_take(errors@, f, i as int);
            assert(s@ =~= before + f(errors@[i as int]));
        }
        i += 1;
    }
    proof {
        lemma_joined_all(errors@, f);
    }
}

/// The text of the warnings a command prints to standard error.
pub fn warnings_text(errors: &Vec<String>) -> (t: String)
    ensures
        t@ == joined(errors@, |e: String| "Warning: "@ + e@ + "\n"@),
{
    let mut t = String::new();
    push_warnings(&mut t, errors, "Warning: ");
    t
}


/// `text` ends with `tail`.
pub open spec fn ends_with(text: Seq<char>, tail: Seq<char>) -> bool {
    tail.len() <= text.len() && text.subrange(text.len() - tail.len(), text.len() as int) == tail
}

/// A text made of `a`, `b` and `c` holds `b`.
pub proof fn lemma_contains_middle(a: Seq<char>, b: Seq<char>, c: Seq<char>)
    ensures
        contains(a + b + c, b),
{
    assert((a + b + c).subrange(a.len() as int, (a.len() + b.len()) as int) =~= b);
    assert(occurs_at(a + b + c, a.len() as int, b));
}

/// A text made of `a` and then `b` ends with `b`.
pub proof fn lemma_ends_with_last(a: Seq<char>, b: Seq<char>)
    ensures
        ends_with(a + b, b),
{
    assert((a + b).subrange((a + b).len() - b.len(), (a + b).len() as int) =~= b);
}

/// The last line a search prints gives each count after its own label: the
/// matches, the scanned files, the skipped files and the skipped
/// directories of the report.
pub proof fn lemma_search_text_shows_counts(r: SearchReport)
    ensures
        ends_with(
            search_text_of(r),
            "\nMatches: "@ + decimal(r.summary.matches as nat) + " | Scanned files: "@ + decimal(
                r.summary.scanned_files as nat,
            ) + " | Skipped files: "@ + decimal(r.summary.skipped_files as nat)
                + " | Skipped directories: "@ + decimal(r.summary.skipped_directories as nat)
                + "\n"@,
        ),
{
    let tail = "\nMatches: "@ + decimal(r.summary.matches as nat) + " | Scanned files: "@
        + decimal(r.summary.scanned_files as nat) + " | Skipped files: "@ + decimal(
        r.summary.skipped_files as nat,
    ) + " | Skipped directories: "@ + decimal(r.summary.skipped_directories as nat) + "\n"@;
    let head = joined(r.matches@, |m: SearchMatch| match_line(m));
    assert(search_text_of(r) =~= head + tail);
    lemma_ends_with_last(head, tail);
}

/// A search prints every match as `path:line: text` on a line of its own.
pub proof fn lemma_search_text_shows_matches(r: SearchReport, k: int)
    requires
        0 <= k < r.matches.len(),
    ensures
        contains(
            search_text_of(r),
            r.matches@[k].path@ + ":"@ + decimal(r.matches@[k].line_number as nat) + ": "@
                + r.matches@[k].line@ + "\n"@,
        ),
{
    let f = |m: SearchMatch| match_line(m);
    lemma_joined_at(r.matches@, f, k);
    let a = joined(r.matches@.take(k), f);
    let b = f(r.matches@[k]);
    let c = joined(r.matches@.skip(k + 1), f) + (search_text_of(r).skip(joined(r.matches@, f).len() as int));
    assert(search_text_of(r) =~= a + b + c);
    lemma_contains_middle(a, b, c);
}

/// The last line a replacement prints gives each count after its own
/// label: the changed files, the changed lines, the replacements, the
/// backups and the failed files of the report.
pub proof fn lemma_replace_text_shows_counts(r: ReplaceReport)
    ensures
        ends_with(
            replace_text_of(r),
            "\nChanged files: "@ + decimal(r.summary.changed_files as nat) + " | Changed lines: "@
                + decimal(r.summary.changed_lines as nat) + " | Replacements: "@ + decimal(
                r.summary.replacements as nat,
            ) + " | Backups: "@ + decimal(r.summary.backups_created as nat) + " | Failed files: "@
                + decimal(r.summary.failed_files as nat) + "\n"@,
        ),
{
    let tail = "\nChanged files: "@ + decimal(r.summary.changed_files as nat) + " | Changed lines: "@
        + decimal(r.summary.changed_lines as nat) + " | Replacements: "@ + decimal(
        r.summary.replacements as nat,
    ) + " | Backups: "@ + decimal(r.summary.backups_created as nat) + " | Failed files: "@
        + decimal(r.summary.failed_files as nat) + "\n"@;
    let head = joined(
        r.changes@,
        |c: ReplacementChange| change_block(c, replace_mode(r.dry_run), " replacement(s)"@, "\n"@),
    );
    assert(replace_text_of(r) =~= head + tail);
    lemma_ends_with_last(head, tail);
}

/// A replacement prints every change as a block headed `[DRY-RUN]` in a dry
/// run and `[CHANGED]` otherwise, with its place and count, then the old
/// and the new line.
pub proof fn lemma_replace_text_shows_changes(r: ReplaceReport, k: int)
    requires
        0 <= k < r.changes.len(),
    ensures
        contains(
            replace_text_of(r),
            "["@ + (if r.dry_run {
                "DRY-RUN"@
            } else {
                "CHANGED"@
            }) + "] "@ + r.changes@[k].path@ + ":"@ + decimal(r.changes@[k].line_number as nat)
                + " ("@ + decimal(r.changes@[k].replacements as nat) + " replacement(s)"@ + ")\n- "@
                + r.changes@[k].old_line@ + "\n+ "@ + r.changes@[k].new_line@ + "\n"@,
        ),
{
    let f = |c: ReplacementChange| change_block(c, replace_mode(r.dry_run), " replacement(s)"@, "\n"@);
    lemma_joined_at(r.changes@, f, k);
    let t = replace_text_of(r);
    let a = joined(r.changes@.take(k), f);
    let ch = r.changes@[k];
    let b = f(ch);
    assert(b == "["@ + (if r.dry_run {
        "DRY-RUN"@
    } else {
        "CHANGED"@
    }) + "] "@ + ch.path@ + ":"@ + decimal(ch.line_number as nat) + " ("@ + decimal(
        ch.replacements as nat,
    ) + " replacement(s)"@ + ")\n- "@ + ch.old_line@ + "\n+ "@ + ch.new_line@ + "\n"@);
    let c = joined(r.changes@.skip(k + 1), f) + t.skip(joined(r.changes@, f).len() as int);
    assert(t =~= a + b + c);
    lemma_contains_middle(a, b, c);
}

/// A count prints its root and then each figure on a line of its own, after
/// its own label, in this order: total, scanned, skipped, binary, not
/// UTF-8 and unreadable files, skipped directories, lines and bytes.
pub proof fn lemma_stats_text_shows_counts(r: StatsReport)
    ensures
        stats_text_of(r) == "Root: "@ + r.root@ + "\nTotal files: "@ + decimal(
            r.stats.total_files as nat,
        ) + "\nScanned files: "@ + decimal(r.stats.scanned_files as nat) + "\nSkipped files: "@
            + decimal(r.stats.skipped_files as nat) + "\nBinary files: "@ + decimal(
            r.stats.binary_files as nat,
        ) + "\nNon-UTF-8 files: "@ + decimal(r.stats.non_utf8_files as nat)
            + "\nUnreadable files: "@ + decimal(r.stats.unreadable_files as nat)
            + "\nSkipped directories: "@ + decimal(r.stats.skipped_directories as nat)
            + "\nTotal lines: "@ + decimal(r.stats.total_lines as nat) + "\nTotal bytes: "@
            + decimal(r.stats.total_bytes as nat) + "\n"@,
        ends_with(
            stats_text_of(r),
            "\nTotal lines: "@ + decimal(r.stats.total_lines as nat) + "\nTotal bytes: "@ + decimal(
                r.stats.total_bytes as nat,
            ) + "\n"@,
        ),
{
    let t = stats_text_of(r);
    let tail = "\nTotal lines: "@ + decimal(r.stats.total_lines as nat) + "\nTotal bytes: "@
        + decimal(r.stats.total_bytes as nat) + "\n"@;
    assert(t.subrange(t.len() - tail.len(), t.len() as int) =~= tail);
}

} // verus!
