//! Counting the files, lines and bytes of a tree.
use vstd::prelude::*;
use crate::files::{
    count_kind, lemma_count_kind_push, lemma_scan_counts_partition, read_error, read_error_of,
    read_error_messages, skip_kind, views, SkipReason,
};
use vstd::utf8::encode_utf8;
use crate::text::{chars_of, lines, segment_ranges, segments};

verus! {

/// Where to count.
#[derive(Debug)]
pub struct StatsOptions {
    pub path: String,
}

/// The counts of a tree.
#[derive(Debug)]
pub struct StatsSummary {
    pub total_files: usize,
    pub scanned_files: usize,
    pub skipped_files: usize,
    pub binary_files: usize,
    pub non_utf8_files: usize,
    pub unreadable_files: usize,
    pub skipped_directories: usize,
    pub total_lines: usize,
    pub total_bytes: u64,
}

impl Default for StatsSummary {
    fn default() -> (s: Self)
        ensures
            s.total_files == 0 && s.scanned_files == 0 && s.skipped_files == 0 && s.binary_files
                == 0 && s.non_utf8_files == 0 && s.unreadable_files == 0 && s.skipped_directories
                == 0 && s.total_lines == 0 && s.total_bytes == 0,
    {
        StatsSummary {
            total_files: 0,
            scanned_files: 0,
            skipped_files: 0,
            binary_files: 0,
            non_utf8_files: 0,
            unreadable_files: 0,
            skipped_directories: 0,
            total_lines: 0,
            total_bytes: 0,
        }
    }
}

/// The report of a count.
#[derive(Debug)]
pub struct StatsReport {
    pub command: String,
    pub root: String,
    pub stats: StatsSummary,
    pub errors: Vec<String>,
}

/// What counting one file gave.
#[derive(Debug)]
pub struct FileStats {
    pub path: String,
    pub line_count: usize,
    pub byte_count: u64,
    pub skip_reason: Option<SkipReason>,
}

/// The length in bytes of the UTF-8 encoding of a text, as `str::len`
/// reports it.
pub open spec fn utf8_len(s: Seq<char>) -> usize {
    encode_utf8(s).len() as usize
}

/// Counts one file, given what reading it gave: its lines and its size in
/// bytes (UTF-8).
pub fn stats_for_file(path: &str, read: Result<String, SkipReason>) -> (r: FileStats)
    ensures
        r.path@ == path@,
        match read {
            Ok(content) => r.skip_reason is None && r.line_count == lines(content@).len()
                && r.byte_count == utf8_len(content@),
            Err(reason) => r.skip_reason == Some(reason) && r.line_count == 0 && r.byte_count == 0,
        },
{
    match read {
        Ok(content) => {
            let v = chars_of(content.as_str());
            let ranges = segment_ranges(&v);
            let n = content.as_str().len();
            assert(lines(v@).len() == segments(v@).len());
            FileStats {
                path: path.to_owned(),
                line_count: ranges.len(),
                byte_count: n as u64,
                skip_reason: None,
            }
        },
        Err(reason) => FileStats {
            path: path.to_owned(),
            line_count: 0,
            byte_count: 0,
            skip_reason: Some(reason),
        },
    }
}


/// The skip reasons of the outcomes, in order.
pub open spec fn stats_reasons(rs: Seq<FileStats>) -> Seq<Option<SkipReason>> {
    rs.map_values(|r: FileStats| r.skip_reason)
}

/// The paths of the outcomes, in order.
pub open spec fn stats_paths(rs: Seq<FileStats>) -> Seq<Seq<char>> {
    rs.map_values(|r: FileStats| r.path@)
}

/// The lines of the scanned files, summed.
pub open spec fn sum_lines(rs: Seq<FileStats>) -> nat
    decreases rs.len(),
{
    if rs.len() == 0 {
        0
    } else {
        sum_lines(rs.drop_last()) + if rs.last().skip_reason is None {
            rs.last().line_count as nat
        } else {
            0nat
        }
    }
}

/// The bytes of the scanned files, summed.
pub open spec fn sum_bytes(rs: Seq<FileStats>) -> nat
    decreases rs.len(),
{
    if rs.len() == 0 {
        0
    } else {
        sum_bytes(rs.drop_last()) + if rs.last().skip_reason is None {
            rs.last().byte_count as nat
        } else {
            0nat
        }
    }
}

proof fn lemma_sums_prefix(rs: Seq<FileStats>, k: int)
    requires
        0 <= k <= rs.len(),
    ensures
        sum_lines(rs.take(k)) <= sum_lines(rs),
        sum_bytes(rs.take(k)) <= sum_bytes(rs),
    decreases rs.len() - k,
{
    if k < rs.len() {
        assert(rs.take(k + 1).drop_last() =~= rs.take(k));
        lemma_sums_prefix(rs, k + 1);
    } else {
        assert(rs.take(k) =~= rs);
    }
}

/// Puts the outcomes of the files of a count together into its report:
/// the counts of each kind of file, the lines and bytes of the scanned
/// ones, and the warnings of the walk followed by one for each unreadable
/// file.
pub fn summarize_stats(
    options: &StatsOptions,
    results: Vec<FileStats>,
    skipped_directories: usize,
    errors: Vec<String>,
) -> (r: StatsReport)
    requires
        sum_lines(results@) <= usize::MAX,
        sum_bytes(results@) <= u64::MAX,
    ensures
        r.command@ == "stats"@,
        r.root@ == options.path@,
        r.stats.total_files == results.len(),
        r.stats.scanned_files == count_kind(stats_reasons(results@), 0),
        r.stats.binary_files == count_kind(stats_reasons(results@), 1),
        r.stats.non_utf8_files == count_kind(stats_reasons(results@), 2),
        r.stats.unreadable_files == count_kind(stats_reasons(results@), 3),
        r.stats.skipped_files == r.stats.binary_files + r.stats.non_utf8_files
            + r.stats.unreadable_files,
        r.stats.scanned_files + r.stats.skipped_files == r.stats.total_files,
        r.stats.skipped_directories == skipped_directories,
        r.stats.total_lines == sum_lines(results@),
        r.stats.total_bytes == sum_bytes(results@),
        views(r.errors@) == views(errors@) + read_error_messages(
            stats_paths(results@),
            stats_reasons(results@),
        ),
{
    let ghost rs = results@;
    let ghost reasons = stats_reasons(rs);
    let ghost paths = stats_paths(rs);
    let total = results.len();
    let mut stats = StatsSummary::default();
    stats.total_files = total;
    stats.skipped_directories = skipped_directories;
    let mut errors = errors;
    let ghost errors0 = views(errors@);
    for result in it: results
        invariant
            it.seq() == rs,
            rs.len() == total,
            reasons == stats_reasons(rs),
            paths == stats_paths(rs),
            sum_lines(rs) <= usize::MAX,
            sum_bytes(rs) <= u64::MAX,
            stats.total_files == total,
            stats.skipped_directories == skipped_directories,
            stats.scanned_files == count_kind(reasons.take(it.index() as int), 0),
            stats.binary_files == count_kind(reasons.take(it.index() as int), 1),
            stats.non_utf8_files == count_kind(reasons.take(it.index() as int), 2),
            stats.unreadable_files == count_kind(reasons.take(it.index() as int), 3),
            stats.skipped_files == stats.binary_files + stats.non_utf8_files
                + stats.unreadable_files,
            stats.total_lines == sum_lines(rs.take(it.index() as int)),
            stats.total_bytes == sum_bytes(rs.take(it.index() as int)),
            views(errors@) == errors0 + read_error_messages(
                paths.take(it.index() as int),
                reasons.take(it.index() as int),
            ),
    {
        let ghost i = it.index() as int;
        proof {
            lemma_count_kind_push(reasons, i, 0);
            lemma_count_kind_push(reasons, i, 1);
            lemma_count_kind_push(reasons, i, 2);
            lemma_count_kind_push(reasons, i, 3);
            lemma_scan_counts_partition(reasons.take(i));
            assert(rs.take(i + 1).drop_last() =~= rs.take(i));
            assert(reasons.take(i + 1).drop_last() =~= reasons.take(i));
            assert(paths.take(i + 1).drop_last() =~= paths.take(i));
            assert(reasons[i] == result.skip_reason);
            assert(paths[i] == result.path@);
            assert(rs.take(i + 1).last() == result);
            lemma_sums_prefix(rs, i + 1);
        }
        let ghost errors_before = views(errors@);
        let FileStats { path, line_count, byte_count, skip_reason } = result;
        match skip_reason {
            None => {
                stats.scanned_files += 1;
                stats.total_lines += line_count;
                stats.total_bytes += byte_count;
            },
            Some(SkipReason::Binary) => {
                stats.skipped_files += 1;
                stats.binary_files += 1;
            },
            Some(SkipReason::NonUtf8) => {
                stats.skipped_files += 1;
                stats.non_utf8_files += 1;
            },
            Some(SkipReason::Unreadable(message)) => {
                stats.skipped_files += 1;
                stats.unreadable_files += 1;
                let e = read_error(path.as_str(), message.as_str());
                errors.push(e);
                assert(views(errors@) =~= errors_before.push(e@));
            },
        }
        proof {
            assert(views(errors@) =~= errors_before + read_error_of(paths[i], reasons[i]));
        }
    }
    proof {
        assert(rs.take(rs.len() as int) =~= rs);
        assert(reasons.take(rs.len() as int) =~= reasons);
        assert(paths.take(rs.len() as int) =~= paths);
        lemma_scan_counts_partition(reasons);
    }
    StatsReport { command: "stats".to_owned(), root: options.path.clone(), stats, errors }
}

} // verus!
