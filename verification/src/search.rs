//! Searching the lines of text files.
use vstd::prelude::*;
use crate::files::{
    count_kind, lemma_count_kind_push, lemma_scan_counts_partition, read_error, read_error_messages,
    views, SkipReason,
};
use crate::matcher::{is_match, Matcher};
use crate::text::{chars_of, line_end, lines, segment_ranges, segments, string_of, strip_ending};

verus! {

/// What to search for, and where.
#[derive(Debug)]
pub struct SearchOptions {
    pub pattern: String,
    pub path: String,
    pub ignore_case: bool,
    pub regex: bool,
}

/// One matching line.
#[derive(Debug, PartialEq, Eq)]
pub struct SearchMatch {
    pub path: String,
    /// The 1-based number of the line.
    pub line_number: usize,
    /// The line, without its terminator.
    pub line: String,
}

/// The counts of a search.
#[derive(Debug)]
pub struct SearchSummary {
    pub total_files: usize,
    pub scanned_files: usize,
    pub skipped_files: usize,
    pub binary_files: usize,
    pub non_utf8_files: usize,
    pub unreadable_files: usize,
    pub skipped_directories: usize,
    pub matches: usize,
}

impl Default for SearchSummary {
    fn default() -> (s: Self)
        ensures
            s.total_files == 0 && s.scanned_files == 0 && s.skipped_files == 0 && s.binary_files
                == 0 && s.non_utf8_files == 0 && s.unreadable_files == 0 && s.skipped_directories
                == 0 && s.matches == 0,
    {
        SearchSummary {
            total_files: 0,
            scanned_files: 0,
            skipped_files: 0,
            binary_files: 0,
            non_utf8_files: 0,
            unreadable_files: 0,
            skipped_directories: 0,
            matches: 0,
        }
    }
}

/// The report of a search.
#[derive(Debug)]
pub struct SearchReport {
    pub command: String,
    pub pattern: String,
    pub root: String,
    pub ignore_case: bool,
    pub regex: bool,
    pub matches: Vec<SearchMatch>,
    pub summary: SearchSummary,
    pub errors: Vec<String>,
}

/// What searching one file gave.
#[derive(Debug)]
pub struct FileSearchResult {
    pub path: String,
    pub matches: Vec<SearchMatch>,
    pub skip_reason: Option<SkipReason>,
}

/// The accepted lines of a text, each with its 1-based number, in order.
pub open spec fn matching_lines(ls: Seq<Seq<char>>, m: Matcher) -> Seq<(int, Seq<char>)>
    decreases ls.len(),
{
    if ls.len() == 0 {
        Seq::empty()
    } else {
        let prev = matching_lines(ls.drop_last(), m);
        if m.accepts(ls.last()) {
            prev.push((ls.len() as int, ls.last()))
        } else {
            prev
        }
    }
}

/// The matches `ms` are the numbered lines `ml`, all in the file `path`.
pub open spec fn matches_are(ms: Seq<SearchMatch>, path: Seq<char>, ml: Seq<(int, Seq<char>)>) -> bool {
    &&& ms.len() == ml.len()
    &&& forall|k: int|
        0 <= k < ms.len() ==> {
            &&& (#[trigger] ms[k]).path@ == path
            &&& ms[k].line_number == ml[k].0
            &&& ms[k].line@ == ml[k].1
        }
}

/// Searches one file, given what reading it gave: the matches are the lines
/// the matcher accepts, in order, with their numbers.
pub fn search_file(path: &str, read: Result<String, SkipReason>, matcher: &Matcher) -> (r:
    FileSearchResult)
    ensures
        r.path@ == path@,
        match read {
            Ok(content) => r.skip_reason is None && matches_are(
                r.matches@,
                path@,
                matching_lines(lines(content@), *matcher),
            ),
            Err(reason) => r.skip_reason == Some(reason) && r.matches.len() == 0,
        },
{
    let content = match read {
        Ok(content) => content,
        Err(reason) => {
            return FileSearchResult { path: path.to_owned(), matches: Vec::new(), skip_reason: Some(reason) };
        },
    };
    let v = chars_of(content.as_str());
    let ranges = segment_ranges(&v);
    let ghost ls = lines(v@);
    let mut matches: Vec<SearchMatch> = Vec::new();
    let mut k: usize = 0;
    while k < ranges.len()
        invariant
            v@ == content@,
            ls == lines(v@),
            ranges.len() == segments(v@).len(),
            forall|j: int|
                0 <= j < ranges.len() ==> {
                    &&& (#[trigger] ranges[j]).0 <= ranges[j].1 <= v.len()
                    &&& v@.subrange(ranges[j].0 as int, ranges[j].1 as int) == segments(v@)[j]
                },
            k <= ranges.len(),
            matches_are(matches@, path@, matching_lines(ls.take(k as int), *matcher)),
        decreases ranges.len() - k,
    {
        let (a, b) = ranges[k];
        let e = line_end(&v, a, b);
        let line = string_of(&v, a, e);
        proof {
            assert(ls.take(k + 1).drop_last() =~= ls.take(k as int));
            assert(ls[k as int] == strip_ending(segments(v@)[k as int]));
            assert(ls.take(k + 1).last() == line@);
            assert(ls.take(k + 1).len() == k + 1);
        }
        if is_match(matcher, line.as_str()) {
            matches.push(SearchMatch { path: path.to_owned(), line_number: k + 1, line });
        }
        k += 1;
    }
    assert(ls.take(ranges.len() as int) =~= ls);
    FileSearchResult { path: path.to_owned(), matches, skip_reason: None }
}


/// The skip reasons of the outcomes, in order.
pub open spec fn search_reasons(rs: Seq<FileSearchResult>) -> Seq<Option<SkipReason>> {
    rs.map_values(|r: FileSearchResult| r.skip_reason)
}

/// The paths of the outcomes, in order.
pub open spec fn search_paths(rs: Seq<FileSearchResult>) -> Seq<Seq<char>> {
    rs.map_values(|r: FileSearchResult| r.path@)
}

/// The matches of the scanned files, file after file.
pub open spec fn all_matches(rs: Seq<FileSearchResult>) -> Seq<SearchMatch>
    decreases rs.len(),
{
    if rs.len() == 0 {
        Seq::empty()
    } else {
        all_matches(rs.drop_last()) + if rs.last().skip_reason is None {
            rs.last().matches@
        } else {
            Seq::empty()
        }
    }
}

/// Puts the outcomes of the files of a search together into its report:
/// the matches of the scanned files in order, the counts of each kind of
/// file, and the warnings of the walk followed by one for each unreadable
/// file.
pub fn summarize_search(
    options: &SearchOptions,
    results: Vec<FileSearchResult>,
    skipped_directories: usize,
    errors: Vec<String>,
) -> (r: SearchReport)
    ensures
        r.command@ == "search"@,
        r.pattern@ == options.pattern@,
        r.root@ == options.path@,
        r.ignore_case == options.ignore_case,
        r.regex == options.regex,
        r.matches@ == all_matches(results@),
        r.summary.total_files == results.len(),
        r.summary.scanned_files == count_kind(search_reasons(results@), 0),
        r.summary.binary_files == count_kind(search_reasons(results@), 1),
        r.summary.non_utf8_files == count_kind(search_reasons(results@), 2),
        r.summary.unreadable_files == count_kind(search_reasons(results@), 3),
        r.summary.skipped_files == r.summary.binary_files + r.summary.non_utf8_files
            + r.summary.unreadable_files,
        r.summary.scanned_files + r.summary.skipped_files == r.summary.total_files,
        r.summary.skipped_directories == skipped_directories,
        r.summary.matches == r.matches.len(),
        views(r.errors@) == views(errors@) + read_error_messages(
            search_paths(results@),
            search_reasons(results@),
        ),
{
    let ghost rs = results@;
    let ghost reasons = search_reasons(rs);
    let ghost paths = search_paths(rs);
    let total = results.len();
    let mut summary = SearchSummary::default();
    summary.total_files = total;
    summary.skipped_directories = skipped_directories;
    let mut matches: Vec<SearchMatch> = Vec::new();
    let mut errors = errors;
    let ghost errors0 = views(errors@);
    for result in it: results
        invariant
            it.seq() == rs,
            rs.len() == total,
            reasons == search_reasons(rs),
            paths == search_paths(rs),
            summary.total_files == total,
            summary.skipped_directories == skipped_directories,
            summary.matches == 0,
            summary.scanned_files == count_kind(reasons.take(it.index() as int), 0),
            summary.binary_files == count_kind(reasons.take(it.index() as int), 1),
            summary.non_utf8_files == count_kind(reasons.take(it.index() as int), 2),
            summary.unreadable_files == count_kind(reasons.take(it.index() as int), 3),
            summary.skipped_files == summary.binary_files + summary.non_utf8_files
                + summary.unreadable_files,
            matches@ == all_matches(rs.take(it.index() as int)),
            views(errors@) == errors0 + read_error_messages(
                paths.take(it.index() as int),
                reasons.take(it.index() as int),
            ),
    {
        let ghost i = it.index() as int;
        proof {
            lemma_count_kind_push(reasons, i, 0);
            lemma_count_kind_push(reasons, i, 1);
            lemma_count_kind_push(reasons, i, 2);
            lemma_count_kind_push(reasons, i, 3);
            lemma_scan_counts_partition(reasons.take(i));
            assert(rs.take(i + 1).drop_last() =~= rs.take(i));
            assert(reasons.take(i + 1).drop_last() =~= reasons.take(i));
            assert(paths.take(i + 1).drop_last() =~= paths.take(i));
            assert(reasons[i] == result.skip_reason);
            assert(paths[i] == result.path@);
        }
        let FileSearchResult { path, matches: mut file_matches, skip_reason } = result;
        match skip_reason {
            None => {
                summary.scanned_files += 1;
                matches.append(&mut file_matches);
            },
            Some(SkipReason::Binary) => {
                summary.skipped_files += 1;
                summary.binary_files += 1;
            },
            Some(SkipReason::NonUtf8) => {
                summary.skipped_files += 1;
                summary.non_utf8_files += 1;
            },
            Some(SkipReason::Unreadable(message)) => {
                summary.skipped_files += 1;
                summary.unreadable_files += 1;
                let e = read_error(path.as_str(), message.as_str());
                let ghost before = errors@;
                errors.push(e);
                assert(views(errors@) =~= views(before).push(e@));
            },
        }
    }
    proof {
        assert(rs.take(rs.len() as int) =~= rs);
        assert(reasons.take(rs.len() as int) =~= reasons);
        assert(paths.take(rs.len() as int) =~= paths);
        lemma_scan_counts_partition(reasons);
    }
    summary.matches = matches.len();
    SearchReport {
        command: "search".to_owned(),
        pattern: options.pattern.clone(),
        root: options.path.clone(),
        ignore_case: options.ignore_case,
        regex: options.regex,
        matches,
        summary,
        errors,
    }
}


/// The numbered lines of a search are exactly the accepted lines, each with
/// its own 1-based number, in increasing order.
pub proof fn lemma_matching_lines_exact(ls: Seq<Seq<char>>, m: Matcher)
    ensures
        ({
            let ml = matching_lines(ls, m);
            &&& forall|k: int|
                0 <= k < ml.len() ==> 1 <= (#[trigger] ml[k]).0 <= ls.len() && ml[k].1 == ls[ml[k].0
                    - 1] && m.accepts(ml[k].1)
            &&& forall|k: int, j: int| 0 <= k < j < ml.len() ==> (#[trigger] ml[k]).0 < (
            #[trigger] ml[j]).0
            &&& forall|i: int|
                0 <= i < ls.len() && m.accepts(#[trigger] ls[i]) ==> exists|k: int|
                    0 <= k < ml.len() && (#[trigger] ml[k]).0 == i + 1
        }),
    decreases ls.len(),
{
    if ls.len() > 0 {
        let prev = ls.drop_last();
        lemma_matching_lines_exact(prev, m);
        let pm = matching_lines(prev, m);
        let ml = matching_lines(ls, m);
        assert forall|k: int| 0 <= k < pm.len() implies 1 <= (#[trigger] pm[k]).0 <= prev.len()
            && pm[k].1 == ls[pm[k].0 - 1] by {
            assert(prev[pm[k].0 - 1] == ls[pm[k].0 - 1]);
        }
        assert forall|i: int| 0 <= i < ls.len() && m.accepts(#[trigger] ls[i]) implies exists|k: int|
            0 <= k < ml.len() && (#[trigger] ml[k]).0 == i + 1 by {
            if i < prev.len() {
                assert(prev[i] == ls[i]);
                let k = choose|k: int| 0 <= k < pm.len() && (#[trigger] pm[k]).0 == i + 1;
                assert(ml[k] == pm[k]);
            } else {
                assert(ml[ml.len() - 1].0 == i + 1);
            }
        }
    }
}

/// A literal, case-sensitive search reports exactly the lines that contain
/// the pattern, each with its own number, in increasing order.
pub proof fn lemma_literal_search_exact(ls: Seq<Seq<char>>, m: Matcher, pattern: Seq<char>)
    requires
        forall|line: Seq<char>| #[trigger] m.accepts(line) == crate::literal::contains(line, pattern),
    ensures
        ({
            let ml = matching_lines(ls, m);
            &&& forall|k: int|
                0 <= k < ml.len() ==> 1 <= (#[trigger] ml[k]).0 <= ls.len() && ml[k].1 == ls[ml[k].0
                    - 1] && crate::literal::contains(ml[k].1, pattern)
            &&& forall|k: int, j: int| 0 <= k < j < ml.len() ==> (#[trigger] ml[k]).0 < (
            #[trigger] ml[j]).0
            &&& forall|i: int|
                0 <= i < ls.len() && crate::literal::contains(#[trigger] ls[i], pattern) ==> exists|k: int|
                    0 <= k < ml.len() && (#[trigger] ml[k]).0 == i + 1
        }),
{
    lemma_matching_lines_exact(ls, m);
    let ml = matching_lines(ls, m);
    assert forall|k: int| 0 <= k < ml.len() implies crate::literal::contains(
        (#[trigger] ml[k]).1,
        pattern,
    ) by {
        assert(m.accepts(ml[k].1));
    }
    assert forall|i: int|
        0 <= i < ls.len() && crate::literal::contains(#[trigger] ls[i], pattern) implies exists|k: int|
        0 <= k < ml.len() && (#[trigger] ml[k]).0 == i + 1 by {
        assert(m.accepts(ls[i]));
    }
}


/// A matcher that accepts every line another accepts (as a case-insensitive
/// matcher does, if the engine folds case so) finds every numbered line the
/// other finds, and so at least as many.
pub proof fn lemma_wider_matcher_finds_more(ls: Seq<Seq<char>>, m1: Matcher, m2: Matcher)
    requires
        forall|line: Seq<char>| #[trigger] m1.accepts(line) ==> m2.accepts(line),
    ensures
        matching_lines(ls, m1).len() <= matching_lines(ls, m2).len(),
        forall|k: int|
            0 <= k < matching_lines(ls, m1).len() ==> matching_lines(ls, m2).contains(
                #[trigger] matching_lines(ls, m1)[k],
            ),
    decreases ls.len(),
{
    if ls.len() > 0 {
        let prev = ls.drop_last();
        lemma_wider_matcher_finds_more(prev, m1, m2);
        let (p1, p2) = (matching_lines(prev, m1), matching_lines(prev, m2));
        let (a1, a2) = (matching_lines(ls, m1), matching_lines(ls, m2));
        assert(m1.accepts(ls.last()) ==> m2.accepts(ls.last()));
        assert forall|k: int| 0 <= k < a1.len() implies a2.contains(#[trigger] a1[k]) by {
            if k < p1.len() {
                assert(a1[k] == p1[k]);
                assert(p2.contains(p1[k]));
                let j = choose|j: int| 0 <= j < p2.len() && p2[j] == p1[k];
                assert(a2[j] == p2[j]);
            } else {
                assert(a2[a2.len() - 1] == a1[k]);
            }
        }
    }
}

/// Two searches over the same reads of the same files (say, one that folds
/// case and one that does not) agree on every count of their reports but
/// the matches, and on their warnings; where each file's matches of the
/// first are no more than those of the second, so are all of them.
pub proof fn lemma_searches_over_the_same_reads(r1: Seq<FileSearchResult>, r2: Seq<FileSearchResult>)
    requires
        r1.len() == r2.len(),
        search_reasons(r1) == search_reasons(r2),
        search_paths(r1) == search_paths(r2),
        forall|k: int| 0 <= k < r1.len() ==> (#[trigger] r1[k]).matches.len() <= r2[k].matches.len(),
    ensures
        forall|kind: nat| count_kind(search_reasons(r1), kind) == count_kind(search_reasons(r2), kind),
        read_error_messages(search_paths(r1), search_reasons(r1)) == read_error_messages(
            search_paths(r2),
            search_reasons(r2),
        ),
        all_matches(r1).len() <= all_matches(r2).len(),
    decreases r1.len(),
{
    if r1.len() > 0 {
        let (p1, p2) = (r1.drop_last(), r2.drop_last());
        assert(search_reasons(p1) =~= search_reasons(r1).drop_last());
        assert(search_reasons(p2) =~= search_reasons(r2).drop_last());
        assert(search_paths(p1) =~= search_paths(r1).drop_last());
        assert(search_paths(p2) =~= search_paths(r2).drop_last());
        assert forall|k: int| 0 <= k < p1.len() implies (#[trigger] p1[k]).matches.len()
            <= p2[k].matches.len() by {
            assert(p1[k] == r1[k] && p2[k] == r2[k]);
        }
        lemma_searches_over_the_same_reads(p1, p2);
        let n = r1.len() - 1;
        assert(search_reasons(r1)[n] == search_reasons(r2)[n]);
        assert(r1.last() == r1[n] && r2.last() == r2[n]);
        assert(r1[n].matches.len() <= r2[n].matches.len());
    }
}

} // verus!
