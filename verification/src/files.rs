//! What is decided about the files of a scan: which directories are left
//! out, how the bytes of a file are taken as text, and where a backup goes.
use vstd::prelude::*;
use vstd::utf8::{decode_utf8, valid_utf8};
use crate::text::{chars_of, eq_ignore_ascii_case, eq_ignore_ascii_case_exec};
use crate::order::{sort_files, sorted_files};

verus! {

/// Why a file was not scanned.
#[derive(Debug)]
pub enum SkipReason {
    /// The file holds a NUL byte.
    Binary,
    /// The file is not valid UTF-8.
    NonUtf8,
    /// The file could not be read; the message says why.
    Unreadable(String),
}

/// Decodes bytes as UTF-8 with `String::from_utf8`, dropping the error.
/// Claims that decoding succeeds exactly on valid UTF-8 and then yields the
/// characters that the bytes encode.
#[verifier::external_body]
fn utf8_string(bytes: Vec<u8>) -> (r: Option<String>)
    ensures
        r is Some <==> valid_utf8(bytes@),
        r matches Some(s) ==> s@ == decode_utf8(bytes@),
{
    String::from_utf8(bytes).ok()
}

/// Takes the contents of a file as text: a file with a NUL byte is binary,
/// one that is not valid UTF-8 is skipped, any other is decoded.
pub fn decode_text(bytes: Vec<u8>) -> (r: Result<String, SkipReason>)
    ensures
        bytes@.contains(0u8) ==> r matches Err(SkipReason::Binary),
        !bytes@.contains(0u8) && !valid_utf8(bytes@) ==> r matches Err(SkipReason::NonUtf8),
        !bytes@.contains(0u8) && valid_utf8(bytes@) ==> (r matches Ok(s) && s@ == decode_utf8(
            bytes@,
        )),
{
    let mut i: usize = 0;
    while i < bytes.len()
        invariant
            i <= bytes.len(),
            forall|k: int| 0 <= k < i ==> bytes@[k] != 0u8,
        decreases bytes.len() - i,
    {
        if bytes[i] == 0u8 {
            assert(bytes@.contains(0u8)) by {
                assert(bytes@[i as int] == 0u8);
            }
            return Err(SkipReason::Binary);
        }
        i += 1;
    }
    match utf8_string(bytes) {
        Some(s) => Ok(s),
        None => Err(SkipReason::NonUtf8),
    }
}

/// The path of the backup copy of `path`: the same path with `.bak` added.
pub fn backup_path(path: &str) -> (r: String)
    ensures
        r@ == path@ + ".bak"@,
{
    let mut r = path.to_owned();
    r.append(".bak");
    r
}

/// The names of the directories that a scan never enters.
pub open spec fn excluded_directory_names() -> Seq<Seq<char>> {
    seq![".git"@, "bin"@, "obj"@, "node_modules"@, ".vs"@]
}

/// A directory is left out when its name equals one of the excluded names,
/// ASCII letters compared without case; files are never left out.
pub open spec fn is_excluded(is_dir: bool, name: Seq<char>) -> bool {
    is_dir && exists|k: int|
        0 <= k < excluded_directory_names().len() && eq_ignore_ascii_case(
            name,
            #[trigger] excluded_directory_names()[k],
        )
}

/// Whether a scan leaves out the entry with this kind and name.
pub fn is_excluded_directory(is_dir: bool, name: &str) -> (r: bool)
    ensures
        r == is_excluded(is_dir, name@),
{
    if !is_dir {
        return false;
    }
    let names = [".git", "bin", "obj", "node_modules", ".vs"];
    let ghost spec_names = excluded_directory_names();
    assert(spec_names[0] == names[0]@);
    assert(spec_names[1] == names[1]@);
    assert(spec_names[2] == names[2]@);
    assert(spec_names[3] == names[3]@);
    assert(spec_names[4] == names[4]@);
    let mut k: usize = 0;
    while k < 5
        invariant
            k <= 5,
            is_dir,
            spec_names == excluded_directory_names(),
            forall|j: int| 0 <= j < 5 ==> spec_names[j] == (#[trigger] names[j])@,
            forall|j: int| 0 <= j < k ==> !eq_ignore_ascii_case(name@, #[trigger] spec_names[j]),
        decreases 5 - k,
    {
        if eq_ignore_ascii_case_exec(name, names[k]) {
            assert(eq_ignore_ascii_case(name@, spec_names[k as int]));
            return true;
        }
        k += 1;
    }
    false
}


/// 0 for a scanned file, 1 for a binary one, 2 for one that is not UTF-8,
/// 3 for one that could not be read.
pub open spec fn skip_kind(s: Option<SkipReason>) -> nat {
    match s {
        None => 0,
        Some(SkipReason::Binary) => 1,
        Some(SkipReason::NonUtf8) => 2,
        Some(SkipReason::Unreadable(_)) => 3,
    }
}

/// How many of the outcomes are of a kind (see `skip_kind`).
pub open spec fn count_kind(rs: Seq<Option<SkipReason>>, kind: nat) -> nat
    decreases rs.len(),
{
    if rs.len() == 0 {
        0
    } else {
        count_kind(rs.drop_last(), kind) + if skip_kind(rs.last()) == kind {
            1nat
        } else {
            0nat
        }
    }
}

/// The warning for a file that could not be read.
pub open spec fn read_error_message(path: Seq<char>, message: Seq<char>) -> Seq<char> {
    "Could not read "@ + path + ": "@ + message
}

/// The warnings for the unreadable files among the outcomes, in order.
pub open spec fn read_error_messages(paths: Seq<Seq<char>>, rs: Seq<Option<SkipReason>>) -> Seq<
    Seq<char>,
>
    decreases rs.len(),
{
    if rs.len() == 0 {
        Seq::empty()
    } else {
        read_error_messages(paths.drop_last(), rs.drop_last()) + read_error_of(
            paths.last(),
            rs.last(),
        )
    }
}

/// The warning, if any, for one outcome: only an unreadable file has one.
pub open spec fn read_error_of(path: Seq<char>, reason: Option<SkipReason>) -> Seq<Seq<char>> {
    match reason {
        Some(SkipReason::Unreadable(m)) => seq![read_error_message(path, m@)],
        _ => Seq::empty(),
    }
}

/// The views of a sequence of strings.
pub open spec fn views(v: Seq<String>) -> Seq<Seq<char>> {
    v.map_values(|s: String| s@)
}

/// The warning for a file that could not be read.
pub fn read_error(path: &str, message: &str) -> (r: String)
    ensures
        r@ == read_error_message(path@, message@),
{
    let mut r = "Could not read ".to_owned();
    r.append(path);
    r.append(": ");
    r.append(message);
    r
}

/// Every file of a scan is counted exactly once: as scanned, binary, not
/// UTF-8, or unreadable.
pub proof fn lemma_scan_counts_partition(rs: Seq<Option<SkipReason>>)
    ensures
        count_kind(rs, 0) + count_kind(rs, 1) + count_kind(rs, 2) + count_kind(rs, 3) == rs.len(),
    decreases rs.len(),
{
    if rs.len() > 0 {
        lemma_scan_counts_partition(rs.drop_last());
    }
}

/// Counts of a prefix grow by the kind of the next outcome.
pub proof fn lemma_count_kind_push(rs: Seq<Option<SkipReason>>, i: int, kind: nat)
    requires
        0 <= i < rs.len(),
    ensures
        count_kind(rs.take(i + 1), kind) == count_kind(rs.take(i), kind) + if skip_kind(rs[i])
            == kind {
            1nat
        } else {
            0nat
        },
        count_kind(rs.take(i), kind) <= i,
{
    assert(rs.take(i + 1).drop_last() =~= rs.take(i));
    lemma_count_kind_bound(rs.take(i), kind);
}

proof fn lemma_count_kind_bound(rs: Seq<Option<SkipReason>>, kind: nat)
    ensures
        count_kind(rs, kind) <= rs.len(),
    decreases rs.len(),
{
    if rs.len() > 0 {
        lemma_count_kind_bound(rs.drop_last(), kind);
    }
}


/// A file found by a walk: its displayed path, the bytes of its path's
/// components (as the platform encodes them), in order, and its position in
/// the walk, by which the walker
/// finds its own record of the file again.
#[derive(Debug)]
pub struct FoundFile {
    pub path: String,
    pub components: Vec<Vec<u8>>,
    pub index: usize,
}

/// The files of a scan, in path order, with what the walk skipped and the
/// warnings it gave.
#[derive(Debug)]
pub struct Discovery {
    pub files: Vec<FoundFile>,
    pub skipped_directories: usize,
    pub errors: Vec<String>,
}

/// The discovery of a root that is a single file: that file alone.
pub fn single_file_discovery(file: FoundFile) -> (d: Discovery)
    ensures
        d.files@ == seq![file],
        d.skipped_directories == 0,
        d.errors.len() == 0,
{
    let mut files = Vec::new();
    files.push(file);
    Discovery { files, skipped_directories: 0, errors: Vec::new() }
}

/// The discovery of a walked directory: the files it found, put in path
/// order, with its count of skipped directories and its warnings.
pub fn finish_discovery(found: Vec<FoundFile>, skipped_directories: usize, errors: Vec<String>) -> (d:
    Discovery)
    ensures
        sorted_files(d.files@),
        d.files@.to_multiset() == found@.to_multiset(),
        d.skipped_directories == skipped_directories,
        d.errors@ == errors@,
{
    let files = sort_files(found);
    Discovery { files, skipped_directories, errors }
}

} // verus!
