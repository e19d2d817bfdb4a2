//! What the graphical front end shows: the state of its running task and
//! the texts of the reports, in Turkish.
use vstd::prelude::*;
use crate::render::{
    change_block, ends_with, joined, lemma_contains_middle, lemma_ends_with_last,
    lemma_joined_at, match_line, push_change_blocks, push_count, push_match_lines, push_warnings,
};
use crate::literal::contains;
use crate::replace::{ReplaceOptions, ReplaceReport, ReplacementChange};
use crate::search::{SearchMatch, SearchOptions, SearchReport};
use crate::stats::{StatsOptions, StatsReport};
use crate::text::{decimal, is_trim_of, push_decimal, trim_text};

verus! {

/// What a finished task hands back to the window.
#[derive(Debug)]
pub struct TaskResult {
    pub title: String,
    pub output: String,
    pub failed: bool,
}

/// `std::sync::mpsc::Receiver`, over which a worker hands back its result.
#[verifier::external_type_specification]
#[verifier::external_body]
#[verifier::reject_recursive_types(T)]
pub struct ExReceiver<T>(std::sync::mpsc::Receiver<T>);

/// `Receiver::try_recv`, dropping the reason when nothing is there: the
/// result, if the worker has sent it. Whether it has depends on timing, so
/// nothing is stated of what comes back.
#[verifier::external_body]
fn try_receive(receiver: &std::sync::mpsc::Receiver<TaskResult>) -> Option<TaskResult> {
    receiver.try_recv().ok()
}

/// The part of the window that follows the running task, with the channel
/// on which the running task will hand back its result.
#[derive(Debug)]
pub struct TaskStatus {
    pub busy: bool,
    pub status: String,
    pub output: String,
    /// Where the running task's result will come from.
    pub receiver: Option<std::sync::mpsc::Receiver<TaskResult>>,
}

impl TaskStatus {
    /// Whether a result is awaited.
    pub open spec fn waiting(&self) -> bool {
        self.receiver is Some
    }

    /// No task, with the given status line and result text.
    pub fn idle(status: String, output: String) -> (t: TaskStatus)
        ensures
            !t.busy,
            !t.waiting(),
            t.status == status,
            t.output == output,
    {
        TaskStatus { busy: false, status, output, receiver: None }
    }

    /// Marks a task as started with the given status line; its result will
    /// come over `receiver`.
    pub fn start_task(&mut self, status: &str, receiver: std::sync::mpsc::Receiver<TaskResult>)
        ensures
            final(self).busy,
            final(self).waiting(),
            final(self).status@ == status@,
            final(self).output@ == status@ + "\n"@,
    {
        self.busy = true;
        self.receiver = Some(receiver);
        self.status = status.to_owned();
        let mut output = status.to_owned();
        output.append("\n");
        self.output = output;
    }

    /// Empties the result area; the status line says so.
    pub fn clear_output(&mut self)
        ensures
            final(self).busy == old(self).busy,
            final(self).waiting() == old(self).waiting(),
            final(self).output@.len() == 0,
            final(self).status@ == "Sonuc alani temizlendi"@,
    {
        self.output = String::new();
        self.status = "Sonuc alani temizlendi".to_owned();
    }

    /// Takes in the result of the finished task: the busy state ends, and
    /// the window shows its title (with a note when it failed) and its
    /// output.
    pub fn finish_task(&mut self, result: TaskResult)
        ensures
            !final(self).busy,
            !final(self).waiting(),
            final(self).output == result.output,
            if result.failed {
                final(self).status@ == result.title@ + " (uyarilar var)"@
            } else {
                final(self).status == result.title
            },
    {
        self.busy = false;
        self.receiver = None;
        if result.failed {
            let mut status = result.title;
            status.append(" (uyarilar var)");
            self.status = status;
        } else {
            self.status = result.title;
        }
        self.output = result.output;
    }

    /// Takes in what arrived from the running task, if anything: a result
    /// ends the task (see `finish_task`); nothing changes nothing. Tells
    /// whether a task finished.
    pub fn accept_arrival(&mut self, arrived: Option<TaskResult>) -> (finished: bool)
        ensures
            finished == arrived is Some,
            match arrived {
                None => *final(self) == *old(self),
                Some(r) => !final(self).busy && !final(self).waiting() && final(self).output
                    == r.output && (if r.failed {
                    final(self).status@ == r.title@ + " (uyarilar var)"@
                } else {
                    final(self).status == r.title
                }),
            },
    {
        match arrived {
            Some(result) => {
                self.finish_task(result);
                true
            },
            None => false,
        }
    }

    /// Looks whether the awaited result has arrived, and takes in what did
    /// (see `accept_arrival`). Whether it has arrived depends on timing.
    /// Without an awaited result nothing is asked and nothing changes, and
    /// a worker that never sends leaves the task busy. Being busy exactly
    /// while a result is awaited is kept. Tells whether a task finished.
    pub fn poll_task(&mut self) -> (finished: bool)
        ensures
            !old(self).waiting() ==> !finished,
            !finished ==> *final(self) == *old(self),
            finished ==> old(self).waiting() && !final(self).busy && !final(self).waiting(),
            old(self).busy == old(self).waiting() ==> final(self).busy == final(self).waiting(),
    {
        let arrived = match &self.receiver {
            Some(receiver) => try_receive(receiver),
            None => None,
        };
        self.accept_arrival(arrived)
    }
}

/// The warnings as the window shows them.
pub open spec fn warnings_tr(errors: Seq<String>) -> Seq<char> {
    joined(errors, |e: String| "Uyari: "@ + e@ + "\n"@)
}

/// Appends one `Uyari:` line for each warning.
pub fn append_errors(output: &mut String, errors: &Vec<String>)
    ensures
        final(output)@ == old(output)@ + warnings_tr(errors@),
{
    push_warnings(output, errors, "Uyari: ");
}

/// The outcome of a task that failed with the given message.
pub fn error_result(message: &str) -> (r: TaskResult)
    ensures
        r.title@ == "Islem basarisiz"@,
        r.output@ == "Hata: "@ + message@,
        r.failed,
{
    let mut output = "Hata: ".to_owned();
    output.append(message);
    TaskResult { title: "Islem basarisiz".to_owned(), output, failed: true }
}

/// The outcome of a finished search, shown with the given report text.
pub fn search_task_result(output: String) -> (r: TaskResult)
    ensures
        r.title@ == "Arama tamamlandi"@,
        r.output == output,
        !r.failed,
{
    TaskResult { title: "Arama tamamlandi".to_owned(), output, failed: false }
}

/// The outcome of a finished replacement, shown with the given report text:
/// its title tells a dry run from a real one, and it counts as failed when
/// some file could not be changed.
pub fn replace_task_result(report: &ReplaceReport, output: String) -> (r: TaskResult)
    ensures
        r.title@ == (if report.dry_run {
            "Dry-run tamamlandi"@
        } else {
            "Degistirme tamamlandi"@
        }),
        r.output == output,
        r.failed == (report.summary.failed_files > 0),
{
    let title = if report.dry_run {
        "Dry-run tamamlandi".to_owned()
    } else {
        "Degistirme tamamlandi".to_owned()
    };
    TaskResult { title, output, failed: report.summary.failed_files > 0 }
}

/// The outcome of finished statistics, shown with the given report text.
pub fn stats_task_result(output: String) -> (r: TaskResult)
    ensures
        r.title@ == "Istatistikler hazir"@,
        r.output == output,
        !r.failed,
{
    TaskResult { title: "Istatistikler hazir".to_owned(), output, failed: false }
}

/// The search text the window shows.
pub open spec fn search_panel_of(r: SearchReport) -> Seq<char> {
    joined(r.matches@, |m: SearchMatch| match_line(m)) + "\nEslesme: "@ + decimal(
        r.summary.matches as nat,
    ) + " | Taranan dosya: "@ + decimal(r.summary.scanned_files as nat) + " | Atlanan dosya: "@
        + decimal(r.summary.skipped_files as nat) + " | Atlanan klasor: "@ + decimal(
        r.summary.skipped_directories as nat,
    ) + "\n"@ + warnings_tr(r.errors@)
}

/// The search text the window shows: matching lines, counts, warnings.
pub fn search_panel_text(r: &SearchReport) -> (t: String)
    ensures
        t@ == search_panel_of(*r),
{
    let mut t = String::new();
    push_match_lines(&mut t, &r.matches);
    t.append("\nEslesme: ");
    push_count(&mut t, r.summary.matches);
    t.append(" | Taranan dosya: ");
    push_count(&mut t, r.summary.scanned_files);
    t.append(" | Atlanan dosya: ");
    push_count(&mut t, r.summary.skipped_files);
    t.append(" | Atlanan klasor: ");
    push_count(&mut t, r.summary.skipped_directories);
    t.append("\n");
    append_errors(&mut t, &r.errors);
    assert(t@ =~= search_panel_of(*r));
    t
}

/// `DRY-RUN` for a preview, `DEGISTI` otherwise.
pub open spec fn replace_mode_tr(dry_run: bool) -> Seq<char> {
    if dry_run {
        "DRY-RUN"@
    } else {
        "DEGISTI"@
    }
}

/// The replacement text the window shows.
pub open spec fn replace_panel_of(r: ReplaceReport) -> Seq<char> {
    joined(
        r.changes@,
        |c: ReplacementChange| change_block(c, replace_mode_tr(r.dry_run), " degisim"@, "\n\n"@),
    ) + "Degisen dosya: "@ + decimal(r.summary.changed_files as nat) + " | Degisen satir: "@
        + decimal(r.summary.changed_lines as nat) + " | Degisim: "@ + decimal(
        r.summary.replacements as nat,
    ) + " | Yedek: "@ + decimal(r.summary.backups_created as nat) + " | Basarisiz: "@ + decimal(
        r.summary.failed_files as nat,
    ) + "\n"@ + warnings_tr(r.errors@)
}

/// The replacement text the window shows: a block for each change,
/// counts, warnings.
pub fn replace_panel_text(r: &ReplaceReport) -> (t: String)
    ensures
        t@ == replace_panel_of(*r),
{
    let mut t = String::new();
    let mode = if r.dry_run {
        "DRY-RUN"
    } else {
        "DEGISTI"
    };
    push_change_blocks(&mut t, &r.changes, mode, " degisim", "\n\n");
    t.append("Degisen dosya: ");
    push_count(&mut t, r.summary.changed_files);
    t.append(" | Degisen satir: ");
    push_count(&mut t, r.summary.changed_lines);
    t.append(" | Degisim: ");
    push_count(&mut t, r.summary.replacements);
    t.append(" | Yedek: ");
    push_count(&mut t, r.summary.backups_created);
    t.append(" | Basarisiz: ");
    push_count(&mut t, r.summary.failed_files);
    t.append("\n");
    append_errors(&mut t, &r.errors);
    assert(t@ =~= replace_panel_of(*r));
    t
}

/// The statistics text the window shows.
pub open spec fn stats_panel_of(r: StatsReport) -> Seq<char> {
    "Kok: "@ + r.root@ + "\nToplam dosya: "@ + decimal(r.stats.total_files as nat)
        + "\nTaranan dosya: "@ + decimal(r.stats.scanned_files as nat) + "\nAtlanan dosya: "@
        + decimal(r.stats.skipped_files as nat) + "\nBinary dosya: "@ + decimal(
        r.stats.binary_files as nat,
    ) + "\nUTF-8 olmayan dosya: "@ + decimal(r.stats.non_utf8_files as nat)
        + "\nOkunamayan dosya: "@ + decimal(r.stats.unreadable_files as nat)
        + "\nAtlanan klasor: "@ + decimal(r.stats.skipped_directories as nat)
        + "\nToplam satir: "@ + decimal(r.stats.total_lines as nat) + "\nToplam byte: "@
        + decimal(r.stats.total_bytes as nat) + "\n"@ + warnings_tr(r.errors@)
}

/// The statistics text the window shows: one line for each figure, then
/// the warnings.
pub fn stats_panel_text(r: &StatsReport) -> (t: String)
    ensures
        t@ == stats_panel_of(*r),
{
    let mut t = "Kok: ".to_owned();
    t.append(r.root.as_str());
    t.append("\nToplam dosya: ");
    push_count(&mut t, r.stats.total_files);
    t.append("\nTaranan dosya: ");
    push_count(&mut t, r.stats.scanned_files);
    t.append("\nAtlanan dosya: ");
    push_count(&mut t, r.stats.skipped_files);
    t.append("\nBinary dosya: ");
    push_count(&mut t, r.stats.binary_files);
    t.append("\nUTF-8 olmayan dosya: ");
    push_count(&mut t, r.stats.non_utf8_files);
    t.append("\nOkunamayan dosya: ");
    push_count(&mut t, r.stats.unreadable_files);
    t.append("\nAtlanan klasor: ");
    push_count(&mut t, r.stats.skipped_directories);
    t.append("\nToplam satir: ");
    push_count(&mut t, r.stats.total_lines);
    t.append("\nToplam byte: ");
    push_decimal(&mut t, r.stats.total_bytes);
    t.append("\n");
    append_errors(&mut t, &r.errors);
    assert(t@ =~= stats_panel_of(*r));
    t
}


/// The tabs of the window.
#[derive(Debug, Clone, Copy, PartialEq, Eq)]
pub enum Tab {
    Search,
    Replace,
    Stats,
}

/// What the window's form holds, and the state of its task.
#[derive(Debug)]
pub struct FormState {
    pub active_tab: Tab,
    pub path: String,
    pub search_pattern: String,
    pub ignore_case: bool,
    pub regex: bool,
    pub old_text: String,
    pub new_text: String,
    /// Replacements only preview; on by default.
    pub dry_run: bool,
    pub backup: bool,
    pub json_output: bool,
    /// A real replacement waits for confirmation.
    pub confirm_replace: bool,
    pub task: TaskStatus,
}

/// The form as the window opens, on the given working directory: the
/// search tab, a case-sensitive literal search, and a replacement that
/// only previews, without backups, with no task running.
pub fn initial_form(cwd: String) -> (f: FormState)
    ensures
        f.active_tab == Tab::Search,
        f.path@ == cwd@,
        f.search_pattern@.len() == 0,
        f.old_text@.len() == 0,
        f.new_text@.len() == 0,
        f.dry_run,
        !f.backup,
        !f.ignore_case,
        !f.regex,
        !f.json_output,
        !f.confirm_replace,
        !f.task.busy,
        !f.task.waiting(),
        f.task.status@ == "Hazir"@,
        f.task.output@ == "Bir komut calistirdiginizda sonuclar burada gorunecek."@,
{
    FormState {
        active_tab: Tab::Search,
        path: cwd,
        search_pattern: String::new(),
        ignore_case: false,
        regex: false,
        old_text: String::new(),
        new_text: String::new(),
        dry_run: true,
        backup: false,
        json_output: false,
        confirm_replace: false,
        task: TaskStatus::idle(
            "Hazir".to_owned(),
            "Bir komut calistirdiginizda sonuclar burada gorunecek.".to_owned(),
        ),
    }
}

/// Whether the search button can be pressed: no task runs and both the
/// pattern and the path are given.
pub fn search_enabled(busy: bool, pattern: &str, path: &str) -> (b: bool)
    ensures
        b == (!busy && pattern@.len() > 0 && path@.len() > 0),
{
    !busy && !pattern.is_empty() && !path.is_empty()
}

/// Whether the statistics button can be pressed: no task runs and the path
/// is given.
pub fn stats_enabled(busy: bool, path: &str) -> (b: bool)
    ensures
        b == (!busy && path@.len() > 0),
{
    !busy && !path.is_empty()
}

/// What the replace button does.
#[derive(Debug, Clone, Copy, PartialEq, Eq)]
pub enum ReplaceClick {
    /// The button cannot be pressed.
    Disabled,
    /// Run a dry run at once.
    Preview,
    /// Ask for confirmation before a real replacement.
    AskConfirmation,
}

/// What the replace button does: nothing while a task runs or while the
/// text to replace or the path is empty; otherwise a preview in dry-run
/// mode, and a request for confirmation before a real replacement.
pub fn replace_click(busy: bool, old_text: &str, path: &str, dry_run: bool) -> (r: ReplaceClick)
    ensures
        (r is Disabled) <==> (busy || old_text@.len() == 0 || path@.len() == 0),
        (r is Preview) <==> (!busy && old_text@.len() > 0 && path@.len() > 0 && dry_run),
        (r is AskConfirmation) <==> (!busy && old_text@.len() > 0 && path@.len() > 0 && !dry_run),
{
    if busy || old_text.is_empty() || path.is_empty() {
        ReplaceClick::Disabled
    } else if dry_run {
        ReplaceClick::Preview
    } else {
        ReplaceClick::AskConfirmation
    }
}

/// The label of the replace button.
pub fn replace_button_label(dry_run: bool) -> (s: String)
    ensures
        s@ == (if dry_run {
            "Degisiklikleri Onizle"@
        } else {
            "Degisiklikleri Uygula"@
        }),
{
    if dry_run {
        "Degisiklikleri Onizle".to_owned()
    } else {
        "Degisiklikleri Uygula".to_owned()
    }
}

/// What the confirmation window got from the user in this frame.
#[derive(Debug, Clone, Copy, PartialEq, Eq)]
pub enum ConfirmChoice {
    /// Neither button was pressed.
    Pending,
    Cancel,
    Confirm,
}

/// One frame of the confirmation window: whether it stays open, and
/// whether the real replacement starts. Only a confirmation of an open
/// window starts it; either button closes the window.
pub fn confirmation_step(pending: bool, choice: ConfirmChoice) -> (r: (bool, bool))
    ensures
        !pending ==> r == (false, false),
        pending && choice is Cancel ==> r == (false, false),
        pending && choice is Confirm ==> r == (false, true),
        pending && choice is Pending ==> r == (true, false),
{
    if !pending {
        (false, false)
    } else {
        match choice {
            ConfirmChoice::Pending => (true, false),
            ConfirmChoice::Cancel => (false, false),
            ConfirmChoice::Confirm => (false, true),
        }
    }
}

impl FormState {
    /// The options of the search the form asks for; the path is trimmed.
    pub fn search_options(&self) -> (o: SearchOptions)
        ensures
            o.pattern@ == self.search_pattern@,
            is_trim_of(o.path@, self.path@),
            o.ignore_case == self.ignore_case,
            o.regex == self.regex,
    {
        SearchOptions {
            pattern: self.search_pattern.clone(),
            path: trim_text(self.path.as_str()),
            ignore_case: self.ignore_case,
            regex: self.regex,
        }
    }

    /// The options of the replacement the form asks for; the path is
    /// trimmed.
    pub fn replace_options(&self) -> (o: ReplaceOptions)
        ensures
            o.old_text@ == self.old_text@,
            o.new_text@ == self.new_text@,
            is_trim_of(o.path@, self.path@),
            o.dry_run == self.dry_run,
            o.backup == self.backup,
    {
        ReplaceOptions {
            old_text: self.old_text.clone(),
            new_text: self.new_text.clone(),
            path: trim_text(self.path.as_str()),
            dry_run: self.dry_run,
            backup: self.backup,
        }
    }

    /// The options of the statistics the form asks for; the path is
    /// trimmed.
    pub fn stats_options(&self) -> (o: StatsOptions)
        ensures
            is_trim_of(o.path@, self.path@),
    {
        StatsOptions { path: trim_text(self.path.as_str()) }
    }
}


/// The window shows every warning as `Uyari: ` and the warning, on a line of
/// its own.
pub proof fn lemma_warnings_tr_shows_each(errors: Seq<String>, k: int)
    requires
        0 <= k < errors.len(),
    ensures
        contains(warnings_tr(errors), "Uyari: "@ + errors[k]@ + "\n"@),
{
    let f = |e: String| "Uyari: "@ + e@ + "\n"@;
    lemma_joined_at(errors, f, k);
    let a = joined(errors.take(k), f);
    let b = f(errors[k]);
    let c = joined(errors.skip(k + 1), f);
    assert(warnings_tr(errors) == a + b + c);
    lemma_contains_middle(a, b, c);
}

/// The search text of the window gives, before its warnings, each count
/// after its own label: the matches, the scanned files, the skipped files
/// and the skipped folders of the report.
pub proof fn lemma_search_panel_shows_counts(r: SearchReport)
    ensures
        ends_with(
            search_panel_of(r),
            "\nEslesme: "@ + decimal(r.summary.matches as nat) + " | Taranan dosya: "@ + decimal(
                r.summary.scanned_files as nat,
            ) + " | Atlanan dosya: "@ + decimal(r.summary.skipped_files as nat)
                + " | Atlanan klasor: "@ + decimal(r.summary.skipped_directories as nat) + "\n"@
                + warnings_tr(r.errors@),
        ),
{
    let tail = "\nEslesme: "@ + decimal(r.summary.matches as nat) + " | Taranan dosya: "@
        + decimal(r.summary.scanned_files as nat) + " | Atlanan dosya: "@ + decimal(
        r.summary.skipped_files as nat,
    ) + " | Atlanan klasor: "@ + decimal(r.summary.skipped_directories as nat) + "\n"@
        + warnings_tr(r.errors@);
    let head = joined(r.matches@, |m: SearchMatch| match_line(m));
    assert(search_panel_of(r) =~= head + tail);
    lemma_ends_with_last(head, tail);
}

/// The search text of the window shows every match as `path:line: text` on
/// a line of its own.
pub proof fn lemma_search_panel_shows_matches(r: SearchReport, k: int)
    requires
        0 <= k < r.matches.len(),
    ensures
        contains(
            search_panel_of(r),
            r.matches@[k].path@ + ":"@ + decimal(r.matches@[k].line_number as nat) + ": "@
                + r.matches@[k].line@ + "\n"@,
        ),
{
    let f = |m: SearchMatch| match_line(m);
    lemma_joined_at(r.matches@, f, k);
    let t = search_panel_of(r);
    let all = joined(r.matches@, f);
    let rest = "\nEslesme: "@ + decimal(r.summary.matches as nat) + " | Taranan dosya: "@
        + decimal(r.summary.scanned_files as nat) + " | Atlanan dosya: "@ + decimal(
        r.summary.skipped_files as nat,
    ) + " | Atlanan klasor: "@ + decimal(r.summary.skipped_directories as nat) + "\n"@
        + warnings_tr(r.errors@);
    assert(t =~= all + rest);
    let a = joined(r.matches@.take(k), f);
    let b = f(r.matches@[k]);
    let c0 = joined(r.matches@.skip(k + 1), f);
    assert(all == a + b + c0);
    assert(t =~= a + b + (c0 + rest));
    lemma_contains_middle(a, b, c0 + rest);
}

/// The replacement text of the window shows every change as a block headed
/// `[DRY-RUN]` for a preview and `[DEGISTI]` only for a real replacement,
/// with its place and count, then the old and the new line.
pub proof fn lemma_replace_panel_shows_changes(r: ReplaceReport, k: int)
    requires
        0 <= k < r.changes.len(),
    ensures
        contains(
            replace_panel_of(r),
            "["@ + (if r.dry_run {
                "DRY-RUN"@
            } else {
                "DEGISTI"@
            }) + "] "@ + r.changes@[k].path@ + ":"@ + decimal(r.changes@[k].line_number as nat)
                + " ("@ + decimal(r.changes@[k].replacements as nat) + " degisim"@ + ")\n- "@
                + r.changes@[k].old_line@ + "\n+ "@ + r.changes@[k].new_line@ + "\n\n"@,
        ),
{
    let f = |c: ReplacementChange| change_block(c, replace_mode_tr(r.dry_run), " degisim"@, "\n\n"@);
    lemma_joined_at(r.changes@, f, k);
    let t = replace_panel_of(r);
    let a = joined(r.changes@.take(k), f);
    let ch = r.changes@[k];
    let b = f(ch);
    assert(b == "["@ + (if r.dry_run {
        "DRY-RUN"@
    } else {
        "DEGISTI"@
    }) + "] "@ + ch.path@ + ":"@ + decimal(ch.line_number as nat) + " ("@ + decimal(
        ch.replacements as nat,
    ) + " degisim"@ + ")\n- "@ + ch.old_line@ + "\n+ "@ + ch.new_line@ + "\n\n"@);
    let c = joined(r.changes@.skip(k + 1), f) + t.skip(joined(r.changes@, f).len() as int);
    assert(t =~= a + b + c);
    lemma_contains_middle(a, b, c);
}

/// The replacement text of the window gives, before its warnings, each
/// count after its own label: the changed files, the changed lines, the
/// replacements, the backups and the failed files of the report.
pub proof fn lemma_replace_panel_shows_counts(r: ReplaceReport)
    ensures
        ends_with(
            replace_panel_of(r),
            "Degisen dosya: "@ + decimal(r.summary.changed_files as nat) + " | Degisen satir: "@
                + decimal(r.summary.changed_lines as nat) + " | Degisim: "@ + decimal(
                r.summary.replacements as nat,
            ) + " | Yedek: "@ + decimal(r.summary.backups_created as nat) + " | Basarisiz: "@
                + decimal(r.summary.failed_files as nat) + "\n"@ + warnings_tr(r.errors@),
        ),
{
    let tail = "Degisen dosya: "@ + decimal(r.summary.changed_files as nat) + " | Degisen satir: "@
        + decimal(r.summary.changed_lines as nat) + " | Degisim: "@ + decimal(
        r.summary.replacements as nat,
    ) + " | Yedek: "@ + decimal(r.summary.backups_created as nat) + " | Basarisiz: "@ + decimal(
        r.summary.failed_files as nat,
    ) + "\n"@ + warnings_tr(r.errors@);
    let head = joined(
        r.changes@,
        |c: ReplacementChange| change_block(c, replace_mode_tr(r.dry_run), " degisim"@, "\n\n"@),
    );
    assert(replace_panel_of(r) =~= head + tail);
    lemma_ends_with_last(head, tail);
}

/// The statistics text of the window gives its root and then each figure on
/// a line of its own, after its own label, in this order: total, scanned,
/// skipped, binary, not UTF-8 and unreadable files, skipped folders, lines
/// and bytes; then the warnings.
pub proof fn lemma_stats_panel_shows_counts(r: StatsReport)
    ensures
        stats_panel_of(r) == "Kok: "@ + r.root@ + "\nToplam dosya: "@ + decimal(
            r.stats.total_files as nat,
        ) + "\nTaranan dosya: "@ + decimal(r.stats.scanned_files as nat) + "\nAtlanan dosya: "@
            + decimal(r.stats.skipped_files as nat) + "\nBinary dosya: "@ + decimal(
            r.stats.binary_files as nat,
        ) + "\nUTF-8 olmayan dosya: "@ + decimal(r.stats.non_utf8_files as nat)
            + "\nOkunamayan dosya: "@ + decimal(r.stats.unreadable_files as nat)
            + "\nAtlanan klasor: "@ + decimal(r.stats.skipped_directories as nat)
            + "\nToplam satir: "@ + decimal(r.stats.total_lines as nat) + "\nToplam byte: "@
            + decimal(r.stats.total_bytes as nat) + "\n"@ + warnings_tr(r.errors@),
        ends_with(
            stats_panel_of(r),
            "\nToplam satir: "@ + decimal(r.stats.total_lines as nat) + "\nToplam byte: "@
                + decimal(r.stats.total_bytes as nat) + "\n"@ + warnings_tr(r.errors@),
        ),
{
    let t = stats_panel_of(r);
    let tail = "\nToplam satir: "@ + decimal(r.stats.total_lines as nat) + "\nToplam byte: "@
        + decimal(r.stats.total_bytes as nat) + "\n"@ + warnings_tr(r.errors@);
    assert(t.subrange(t.len() - tail.len(), t.len() as int) =~= tail);
}

} // verus!
