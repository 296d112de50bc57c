//! What the window and a running conversion share: the log, the progress and
//! the files that were left out.

use vstd::prelude::*;
use vstd::string::*;
use crate::native;
use crate::text;

verus! {

/// A file that was left out, and why.
pub struct SkippedFile {
    /// Its path, written as [`native`](crate::native) has it.
    pub path: String,
    pub reason: String,
}

/// What the window shows of a conversion.
pub struct Board {
    /// The lines of the log, the oldest first.
    pub log: Vec<String>,
    /// Whether a conversion is running.
    pub converting: bool,
    /// How many files are dealt with.
    pub done: usize,
    /// How many files there are to deal with.
    pub total: usize,
    /// The files that were left out.
    pub skipped: Vec<SkippedFile>,
    /// Whether the list of those files is to be shown.
    pub show_skip_dialog: bool,
}

/// The contents of a board.
#[verifier::ext_equal]
pub struct BoardView {
    pub log: Seq<Seq<char>>,
    pub converting: bool,
    pub done: nat,
    pub total: nat,
    /// Path and reason of each file that was left out.
    pub skipped: Seq<(Seq<char>, Seq<char>)>,
    pub show_skip_dialog: bool,
}

/// Path and reason of each of `files`.
pub open spec fn skipped_view(files: Seq<SkippedFile>) -> Seq<(Seq<char>, Seq<char>)> {
    files.map_values(|f: SkippedFile| (f.path@, f.reason@))
}

impl View for Board {
    type V = BoardView;

    open spec fn view(&self) -> BoardView {
        BoardView {
            log: text::texts(self.log@),
            converting: self.converting,
            done: self.done as nat,
            total: self.total as nat,
            skipped: skipped_view(self.skipped@),
            show_skip_dialog: self.show_skip_dialog,
        }
    }
}

/// The line that closes a conversion.
pub open spec fn completion_line() -> Seq<char> {
    "── 全ファイルの処理が完了しました ──"@
}

/// The line for a folder that was dropped.
pub open spec fn dropped_folder_line(path: Seq<char>) -> Seq<char> {
    "フォルダはドロップできません(中のファイルを個別にドロップしてください): "@ + native::shown(path)
}

/// The line for a path that could not be saved.
pub open spec fn save_failure_line(error: Seq<char>) -> Seq<char> {
    "ffmpeg パスの保存に失敗しました(次回起動時は反映されません): "@ + error
}

/// The line for a test of `path` that is under way, or that has ended.
pub open spec fn check_line(path: Seq<char>, outcome: Option<bool>) -> Seq<char> {
    match outcome {
        None => "… ffmpeg を確認中: "@ + path,
        Some(true) => "✓ ffmpeg OK: "@ + path,
        Some(false) => "✗ ffmpeg を実行できません: "@ + path,
    }
}

impl BoardView {
    /// The board before anything has happened.
    pub open spec fn blank() -> BoardView {
        BoardView {
            log: Seq::empty(),
            converting: false,
            done: 0,
            total: 0,
            skipped: Seq::empty(),
            show_skip_dialog: false,
        }
    }

    /// With one more line in the log.
    pub open spec fn logged(self, line: Seq<char>) -> BoardView {
        BoardView { log: self.log.push(line), ..self }
    }

    /// With `done` of `total` files dealt with.
    pub open spec fn progressed(self, done: nat, total: nat) -> BoardView {
        BoardView { done, total, ..self }
    }

    /// With one more file left out.
    pub open spec fn skipping(self, path: Seq<char>, reason: Seq<char>) -> BoardView {
        BoardView { skipped: self.skipped.push((path, reason)), ..self }
    }

    /// With a conversion of `total` files begun.
    pub open spec fn begun(self, total: nat) -> BoardView {
        BoardView { converting: true, done: 0, total, skipped: Seq::empty(), ..self }
    }

    /// With the conversion at its end. The files that were left out, if any, are
    /// shown.
    pub open spec fn finished(self) -> BoardView {
        BoardView {
            log: self.log.push(completion_line()),
            converting: false,
            show_skip_dialog: self.show_skip_dialog || self.skipped.len() > 0,
            ..self
        }
    }

    /// With the list of the files that were left out closed.
    pub open spec fn dialog_closed(self) -> BoardView {
        BoardView { skipped: Seq::empty(), show_skip_dialog: false, ..self }
    }
}

impl Board {
    /// The board before anything has happened.
    pub fn new() -> (r: Board)
        ensures
            r@ == BoardView::blank(),
    {
        let r = Board {
            log: Vec::new(),
            converting: false,
            done: 0,
            total: 0,
            skipped: Vec::new(),
            show_skip_dialog: false,
        };
        assert(r@ == BoardView::blank());
        r
    }

    /// Adds a line to the log.
    pub fn push_log(&mut self, line: String)
        ensures
            final(self)@ == old(self)@.logged(line@),
            final(self).log@ == old(self).log@.push(line),
    {
        self.log.push(line);
        assert(self@ == old(self)@.logged(line@));
    }

    /// Sets how many of how many files are dealt with.
    pub(crate) fn set_progress(&mut self, done: usize, total: usize)
        ensures
            final(self)@ == old(self)@.progressed(done as nat, total as nat),
    {
        self.done = done;
        self.total = total;
    }

    /// Notes that `path` is left out for `reason`.
    pub(crate) fn push_skipped(&mut self, path: String, reason: String)
        ensures
            final(self)@ == old(self)@.skipping(path@, reason@),
    {
        self.skipped.push(SkippedFile { path, reason });
        assert(self@ == old(self)@.skipping(path@, reason@));
    }

    /// Begins a conversion of `total` files, unless one is running. What was
    /// left out before is forgotten.
    pub fn begin(&mut self, total: usize) -> (r: bool)
        ensures
            r == !old(self).converting,
            r ==> final(self)@ == old(self)@.begun(total as nat),
            !r ==> *final(self) == *old(self),
    {
        if self.converting {
            return false;
        }
        self.converting = true;
        self.skipped.clear();
        self.set_progress(0, total);
        assert(self@ == old(self)@.begun(total as nat));
        true
    }

    /// Ends the conversion.
    pub(crate) fn finish(&mut self)
        ensures
            final(self)@ == old(self)@.finished(),
    {
        self.push_log("── 全ファイルの処理が完了しました ──".to_owned());
        if self.skipped.len() > 0 {
            self.show_skip_dialog = true;
        }
        self.converting = false;
        assert(self@ == old(self)@.finished());
    }

    /// Closes the list of the files that were left out, and forgets them.
    pub fn close_skip_dialog(&mut self)
        ensures
            final(self)@ == old(self)@.dialog_closed(),
    {
        self.show_skip_dialog = false;
        self.skipped.clear();
        assert(self@ == old(self)@.dialog_closed());
    }

    /// Logs that the path to `ffmpeg` could not be saved.
    pub fn log_save_failure(&mut self, error: &str)
        ensures
            final(self)@ == old(self)@.logged(save_failure_line(error@)),
    {
        self.push_log(
            "ffmpeg パスの保存に失敗しました(次回起動時は反映されません): ".to_owned().concat(
                error,
            ),
        );
    }

    /// Logs a test of `ffmpeg`: that it is under way (`None`), or how it ended.
    pub fn log_check(&mut self, path: &str, outcome: Option<bool>)
        ensures
            final(self)@ == old(self)@.logged(check_line(path@, outcome)),
    {
        let head = match outcome {
            None => "… ffmpeg を確認中: ",
            Some(true) => "✓ ffmpeg OK: ",
            Some(false) => "✗ ffmpeg を実行できません: ",
        };
        self.push_log(head.to_owned().concat(path));
    }

    /// The progress in figures.
    pub fn progress_text(&self) -> (r: String)
        ensures
            r@ == text::decimal(self@.done) + "/"@ + text::decimal(self@.total),
    {
        text::decimal_text(self.done as u64).concat("/").concat(
            text::decimal_text(self.total as u64).as_str(),
        )
    }
}

/// A line that is logged stands behind all others, which stay; nothing else changes.
pub proof fn law_log_grows_at_its_end(board: BoardView, line: Seq<char>)
    ensures
        board.logged(line).log == board.log + seq![line],
        board.logged(line).converting == board.converting,
        board.logged(line).done == board.done,
        board.logged(line).total == board.total,
        board.logged(line).skipped == board.skipped,
        board.logged(line).show_skip_dialog == board.show_skip_dialog,
{
}

/// The progress and the list of files that were left out change alone.
pub proof fn law_progress_and_list_change_alone(
    board: BoardView,
    done: nat,
    total: nat,
    path: Seq<char>,
    reason: Seq<char>,
)
    ensures
        ({
            let b = board.progressed(done, total);
            &&& b.done == done
            &&& b.total == total
            &&& b.log == board.log
            &&& b.converting == board.converting
            &&& b.skipped == board.skipped
            &&& b.show_skip_dialog == board.show_skip_dialog
        }),
        ({
            let b = board.skipping(path, reason);
            &&& b.skipped == board.skipped + seq![(path, reason)]
            &&& b.log == board.log
            &&& b.converting == board.converting
            &&& b.done == board.done
            &&& b.total == board.total
            &&& b.show_skip_dialog == board.show_skip_dialog
        }),
{
}

/// A conversion begins with no file dealt with and none left out; the log stays, and so
/// does the dialog.
pub proof fn law_beginning_keeps_the_log(board: BoardView, total: nat)
    ensures
        ({
            let b = board.begun(total);
            &&& b.converting
            &&& b.done == 0
            &&& b.total == total
            &&& b.skipped.len() == 0
            &&& b.log == board.log
            &&& b.show_skip_dialog == board.show_skip_dialog
        }),
{
}

/// A conversion ends with the closing line, and the dialog comes up if and only if a file
/// was left out, or stays if it was up. Closing the dialog empties the list and keeps the
/// log.
pub proof fn law_end_and_dialog(board: BoardView)
    ensures
        ({
            let b = board.finished();
            &&& !b.converting
            &&& b.log == board.log + seq!["── 全ファイルの処理が完了しました ──"@]
            &&& b.skipped == board.skipped
            &&& b.done == board.done
            &&& b.total == board.total
            &&& b.show_skip_dialog <==> board.show_skip_dialog || board.skipped.len() > 0
        }),
        ({
            let b = board.dialog_closed();
            &&& !b.show_skip_dialog
            &&& b.skipped.len() == 0
            &&& b.log == board.log
            &&& b.converting == board.converting
            &&& b.done == board.done
            &&& b.total == board.total
        }),
        BoardView::blank().log.len() == 0,
        BoardView::blank().skipped.len() == 0,
        !BoardView::blank().converting,
        !BoardView::blank().show_skip_dialog,
{
}

/// Each line ends with what it is about, whole: the folder as it is shown, the error, or
/// the path that is tried; and what stands in front tells the cases apart.
pub proof fn law_lines_end_with_what_they_are_about(path: Seq<char>, error: Seq<char>)
    ensures
        dropped_folder_line(path)
            == "フォルダはドロップできません(中のファイルを個別にドロップしてください): "@
            + native::shown(path),
        save_failure_line(error)
            == "ffmpeg パスの保存に失敗しました(次回起動時は反映されません): "@ + error,
        check_line(path, None) == "… ffmpeg を確認中: "@ + path,
        check_line(path, Some(true)) == "✓ ffmpeg OK: "@ + path,
        check_line(path, Some(false)) == "✗ ffmpeg を実行できません: "@ + path,
{
}

} // verus!
