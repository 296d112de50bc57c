//! The course of a conversion: for each file in turn, what to do next, and what
//! follows from how it went.

use vstd::prelude::*;
use vstd::string::*;
use crate::board;
use crate::board::Board;
use crate::board::BoardView;
use crate::duration::AudioLength;
use crate::duration;
use crate::ffmpeg;
use crate::native;
use crate::output;
use crate::paths;
use crate::paths::Host;
use crate::paths::Platform;
use crate::preset::Preset;
use crate::text;
use crate::timestamp;

verus! {

/// How far the current file has come.
pub enum Stage {
    /// The output folder is to be made.
    MakingFolder,
    /// The length of the recording is to be found.
    Measuring,
    /// The path of the output is to be chosen.
    ChoosingOutput,
    /// `ffmpeg` is to write the file at this path.
    Running(String),
    /// All files are dealt with.
    Finished,
}

/// A conversion under way, with the settings it began with.
pub struct Conversion {
    /// The files, each path written as [`native`](crate::native) has it.
    pub files: Vec<String>,
    pub preset: Preset,
    /// The folder for the output, written likewise; `None` for the folder of each input.
    pub output_dir: Option<String>,
    /// The path to `ffmpeg`, as the user typed it.
    pub ffmpeg_path: String,
    /// The position of the current file.
    pub index: usize,
    pub stage: Stage,
}

/// What is to be done outside.
pub enum Action {
    /// Make this folder, with those above it.
    MakeFolder(String),
    /// Run `ffmpeg` with these arguments to find the length of the recording.
    MeasureLength(Vec<String>),
    /// Choose the path of the output.
    ChooseOutput,
    /// Run `ffmpeg` with these arguments.
    Run(Vec<String>),
    /// Nothing more.
    Done,
}

/// How a run of `ffmpeg` ended.
pub enum RunOutcome {
    /// It succeeded.
    Succeeded,
    /// It failed, with this on its standard error.
    Failed(String),
    /// It could not be started, for this reason.
    NotStarted(String),
}

/// What came of an action.
pub enum Event {
    /// The folder is there.
    FolderReady,
    /// The folder could not be made, for this reason.
    FolderFailed(String),
    /// The recording is this long; `None` where it could not be found out.
    Measured(Option<AudioLength>),
    /// This path was chosen for the output.
    OutputChosen(String),
    /// `ffmpeg` has ended.
    Ended(RunOutcome),
}

/// How far the current file has come.
pub enum StageView {
    MakingFolder,
    Measuring,
    ChoosingOutput,
    Running(Seq<char>),
    Finished,
}

/// The contents of a conversion.
#[verifier::ext_equal]
pub struct ConversionView {
    pub files: Seq<Seq<char>>,
    pub preset: Preset,
    pub output_dir: Option<Seq<char>>,
    pub ffmpeg_path: Seq<char>,
    pub index: nat,
    pub stage: StageView,
}

/// What is to be done outside.
pub enum ActionView {
    MakeFolder(Seq<char>),
    MeasureLength(Seq<Seq<char>>),
    ChooseOutput,
    Run(Seq<Seq<char>>),
    Done,
}

impl View for Stage {
    type V = StageView;

    open spec fn view(&self) -> StageView {
        match self {
            Stage::MakingFolder => StageView::MakingFolder,
            Stage::Measuring => StageView::Measuring,
            Stage::ChoosingOutput => StageView::ChoosingOutput,
            Stage::Running(output) => StageView::Running(output@),
            Stage::Finished => StageView::Finished,
        }
    }
}

impl View for Conversion {
    type V = ConversionView;

    open spec fn view(&self) -> ConversionView {
        ConversionView {
            files: text::texts(self.files@),
            preset: self.preset,
            output_dir: text::optional_text(self.output_dir),
            ffmpeg_path: self.ffmpeg_path@,
            index: self.index as nat,
            stage: self.stage@,
        }
    }
}

impl View for Action {
    type V = ActionView;

    open spec fn view(&self) -> ActionView {
        match self {
            Action::MakeFolder(folder) => ActionView::MakeFolder(folder@),
            Action::MeasureLength(args) => ActionView::MeasureLength(text::texts(args@)),
            Action::ChooseOutput => ActionView::ChooseOutput,
            Action::Run(args) => ActionView::Run(text::texts(args@)),
            Action::Done => ActionView::Done,
        }
    }
}

/// The stem of the output's name: that of the input, or one made from the
/// position `index` of the file where the input has none.
pub open spec fn stem_or_number(stem: Option<Seq<char>>, index: nat) -> Seq<char> {
    match stem {
        Some(stem) => stem,
        None => "output_"@ + text::decimal(index),
    }
}

/// The stem as it is shown: the output's name is made from that.
pub open spec fn shown_stem(stem: Option<Seq<char>>) -> Option<Seq<char>> {
    match stem {
        Some(stem) => Some(native::shown(stem)),
        None => None,
    }
}

/// The folder of the output: the one that was chosen, or else the one of the
/// input, or else the current one.
pub open spec fn chosen_or_parent(chosen: Option<Seq<char>>, parent: Option<Seq<char>>) -> Seq<
    char,
> {
    match chosen {
        Some(folder) => folder,
        None => match parent {
            Some(folder) => folder,
            None => "."@,
        },
    }
}

/// How a line about the file at `index` of `total` begins.
pub open spec fn position_text(index: nat, total: nat) -> Seq<char> {
    "["@ + text::decimal(index + 1) + "/"@ + text::decimal(total) + "] "@
}

/// The line for a file that is left out.
pub open spec fn skip_line(index: nat, total: nat, path: Seq<char>, reason: Seq<char>) -> Seq<
    char,
> {
    position_text(index, total) + "スキップ ("@ + reason + "): "@ + native::shown(path)
}

/// The line for a file that is about to be converted.
pub open spec fn convert_line(index: nat, total: nat, path: Seq<char>) -> Seq<char> {
    position_text(index, total) + "変換: "@ + native::shown(path)
}

/// The line for an output folder that could not be made.
pub open spec fn folder_failure_line(error: Seq<char>) -> Seq<char> {
    "出力フォルダを作成できません: "@ + error
}

/// The reason given for a recording of unknown length.
pub open spec fn unknown_length_text() -> Seq<char> {
    "録音時間を取得できず安全のためスキップ"@
}

/// The last of `lines` that is not blank.
pub open spec fn last_message(lines: Seq<Seq<char>>) -> Seq<char>
    decreases lines.len(),
{
    if lines.len() == 0 {
        "(詳細不明)"@
    } else if text::trimmed(lines.last()).len() > 0 {
        lines.last()
    } else {
        last_message(lines.drop_last())
    }
}

/// The line for a run of `ffmpeg` that was to write `output`.
pub open spec fn outcome_line(outcome: RunOutcome, output: Seq<char>) -> Seq<char> {
    match outcome {
        RunOutcome::Succeeded => "  ✓ 出力: "@ + native::shown(output),
        RunOutcome::Failed(stderr) => "  ✗ 失敗: "@ + last_message(text::lines_of(stderr@)),
        RunOutcome::NotStarted(error) => "  ✗ ffmpeg を実行できません: "@ + error@
            + " (パス確認)"@,
    }
}

/// Why a recording of the given length is left out under `limit`; `None` where
/// it is not. A length that is not known counts as too long, since the device
/// would not play what it cannot take.
pub open spec fn skip_reason(limit: u64, length: Option<AudioLength>) -> Option<Seq<char>> {
    match length {
        Some(length) => if length.is_over(limit) {
            Some(
                duration::over_limit_text(
                    limit as nat,
                    length.whole_seconds as nat,
                    length.seconds_text@,
                ),
            )
        } else {
            None
        },
        None => Some(unknown_length_text()),
    }
}

impl ConversionView {
    /// The current file is one of the files, until all are dealt with.
    pub open spec fn wf(self) -> bool {
        match self.stage {
            StageView::Finished => self.index == self.files.len(),
            StageView::Measuring => self.index < self.files.len()
                && self.preset.duration_limit() is Some,
            _ => self.index < self.files.len(),
        }
    }

    /// The current file.
    pub open spec fn input(self) -> Seq<char> {
        self.files[self.index as int]
    }

    /// The folder of the current file's output.
    pub open spec fn folder(self, platform: Platform) -> Seq<char> {
        chosen_or_parent(self.output_dir, paths::folder_of_path(platform, self.input()))
    }

    /// The stem of the current file's output.
    pub open spec fn stem(self, platform: Platform) -> Seq<char> {
        stem_or_number(
            shown_stem(paths::name_stem_of_path(platform, self.input())),
            self.index,
        )
    }

    /// Whether `r` is what the search for an output path comes to, under the
    /// answers of `exists_fn`.
    pub open spec fn is_output_choice<F: Fn(&str) -> bool>(
        self,
        platform: Platform,
        stamp: Seq<char>,
        exists_fn: F,
        r: Option<Seq<char>>,
    ) -> bool {
        output::is_free_choice(
            platform,
            self.folder(platform),
            self.stem(platform),
            stamp,
            self.preset.extension_text(),
            exists_fn,
            r,
        )
    }

    /// Whether `r` is what the search for an output path comes to, under the
    /// answers of the disk, and of `ask` for paths that are not text.
    pub open spec fn is_disk_choice<F: Fn(&str) -> bool>(
        self,
        platform: Platform,
        stamp: Seq<char>,
        ask: &F,
        r: Option<Seq<char>>,
    ) -> bool {
        output::is_disk_choice(
            platform,
            self.folder(platform),
            self.stem(platform),
            stamp,
            self.preset.extension_text(),
            ask,
            r,
        )
    }

    /// With the current file at another stage.
    pub open spec fn at(self, stage: StageView) -> ConversionView {
        ConversionView { stage, ..self }
    }

    /// What is to be done outside.
    pub open spec fn pending_action(self, platform: Platform) -> ActionView {
        match self.stage {
            StageView::MakingFolder => ActionView::MakeFolder(self.folder(platform)),
            StageView::Measuring => ActionView::MeasureLength(
                ffmpeg::measure_arguments(native::shown(self.input())),
            ),
            StageView::ChoosingOutput => ActionView::ChooseOutput,
            StageView::Running(output) => ActionView::Run(
                self.preset.arguments(native::shown(self.input()), native::shown(output)),
            ),
            StageView::Finished => ActionView::Done,
        }
    }

    /// The conversion of `files` before its first action.
    pub open spec fn begun(
        files: Seq<Seq<char>>,
        preset: Preset,
        output_dir: Option<Seq<char>>,
        ffmpeg_path: Seq<char>,
    ) -> ConversionView {
        let stage = if files.len() == 0 {
            StageView::Finished
        } else {
            StageView::MakingFolder
        };
        ConversionView { files, preset, output_dir, ffmpeg_path, index: 0, stage }
    }

    /// With the current file dealt with: on to the next one, if there is one.
    pub open spec fn next_file(self) -> ConversionView {
        let stage = if self.index + 1 < self.files.len() {
            StageView::MakingFolder
        } else {
            StageView::Finished
        };
        ConversionView { index: self.index + 1, stage, ..self }
    }

    /// The board when the current file is dealt with. Behind the last file the
    /// conversion ends.
    pub open spec fn file_closed(self, board: BoardView) -> BoardView {
        let counted = board.progressed(self.index + 1, self.files.len());
        if self.index + 1 < self.files.len() {
            counted
        } else {
            counted.finished()
        }
    }

    /// Whether `event` is what can come of the pending action.
    pub open spec fn awaits(self, event: Event) -> bool {
        match self.stage {
            StageView::MakingFolder => event is FolderReady || event is FolderFailed,
            StageView::Measuring => event is Measured,
            StageView::ChoosingOutput => event is OutputChosen,
            StageView::Running(_) => event is Ended,
            StageView::Finished => false,
        }
    }

    /// The conversion after `event`. An event that does not answer the pending
    /// action changes nothing.
    pub open spec fn after(self, event: Event) -> ConversionView {
        match (self.stage, event) {
            (StageView::MakingFolder, Event::FolderFailed(_)) => self.next_file(),
            (StageView::MakingFolder, Event::FolderReady) => if self.preset.duration_limit()
                is Some {
                self.at(StageView::Measuring)
            } else {
                self.at(StageView::ChoosingOutput)
            },
            (StageView::Measuring, Event::Measured(length)) => if skip_reason(
                self.preset.duration_limit()->0,
                length,
            ) is Some {
                self.next_file()
            } else {
                self.at(StageView::ChoosingOutput)
            },
            (StageView::ChoosingOutput, Event::OutputChosen(output)) => self.at(
                StageView::Running(output@),
            ),
            (StageView::Running(_), Event::Ended(_)) => self.next_file(),
            _ => self,
        }
    }

    /// The board after `event`.
    pub open spec fn board_after(self, board: BoardView, event: Event) -> BoardView {
        match (self.stage, event) {
            (StageView::MakingFolder, Event::FolderFailed(error)) => self.file_closed(
                board.logged(folder_failure_line(error@)),
            ),
            (StageView::Measuring, Event::Measured(length)) => match skip_reason(
                self.preset.duration_limit()->0,
                length,
            ) {
                Some(reason) => self.file_closed(
                    board.logged(
                        skip_line(self.index, self.files.len(), self.input(), reason),
                    ).skipping(self.input(), reason),
                ),
                None => board,
            },
            (StageView::ChoosingOutput, Event::OutputChosen(_)) => board.logged(
                convert_line(self.index, self.files.len(), self.input()),
            ),
            (StageView::Running(output), Event::Ended(outcome)) => self.file_closed(
                board.logged(outcome_line(outcome, output)),
            ),
            _ => board,
        }
    }
}

/// The stem of the output's name.
pub fn output_stem(stem: Option<String>, index: usize) -> (r: String)
    ensures
        r@ == stem_or_number(text::optional_text(stem), index as nat),
{
    match stem {
        Some(stem) => stem,
        None => "output_".to_owned().concat(text::decimal_text(index as u64).as_str()),
    }
}

/// The folder of the output.
pub fn output_folder(chosen: &Option<String>, parent: Option<String>) -> (r: String)
    ensures
        r@ == chosen_or_parent(text::optional_text(*chosen), text::optional_text(parent)),
{
    match chosen {
        Some(folder) => folder.clone(),
        None => match parent {
            Some(folder) => folder,
            None => ".".to_owned(),
        },
    }
}

/// The last line of `stderr` that is not blank.
pub fn last_error_line(stderr: &str) -> (r: String)
    ensures
        r@ == last_message(text::lines_of(stderr@)),
{
    let lines = text::lines(stderr);
    let ghost all = text::lines_of(stderr@);
    let mut i: usize = lines.len();
    assert(all.take(all.len() as int) == all);
    while i > 0
        invariant
            i <= lines.len(),
            lines@.map_values(|line: &str| line@) == all,
            all == text::lines_of(stderr@),
            last_message(all) == last_message(all.take(i as int)),
        decreases i,
    {
        assert(all.take(i as int).last() == lines@[i - 1]@);
        assert(all.take(i as int).drop_last() == all.take(i - 1));
        if !text::trim(lines[i - 1]).is_empty() {
            return lines[i - 1].to_owned();
        }
        i = i - 1;
    }
    "(詳細不明)".to_owned()
}

/// Why a recording of the given length is left out under `limit`; `None` where
/// it is not.
pub fn reason_to_skip(limit: u64, length: &Option<AudioLength>) -> (r: Option<String>)
    ensures
        text::optional_text(r) == skip_reason(limit, *length),
        r is None <==> (length is Some && (length->0.whole_seconds < limit
            || length->0.whole_seconds == limit && !length->0.has_fraction)),
{
    match length {
        Some(length) => if length.exceeds(limit) {
            Some(length.over_limit_reason(limit))
        } else {
            None
        },
        None => Some("録音時間を取得できず安全のためスキップ".to_owned()),
    }
}

fn position(index: usize, total: usize) -> (r: String)
    requires
        index < total,
    ensures
        r@ == position_text(index as nat, total as nat),
{
    "[".to_owned().concat(text::decimal_text(index as u64 + 1).as_str()).concat("/").concat(
        text::decimal_text(total as u64).as_str(),
    ).concat("] ")
}

fn outcome_message(outcome: &RunOutcome, output: &str) -> (r: String)
    ensures
        r@ == outcome_line(*outcome, output@),
{
    match outcome {
        RunOutcome::Succeeded => "  ✓ 出力: ".to_owned().concat(
            native::shown_text(output).as_str(),
        ),
        RunOutcome::Failed(stderr) => "  ✗ 失敗: ".to_owned().concat(
            last_error_line(stderr.as_str()).as_str(),
        ),
        RunOutcome::NotStarted(error) => "  ✗ ffmpeg を実行できません: ".to_owned().concat(
            error.as_str(),
        ).concat(" (パス確認)"),
    }
}

impl Conversion {
    /// Begins the conversion of `files` on `board`, unless one is running there.
    pub fn start(
        board: &mut Board,
        files: Vec<String>,
        preset: Preset,
        output_dir: Option<String>,
        ffmpeg_path: String,
    ) -> (r: Option<Conversion>)
        ensures
            r is None <==> old(board).converting,
            match r {
                None => *final(board) == *old(board),
                Some(conversion) => {
                    &&& conversion@ == ConversionView::begun(
                        text::texts(files@),
                        preset,
                        text::optional_text(output_dir),
                        ffmpeg_path@,
                    )
                    &&& conversion@.wf()
                    &&& conversion.files@ == files@
                    &&& conversion.index == 0
                    &&& conversion.preset == preset
                    &&& conversion.output_dir == output_dir
                    &&& conversion.ffmpeg_path == ffmpeg_path
                    &&& final(board)@ == if files@.len() == 0 {
                        old(board)@.begun(0).finished()
                    } else {
                        old(board)@.begun(files@.len())
                    }
                },
            },
    {
        if !board.begin(files.len()) {
            return None;
        }
        let stage = if files.len() == 0 {
            board.finish();
            Stage::Finished
        } else {
            Stage::MakingFolder
        };
        Some(Conversion { files, preset, output_dir, ffmpeg_path, index: 0, stage })
    }

    /// What is to be done outside.
    pub fn pending(&self, host: &Host) -> (r: Action)
        requires
            self@.wf(),
        ensures
            r@ == self@.pending_action(host.system()),
            self.stage matches Stage::Running(output) ==> {
                &&& r matches Action::Run(args)
                &&& args@.len() >= 4
                &&& args@[2]@ == native::shown(self.files@[self.index as int]@)
                &&& args@.last()@ == native::shown(output@)
            },
            self.stage is Measuring ==> {
                &&& r matches Action::MeasureLength(args)
                &&& args@.len() == 3
                &&& args@[2]@ == native::shown(self.files@[self.index as int]@)
            },
            self.stage is Finished ==> r is Done,
    {
        match &self.stage {
            Stage::MakingFolder => {
                let input = self.files[self.index].as_str();
                Action::MakeFolder(output_folder(&self.output_dir, paths::parent_of(host, input)))
            },
            Stage::Measuring => Action::MeasureLength(
                ffmpeg::measure_args(native::shown_text(self.files[self.index].as_str()).as_str()),
            ),
            Stage::ChoosingOutput => Action::ChooseOutput,
            Stage::Running(output) => Action::Run(
                self.preset.ffmpeg_args(
                    native::shown_text(self.files[self.index].as_str()).as_str(),
                    native::shown_text(output.as_str()).as_str(),
                ),
            ),
            Stage::Finished => Action::Done,
        }
    }

    fn output_parts(&self, host: &Host) -> (r: (String, String))
        requires
            self@.wf(),
            !(self@.stage is Finished),
        ensures
            r.0@ == self@.folder(host.system()),
            r.1@ == self@.stem(host.system()),
    {
        let input = self.files[self.index].as_str();
        let folder = output_folder(&self.output_dir, paths::parent_of(host, input));
        let stem = match paths::stem_of(host, input) {
            Some(stem) => Some(native::shown_text(stem.as_str())),
            None => None,
        };
        (folder, output_stem(stem, self.index))
    }

    /// A path for the current file's output at the given local time, which no
    /// file has of which `exists_fn` knows. `None` where the time cannot be
    /// written or the numbers run out.
    pub fn choose_output<F: Fn(&str) -> bool>(
        &self,
        host: &Host,
        local_seconds: i64,
        exists_fn: F,
    ) -> (r: Option<String>)
        requires
            self@.wf(),
            !(self@.stage is Finished),
            output::answers_all(exists_fn),
        ensures
            match timestamp::formatted_time(local_seconds, timestamp::stamp_pattern()) {
                Some(stamp) => self@.is_output_choice(
                    host.system(),
                    stamp,
                    exists_fn,
                    text::optional_text(r),
                ),
                None => r is None,
            },
    {
        match timestamp::timestamp_text(local_seconds) {
            Some(stamp) => {
                let (folder, stem) = self.output_parts(host);
                output::first_free_output_path(
                    host,
                    folder.as_str(),
                    stem.as_str(),
                    stamp.as_str(),
                    self.preset.extension(),
                    exists_fn,
                )
            },
            None => None,
        }
    }

    /// A path for the current file's output at the given local time, at which no
    /// file was found on disk, or by `ask` for a path that is not text. `None` where
    /// the time cannot be written or the numbers run out.
    pub fn choose_output_on_disk<F: Fn(&str) -> bool>(
        &self,
        host: &Host,
        local_seconds: i64,
        ask: &F,
    ) -> (r: Option<String>)
        requires
            self@.wf(),
            !(self@.stage is Finished),
            output::answers_all(*ask),
        ensures
            match timestamp::formatted_time(local_seconds, timestamp::stamp_pattern()) {
                Some(stamp) => self@.is_disk_choice(
                    host.system(),
                    stamp,
                    ask,
                    text::optional_text(r),
                ),
                None => r is None,
            },
    {
        match timestamp::timestamp_text(local_seconds) {
            Some(stamp) => {
                let (folder, stem) = self.output_parts(host);
                output::unique_output_path(
                    host,
                    folder.as_str(),
                    stem.as_str(),
                    stamp.as_str(),
                    self.preset.extension(),
                    ask,
                )
            },
            None => None,
        }
    }

    /// Chooses a path for the current file's output, at which no file was found, and
    /// goes on to the run of `ffmpeg` that is to write there. `false` where there is
    /// no such path; then nothing changes.
    pub fn go_on_with_output<F: Fn(&str) -> bool>(
        &mut self,
        board: &mut Board,
        host: &Host,
        local_seconds: i64,
        ask: &F,
    ) -> (r: bool)
        requires
            old(self)@.wf(),
            old(self)@.stage is ChoosingOutput,
            output::answers_all(*ask),
        ensures
            match timestamp::formatted_time(local_seconds, timestamp::stamp_pattern()) {
                Some(stamp) => if r {
                    &&& final(self)@.stage matches StageView::Running(output)
                    &&& old(self)@.is_disk_choice(host.system(), stamp, ask, Some(output))
                } else {
                    old(self)@.is_disk_choice(host.system(), stamp, ask, None)
                },
                None => !r,
            },
            r ==> final(self)@ == old(self)@.at(final(self)@.stage) && final(board)@ == old(
                board,
            )@.logged(
                convert_line(old(self)@.index, old(self)@.files.len(), old(self)@.input()),
            ),
            !r ==> *final(self) == *old(self) && *final(board) == *old(board),
            final(self)@.wf(),
    {
        match self.choose_output_on_disk(host, local_seconds, ask) {
            Some(output) => {
                self.advance(board, Event::OutputChosen(output));
                true
            },
            None => false,
        }
    }

    /// Goes on after `event`.
    pub fn advance(&mut self, board: &mut Board, event: Event)
        requires
            old(self)@.wf(),
        ensures
            final(self)@.wf(),
            final(self)@ == old(self)@.after(event),
            final(board)@ == old(self)@.board_after(old(board)@, event),
            final(self).files@ == old(self).files@,
            final(self).preset == old(self).preset,
            final(self).output_dir == old(self).output_dir,
            final(self).ffmpeg_path == old(self).ffmpeg_path,
            final(self).index == old(self).index || final(self).index == old(self).index + 1,
    {
        let index = self.index;
        let total = self.files.len();
        match (&self.stage, event) {
            (Stage::MakingFolder, Event::FolderFailed(error)) => {
                board.push_log("出力フォルダを作成できません: ".to_owned().concat(error.as_str()));
                self.close_file(board);
            },
            (Stage::MakingFolder, Event::FolderReady) => {
                self.stage = match self.preset.max_duration_secs() {
                    Some(_) => Stage::Measuring,
                    None => Stage::ChoosingOutput,
                };
            },
            (Stage::Measuring, Event::Measured(length)) => {
                let reason = match self.preset.max_duration_secs() {
                    Some(limit) => reason_to_skip(limit, &length),
                    None => None,
                };
                match reason {
                    Some(reason) => {
                        let input = self.files[index].clone();
                        board.push_log(
                            position(index, total).concat("スキップ (").concat(
                                reason.as_str(),
                            ).concat("): ").concat(native::shown_text(input.as_str()).as_str()),
                        );
                        board.push_skipped(input, reason);
                        self.close_file(board);
                    },
                    None => {
                        self.stage = Stage::ChoosingOutput;
                    },
                }
            },
            (Stage::ChoosingOutput, Event::OutputChosen(output)) => {
                board.push_log(
                    position(index, total).concat("変換: ").concat(
                        native::shown_text(self.files[index].as_str()).as_str(),
                    ),
                );
                self.stage = Stage::Running(output);
            },
            (Stage::Running(output), Event::Ended(outcome)) => {
                let line = outcome_message(&outcome, output.as_str());
                board.push_log(line);
                self.close_file(board);
            },
            _ => {},
        }
    }

    fn close_file(&mut self, board: &mut Board)
        requires
            old(self)@.index < old(self)@.files.len(),
        ensures
            final(self)@ == old(self)@.next_file(),
            final(board)@ == old(self)@.file_closed(old(board)@),
            final(self).files@ == old(self).files@,
            final(self).preset == old(self).preset,
            final(self).output_dir == old(self).output_dir,
            final(self).ffmpeg_path == old(self).ffmpeg_path,
    {
        let total = self.files.len();
        self.index = self.index + 1;
        board.set_progress(self.index, total);
        if self.index < total {
            self.stage = Stage::MakingFolder;
        } else {
            self.stage = Stage::Finished;
            board.finish();
        }
    }
}

/// Whether the board shows where the conversion stands.
pub open spec fn in_step(conversion: ConversionView, board: BoardView) -> bool {
    &&& board.total == conversion.files.len()
    &&& board.done == conversion.index
    &&& board.converting == !(conversion.stage is Finished)
}

/// How many events the conversion still awaits at most: four for each file.
pub open spec fn events_left(conversion: ConversionView) -> int {
    let rest = 4 * (conversion.files.len() - conversion.index);
    match conversion.stage {
        StageView::MakingFolder => rest,
        StageView::Measuring => rest - 1,
        StageView::ChoosingOutput => rest - 2,
        StageView::Running(_) => rest - 3,
        StageView::Finished => 0,
    }
}

/// The conversion and the board after `events`.
pub open spec fn run(conversion: ConversionView, board: BoardView, events: Seq<Event>) -> (
    ConversionView,
    BoardView,
)
    decreases events.len(),
{
    if events.len() == 0 {
        (conversion, board)
    } else {
        let (c, b) = run(conversion, board, events.drop_last());
        (c.after(events.last()), c.board_after(b, events.last()))
    }
}

/// Whether each of `events` answers the action that is pending when it comes.
pub open spec fn answers_in_turn(
    conversion: ConversionView,
    board: BoardView,
    events: Seq<Event>,
) -> bool {
    forall|i: int|
        0 <= i < events.len() ==> run(conversion, board, events.take(i)).0.awaits(
            #[trigger] events[i],
        )
}

/// A conversion that is begun and its board are in step.
pub proof fn law_start_is_in_step(
    files: Seq<Seq<char>>,
    preset: Preset,
    output_dir: Option<Seq<char>>,
    ffmpeg_path: Seq<char>,
    board: BoardView,
)
    ensures
        ({
            let conversion = ConversionView::begun(files, preset, output_dir, ffmpeg_path);
            let begun = if files.len() == 0 {
                board.begun(0).finished()
            } else {
                board.begun(files.len())
            };
            conversion.wf() && in_step(conversion, begun)
        }),
{
}

/// Whatever happens, the conversion stays well-formed and the board in step: the
/// progress counts the files dealt with, and the conversion counts as running
/// until all of them are. What the conversion began with never changes, no file
/// is gone back to, and no line of the log is lost.
pub proof fn law_run_stays_in_step(
    conversion: ConversionView,
    board: BoardView,
    events: Seq<Event>,
)
    requires
        conversion.wf(),
        in_step(conversion, board),
    ensures
        ({
            let (c, b) = run(conversion, board, events);
            &&& c.wf()
            &&& in_step(c, b)
            &&& c.files == conversion.files
            &&& c.preset == conversion.preset
            &&& c.output_dir == conversion.output_dir
            &&& c.ffmpeg_path == conversion.ffmpeg_path
            &&& conversion.index <= c.index
            &&& board.log.is_prefix_of(b.log)
            &&& board.skipped.is_prefix_of(b.skipped)
        }),
    decreases events.len(),
{
    if events.len() == 0 {
        assert(board.log.take(board.log.len() as int) == board.log);
        assert(board.skipped.take(board.skipped.len() as int) == board.skipped);
    } else {
        law_run_stays_in_step(conversion, board, events.drop_last());
        let (c, b) = run(conversion, board, events.drop_last());
        let after = c.board_after(b, events.last());
        assert(after.log.take(board.log.len() as int) == b.log.take(board.log.len() as int));
        assert(after.skipped.take(board.skipped.len() as int) == b.skipped.take(
            board.skipped.len() as int,
        ));
    }
}

/// Where every event answers the action that is pending, the conversion comes to
/// its end: each event brings it nearer, and no more than four come for each file.
#[verifier::spinoff_prover]
#[verifier::rlimit(50)]
pub proof fn law_conversion_ends(conversion: ConversionView, board: BoardView, events: Seq<Event>)
    requires
        conversion.wf(),
        answers_in_turn(conversion, board, events),
    ensures
        events.len() + events_left(run(conversion, board, events).0) <= events_left(conversion),
        0 <= events_left(run(conversion, board, events).0),
        events_left(run(conversion, board, events).0) == 0 <==> run(
            conversion,
            board,
            events,
        ).0.stage is Finished,
        run(conversion, board, events).0.wf(),
        events.len() <= 4 * (conversion.files.len() - conversion.index),
    decreases events.len(),
{
    if events.len() > 0 {
        let front = events.drop_last();
        assert forall|i: int| 0 <= i < front.len() implies run(
            conversion,
            board,
            front.take(i),
        ).0.awaits(#[trigger] front[i]) by {
            assert(front.take(i) == events.take(i));
            assert(front[i] == events[i]);
        }
        law_conversion_ends(conversion, board, front);
        assert(events.take(events.len() - 1) == front);
        assert(run(conversion, board, front).0.awaits(events.last())) by {
            assert(events[events.len() - 1] == events.last());
        }
    }
}

/// An event that does not answer the pending action changes nothing.
pub proof fn law_stray_event_changes_nothing(
    conversion: ConversionView,
    board: BoardView,
    event: Event,
)
    requires
        !conversion.awaits(event),
    ensures
        conversion.after(event) == conversion,
        conversion.board_after(board, event) == board,
{
}

/// Under a limit, a file goes on to be converted only from the measurement, and
/// only with a length that is known and not over the limit. Any other
/// measurement leaves the file out, and the board lists it.
pub proof fn law_only_fitting_recordings_are_converted(
    conversion: ConversionView,
    board: BoardView,
    event: Event,
    limit: u64,
)
    requires
        conversion.wf(),
        conversion.preset.duration_limit() == Some(limit),
    ensures
        !(conversion.stage is ChoosingOutput) && conversion.after(event).stage is ChoosingOutput
            ==> {
            &&& conversion.stage is Measuring
            &&& event matches Event::Measured(length)
            &&& length is Some
            &&& !length->0.is_over(limit)
        },
        conversion.stage is Measuring && event is Measured && !(conversion.after(event).stage
            is ChoosingOutput) ==> {
            let skipped = conversion.board_after(board, event).skipped;
            &&& skipped.len() == board.skipped.len() + 1
            &&& skipped.last().0 == conversion.input()
            &&& skipped.drop_last() == board.skipped
        },
{
    if let (StageView::Measuring, Event::Measured(length)) = (conversion.stage, event) {
        if let Some(reason) = skip_reason(limit, length) {
            let skipped = conversion.board_after(board, event).skipped;
            assert(skipped == board.skipped.push((conversion.input(), reason)));
            assert(skipped.drop_last() == board.skipped);
        }
    }
}

/// Whether `event` reports a length that is known and not over `limit`.
pub open spec fn reports_fitting_length(event: Event, limit: u64) -> bool {
    &&& event matches Event::Measured(length)
    &&& length is Some
    &&& !length->0.is_over(limit)
}

/// In a conversion under a limit that is followed from its beginning, a file that
/// is being converted has been measured before, and its length was known and not
/// over the limit.
#[verifier::spinoff_prover]
#[verifier::rlimit(50)]
pub proof fn law_converted_recordings_fit(
    conversion: ConversionView,
    board: BoardView,
    events: Seq<Event>,
    limit: u64,
)
    requires
        conversion.wf(),
        conversion.stage is MakingFolder || conversion.stage is Finished,
        conversion.preset.duration_limit() == Some(limit),
    ensures
        ({
            let c = run(conversion, board, events).0;
            c.stage is ChoosingOutput || c.stage is Running ==> exists|i: int|
                {
                    &&& 0 <= i < events.len()
                    &&& reports_fitting_length(#[trigger] events[i], limit)
                    &&& run(conversion, board, events.take(i)).0.index == c.index
                    &&& run(conversion, board, events.take(i)).0.stage is Measuring
                }
        }),
        run(conversion, board, events).0.preset == conversion.preset,
    decreases events.len(),
{
    if events.len() > 0 {
        let front = events.drop_last();
        law_converted_recordings_fit(conversion, board, front, limit);
        let before = run(conversion, board, front).0;
        let c = run(conversion, board, events).0;
        if c.stage is ChoosingOutput || c.stage is Running {
            if before.stage is Measuring {
                let i = events.len() - 1;
                assert(events.take(i) == front);
                assert(reports_fitting_length(events[i], limit));
            } else {
                let i = choose|i: int|
                    {
                        &&& 0 <= i < front.len()
                        &&& reports_fitting_length(#[trigger] front[i], limit)
                        &&& run(conversion, board, front.take(i)).0.index == before.index
                        &&& run(conversion, board, front.take(i)).0.stage is Measuring
                    };
                assert(front.take(i) == events.take(i));
                assert(reports_fitting_length(events[i], limit));
            }
        }
    }
}

/// Without a limit no file is ever measured, and none is listed as left out, whatever
/// happens.
pub proof fn law_without_limit_nothing_is_skipped(
    conversion: ConversionView,
    board: BoardView,
    events: Seq<Event>,
)
    requires
        conversion.wf(),
        conversion.preset.duration_limit() is None,
    ensures
        ({
            let (c, b) = run(conversion, board, events);
            &&& c.wf()
            &&& c.preset == conversion.preset
            &&& !(c.stage is Measuring)
            &&& b.skipped == board.skipped
        }),
    decreases events.len(),
{
    if events.len() > 0 {
        law_without_limit_nothing_is_skipped(conversion, board, events.drop_last());
    }
}

/// Until the conversion ends, the dialog stays as it was. When it has ended, the
/// closing line is the last of the log, and the files that were left out, if any, are
/// shown; if there are none, the dialog still stays as it was.
pub proof fn law_end_shows_what_was_skipped(
    conversion: ConversionView,
    board: BoardView,
    events: Seq<Event>,
)
    requires
        conversion.wf(),
        !(conversion.stage is Finished),
    ensures
        ({
            let (c, b) = run(conversion, board, events);
            &&& c.wf()
            &&& !(c.stage is Finished) ==> b.show_skip_dialog == board.show_skip_dialog
            &&& c.stage is Finished ==> {
                &&& b.show_skip_dialog == (board.show_skip_dialog || b.skipped.len() > 0)
                &&& b.log.len() > 0
                &&& b.log.last() == board::completion_line()
                &&& !b.converting
            }
        }),
    decreases events.len(),
{
    if events.len() > 0 {
        law_end_shows_what_was_skipped(conversion, board, events.drop_last());
    }
}

/// Whether `skipped` are the files at the positions `at`, which go up and stay
/// below `end`.
pub open spec fn are_files_at(
    skipped: Seq<(Seq<char>, Seq<char>)>,
    files: Seq<Seq<char>>,
    at: Seq<int>,
    end: int,
) -> bool {
    &&& at.len() == skipped.len()
    &&& forall|i: int| 0 <= i < at.len() ==> 0 <= #[trigger] at[i] < end
    &&& forall|i: int, j: int| 0 <= i < j < at.len() ==> #[trigger] at[i] < #[trigger] at[j]
    &&& forall|i: int| 0 <= i < at.len() ==> files[#[trigger] at[i]] == skipped[i].0
}

/// The files that are listed as left out are files of the conversion, in their
/// order, each at most once, and dealt with already.
pub proof fn law_skipped_files_keep_their_order(
    conversion: ConversionView,
    board: BoardView,
    events: Seq<Event>,
) -> (at: Seq<int>)
    requires
        conversion.wf(),
        board.skipped.len() == 0,
    ensures
        ({
            let (c, b) = run(conversion, board, events);
            &&& c.wf()
            &&& c.files == conversion.files
            &&& are_files_at(b.skipped, conversion.files, at, c.index as int)
            &&& c.index <= conversion.files.len()
        }),
    decreases events.len(),
{
    if events.len() == 0 {
        Seq::empty()
    } else {
        let at = law_skipped_files_keep_their_order(conversion, board, events.drop_last());
        let (c, b) = run(conversion, board, events.drop_last());
        let after = c.board_after(b, events.last());
        if after.skipped.len() > b.skipped.len() {
            assert(after.skipped.drop_last() == b.skipped);
            at.push(c.index as int)
        } else {
            assert(after.skipped == b.skipped);
            at
        }
    }
}

/// What is to be done outside is done with the file at the position that the conversion
/// has reached, and with no other: its folder is made unless one was chosen, its length
/// is asked for, and it is what `ffmpeg` reads, while the chosen output is what it
/// writes.
pub proof fn law_each_action_is_about_its_own_file(
    conversion: ConversionView,
    platform: Platform,
    output: Seq<char>,
)
    requires
        conversion.index < conversion.files.len(),
    ensures
        ({
            let file = conversion.files[conversion.index as int];
            let action = conversion.pending_action(platform);
            &&& conversion.stage is MakingFolder ==> action == ActionView::MakeFolder(
                if conversion.output_dir is Some {
                    conversion.output_dir->0
                } else if paths::folder_of_path(platform, file) is Some {
                    paths::folder_of_path(platform, file)->0
                } else {
                    "."@
                },
            )
            &&& conversion.stage is Measuring ==> {
                &&& action matches ActionView::MeasureLength(args)
                &&& args.len() == 3
                &&& args[0] == "-hide_banner"@
                &&& args[1] == "-i"@
                &&& args[2] == native::shown(file)
            }
            &&& conversion.stage is ChoosingOutput ==> action is ChooseOutput
            &&& conversion.stage == StageView::Running(output) ==> {
                &&& action matches ActionView::Run(args)
                &&& args.len() >= 4
                &&& args[0] == "-y"@
                &&& args[1] == "-i"@
                &&& args[2] == native::shown(file)
                &&& args.last() == native::shown(output)
                &&& args == conversion.preset.arguments(native::shown(file), native::shown(output))
            }
            &&& conversion.stage is Finished ==> action is Done
        }),
{
}

/// A conversion that is begun has the files, the preset, the folder and the `ffmpeg` that
/// it was given. Whatever happens, it keeps them; and each run of `ffmpeg` reads the file
/// whose turn it is, the one behind as many files as the board counts as dealt with.
pub proof fn law_batch_goes_through_the_list(
    files: Seq<Seq<char>>,
    preset: Preset,
    output_dir: Option<Seq<char>>,
    ffmpeg_path: Seq<char>,
    board: BoardView,
    events: Seq<Event>,
    platform: Platform,
    output: Seq<char>,
)
    requires
        files.len() > 0,
    ensures
        ({
            let begun = ConversionView::begun(files, preset, output_dir, ffmpeg_path);
            let (c, b) = run(begun, board.begun(files.len()), events);
            &&& begun.index == 0
            &&& begun.stage is MakingFolder
            &&& c.files == files
            &&& c.preset == preset
            &&& c.output_dir == output_dir
            &&& c.ffmpeg_path == ffmpeg_path
            &&& c.index <= files.len()
            &&& b.done == c.index
            &&& b.total == files.len()
            &&& b.converting == !(c.stage is Finished)
            &&& c.stage is Finished <==> c.index == files.len()
            &&& c.stage == StageView::Running(output) ==> {
                &&& c.pending_action(platform) matches ActionView::Run(args)
                &&& args[2] == native::shown(files[b.done as int])
                &&& args.last() == native::shown(output)
            }
        }),
{
    let begun = ConversionView::begun(files, preset, output_dir, ffmpeg_path);
    law_run_stays_in_step(begun, board.begun(files.len()), events);
    let c = run(begun, board.begun(files.len()), events).0;
    if c.index < files.len() {
        law_each_action_is_about_its_own_file(c, platform, output);
    }
}

/// A conversion of no files is at its end from the start.
pub proof fn law_nothing_to_convert(
    preset: Preset,
    output_dir: Option<Seq<char>>,
    ffmpeg_path: Seq<char>,
)
    ensures
        ConversionView::begun(Seq::empty(), preset, output_dir, ffmpeg_path).stage is Finished,
{
}

/// A file is left behind when its folder cannot be made, when it is left out, or when
/// `ffmpeg` has ended; then the next one follows, or the end. No other event moves the
/// conversion to another file.
pub proof fn law_files_follow_one_another(conversion: ConversionView, event: Event)
    requires
        conversion.wf(),
    ensures
        ({
            let after = conversion.after(event);
            let left_out = {
                &&& event matches Event::Measured(length)
                &&& conversion.preset.duration_limit() matches Some(limit)
                &&& match length {
                    None => true,
                    Some(length) => length.whole_seconds > limit || (length.whole_seconds == limit
                        && length.has_fraction),
                }
            };
            let closed = {
                ||| conversion.stage is MakingFolder && event is FolderFailed
                ||| conversion.stage is Measuring && left_out
                ||| conversion.stage is Running && event is Ended
            };
            &&& closed ==> after.index == conversion.index + 1 && if conversion.index + 1
                == conversion.files.len() {
                after.stage is Finished
            } else {
                after.stage is MakingFolder
            }
            &&& !closed ==> after.index == conversion.index
            &&& after.files == conversion.files
            &&& after.preset == conversion.preset
            &&& after.output_dir == conversion.output_dir
            &&& after.ffmpeg_path == conversion.ffmpeg_path
        }),
{
}

/// Only the answer to the pending action counts: a folder that is made or not, a length
/// where one is asked for, an output where one is to be chosen, the end of `ffmpeg` where
/// it runs. Any other event changes neither conversion nor board.
pub proof fn law_only_answers_count(conversion: ConversionView, board: BoardView, event: Event)
    requires
        conversion.stage is MakingFolder ==> !(event is FolderReady) && !(event is FolderFailed),
        conversion.stage is Measuring ==> !(event is Measured),
        conversion.stage is ChoosingOutput ==> !(event is OutputChosen),
        conversion.stage is Running ==> !(event is Ended),
    ensures
        conversion.after(event) == conversion,
        conversion.board_after(board, event) == board,
        !conversion.awaits(event),
{
}

/// The output that is chosen is the one that `ffmpeg` is to write.
pub proof fn law_chosen_output_is_written(
    conversion: ConversionView,
    board: BoardView,
    output: String,
)
    requires
        conversion.stage is ChoosingOutput,
        conversion.index < conversion.files.len(),
    ensures
        ({
            let after = conversion.after(Event::OutputChosen(output));
            let logged = conversion.board_after(board, Event::OutputChosen(output));
            &&& after.stage == StageView::Running(output@)
            &&& after.index == conversion.index
            &&& logged.log.len() == board.log.len() + 1
            &&& logged.log.drop_last() == board.log
            &&& logged.log.last() == "["@ + text::decimal(conversion.index + 1) + "/"@
                + text::decimal(conversion.files.len()) + "] "@ + "変換: "@ + native::shown(
                conversion.files[conversion.index as int],
            )
            &&& logged.skipped == board.skipped
            &&& logged.done == board.done
            &&& logged.total == board.total
            &&& logged.converting == board.converting
            &&& logged.show_skip_dialog == board.show_skip_dialog
        }),
{
    assert(board.log.push(
        convert_line(
            conversion.index,
            conversion.files.len(),
            conversion.files[conversion.index as int],
        ),
    ).drop_last() == board.log);
}

/// A folder that is made leads on to the measurement if the preset has a limit, and
/// otherwise to the choice of the output; the board does not change.
pub proof fn law_folder_leads_on(conversion: ConversionView, board: BoardView)
    requires
        conversion.stage is MakingFolder,
    ensures
        conversion.preset.duration_limit() is Some ==> conversion.after(Event::FolderReady).stage
            is Measuring,
        conversion.preset.duration_limit() is None ==> conversion.after(Event::FolderReady).stage
            is ChoosingOutput,
        conversion.board_after(board, Event::FolderReady) == board,
{
}

/// Under a limit, a recording whose length is known and at most the limit goes on to be
/// converted, and nothing is listed or logged.
pub proof fn law_recordings_within_the_limit_go_on(
    conversion: ConversionView,
    board: BoardView,
    length: AudioLength,
    limit: u64,
)
    requires
        conversion.stage is Measuring,
        conversion.preset.duration_limit() == Some(limit),
        length.whole_seconds < limit || (length.whole_seconds == limit && !length.has_fraction),
    ensures
        ({
            let event = Event::Measured(Some(length));
            &&& conversion.after(event).stage is ChoosingOutput
            &&& conversion.after(event).index == conversion.index
            &&& conversion.board_after(board, event) == board
        }),
        skip_reason(limit, Some(length)) is None,
{
}

/// Under a limit, a recording that takes more, or whose length is unknown, is left out:
/// it is listed last, by its path and with the reason, the log has a line more that tells
/// both, and it counts as dealt with. Behind the last file the closing line follows, and
/// the list is shown.
pub proof fn law_recordings_over_the_limit_are_left_out(
    conversion: ConversionView,
    board: BoardView,
    length: Option<AudioLength>,
    limit: u64,
)
    requires
        conversion.stage is Measuring,
        conversion.index < conversion.files.len(),
        conversion.preset.duration_limit() == Some(limit),
        length is Some ==> (length->0.whole_seconds > limit || (length->0.whole_seconds == limit
            && length->0.has_fraction)),
    ensures
        ({
            let file = conversion.files[conversion.index as int];
            let last = conversion.index + 1 == conversion.files.len();
            let event = Event::Measured(length);
            let after = conversion.after(event);
            let b = conversion.board_after(board, event);
            let reason = match length {
                Some(length) => duration::over_limit_text(
                    limit as nat,
                    length.whole_seconds as nat,
                    length.seconds_text@,
                ),
                None => "録音時間を取得できず安全のためスキップ"@,
            };
            let line = "["@ + text::decimal(conversion.index + 1) + "/"@ + text::decimal(
                conversion.files.len(),
            ) + "] "@ + "スキップ ("@ + reason + "): "@ + native::shown(file);
            &&& skip_reason(limit, length) == Some(reason)
            &&& last ==> after.stage is Finished
            &&& !last ==> after.stage is MakingFolder
            &&& after.index == conversion.index + 1
            &&& b.skipped == board.skipped + seq![(file, reason)]
            &&& last ==> b.log == board.log + seq![
                line,
                "── 全ファイルの処理が完了しました ──"@,
            ]
            &&& !last ==> b.log == board.log + seq![line]
            &&& b.done == conversion.index + 1
            &&& b.total == conversion.files.len()
            &&& b.converting == (board.converting && !last)
            &&& b.show_skip_dialog == (board.show_skip_dialog || last)
        }),
{
}

/// A folder that cannot be made is logged with the error, and the file counts as dealt
/// with; it is not listed as left out. Behind the last file the closing line follows.
pub proof fn law_folder_failure_is_logged(
    conversion: ConversionView,
    board: BoardView,
    error: String,
)
    requires
        conversion.stage is MakingFolder,
        conversion.index < conversion.files.len(),
    ensures
        ({
            let last = conversion.index + 1 == conversion.files.len();
            let event = Event::FolderFailed(error);
            let b = conversion.board_after(board, event);
            let line = "出力フォルダを作成できません: "@ + error@;
            &&& last ==> conversion.after(event).stage is Finished
            &&& !last ==> conversion.after(event).stage is MakingFolder
            &&& conversion.after(event).index == conversion.index + 1
            &&& last ==> b.log == board.log + seq![
                line,
                "── 全ファイルの処理が完了しました ──"@,
            ]
            &&& !last ==> b.log == board.log + seq![line]
            &&& b.skipped == board.skipped
            &&& b.done == conversion.index + 1
            &&& b.total == conversion.files.len()
            &&& b.converting == (board.converting && !last)
            &&& b.show_skip_dialog == (board.show_skip_dialog || (last && board.skipped.len() > 0))
        }),
{
}

/// A run of `ffmpeg` that has ended is logged: with the output if it succeeded, with the
/// last line of its complaints if it failed, with the error if it could not be started.
/// The file counts as dealt with, however it went. Behind the last file the closing line
/// follows.
pub proof fn law_end_of_ffmpeg_is_logged(
    conversion: ConversionView,
    board: BoardView,
    output: Seq<char>,
    outcome: RunOutcome,
)
    requires
        conversion.stage == StageView::Running(output),
        conversion.index < conversion.files.len(),
    ensures
        ({
            let last = conversion.index + 1 == conversion.files.len();
            let event = Event::Ended(outcome);
            let b = conversion.board_after(board, event);
            let line = b.log[board.log.len() as int];
            &&& last ==> conversion.after(event).stage is Finished
            &&& !last ==> conversion.after(event).stage is MakingFolder
            &&& conversion.after(event).index == conversion.index + 1
            &&& outcome is Succeeded ==> line == "  ✓ 出力: "@ + native::shown(output)
            &&& outcome matches RunOutcome::Failed(stderr) ==> line == "  ✗ 失敗: "@
                + last_message(text::lines_of(stderr@))
            &&& outcome matches RunOutcome::NotStarted(error) ==> line
                == "  ✗ ffmpeg を実行できません: "@ + error@ + " (パス確認)"@
            &&& last ==> b.log == board.log + seq![
                line,
                "── 全ファイルの処理が完了しました ──"@,
            ]
            &&& !last ==> b.log == board.log + seq![line]
            &&& b.skipped == board.skipped
            &&& b.done == conversion.index + 1
            &&& b.total == conversion.files.len()
            &&& b.converting == (board.converting && !last)
            &&& b.show_skip_dialog == (board.show_skip_dialog || (last && board.skipped.len() > 0))
        }),
{
}

/// The message of a failed run is its last line that is not blank, whatever stands in
/// front of it; where every line is blank, it says that nothing is known.
pub proof fn law_last_line_that_is_not_blank(
    before: Seq<Seq<char>>,
    message: Seq<char>,
    blank: Seq<Seq<char>>,
)
    requires
        text::trimmed(message).len() > 0,
        forall|i: int| 0 <= i < blank.len() ==> text::trimmed(#[trigger] blank[i]).len() == 0,
    ensures
        last_message(before + seq![message] + blank) == message,
        last_message(blank) == "(詳細不明)"@,
    decreases blank.len(),
{
    let lines = before + seq![message] + blank;
    if blank.len() == 0 {
        assert(lines.last() == message);
    } else {
        let rest = blank.drop_last();
        assert forall|i: int| 0 <= i < rest.len() implies text::trimmed(
            #[trigger] rest[i],
        ).len() == 0 by {
            assert(rest[i] == blank[i]);
        }
        law_last_line_that_is_not_blank(before, message, rest);
        assert(blank.last() == blank[blank.len() - 1]);
        assert(lines.last() == blank.last());
        assert(lines.drop_last() == before + seq![message] + rest);
    }
}

/// On Unix the output of the file whose turn it is, with an ordinary path, is named after
/// that file and the time, and lies in the chosen folder or else in the folder of that
/// file; it is a path that was called free.
pub proof fn law_output_is_named_after_its_input<F: Fn(&str) -> bool>(
    conversion: ConversionView,
    folder: Seq<char>,
    base: Seq<char>,
    extension: Seq<char>,
    stamp: Seq<char>,
    exists_fn: F,
    path: Seq<char>,
) -> (mark: Seq<char>)
    requires
        conversion.index < conversion.files.len(),
        conversion.files[conversion.index as int] == folder + seq!['/'] + (base + seq!['.']
            + extension),
        base.len() > 0,
        forall|i: int| 0 <= i < base.len() ==> #[trigger] base[i] != '/',
        forall|i: int|
            0 <= i < extension.len() ==> #[trigger] extension[i] != '/' && extension[i] != '.',
        base != seq!['.'] || extension.len() > 0,
        folder.len() > 0,
        folder.last() != '/',
        folder != seq!['.'],
        folder.len() > 1 ==> folder.last() != '.' || folder[folder.len() - 2] != '/',
        conversion.is_output_choice(Platform::Unix, stamp, exists_fn, Some(path)),
    ensures
        output::is_number_mark(mark),
        ({
            let name = native::path_of(
                native::shown(base) + "_"@ + stamp + mark + "."@
                    + conversion.preset.extension_text(),
            );
            &&& conversion.output_dir is None ==> path == folder + seq!['/'] + name
            &&& conversion.output_dir matches Some(chosen) ==> path == if chosen.len() == 0
                || chosen.last() == '/' {
                chosen + name
            } else {
                chosen + seq!['/'] + name
            }
        }),
        exists|p: &str| p@ == path && #[trigger] call_ensures(exists_fn, (p,), false),
{
    paths::law_taken_apart_on_unix(folder, base, extension);
    let stem = native::shown(base);
    let ext = conversion.preset.extension_text();
    let target = conversion.folder(Platform::Unix);
    let mark = output::law_choice_is_free_and_named(
        Platform::Unix,
        target,
        conversion.stem(Platform::Unix),
        stamp,
        ext,
        exists_fn,
        path,
    );
    assert(conversion.stem(Platform::Unix) == stem);
    let name = stem + "_"@ + stamp + mark + "."@ + ext;
    lemma_not_rooted(base, stamp, mark, ext);
    paths::law_joined_on_unix(target, native::path_of(name));
    mark
}

/// The same of an output that is chosen by what is on disk.
pub proof fn law_output_on_disk_is_named_after_its_input<F: Fn(&str) -> bool>(
    conversion: ConversionView,
    folder: Seq<char>,
    base: Seq<char>,
    extension: Seq<char>,
    stamp: Seq<char>,
    ask: &F,
    path: Seq<char>,
) -> (mark: Seq<char>)
    requires
        conversion.index < conversion.files.len(),
        conversion.files[conversion.index as int] == folder + seq!['/'] + (base + seq!['.']
            + extension),
        base.len() > 0,
        forall|i: int| 0 <= i < base.len() ==> #[trigger] base[i] != '/',
        forall|i: int|
            0 <= i < extension.len() ==> #[trigger] extension[i] != '/' && extension[i] != '.',
        base != seq!['.'] || extension.len() > 0,
        folder.len() > 0,
        folder.last() != '/',
        folder != seq!['.'],
        folder.len() > 1 ==> folder.last() != '.' || folder[folder.len() - 2] != '/',
        conversion.is_disk_choice(Platform::Unix, stamp, ask, Some(path)),
    ensures
        output::is_number_mark(mark),
        ({
            let name = native::path_of(
                native::shown(base) + "_"@ + stamp + mark + "."@
                    + conversion.preset.extension_text(),
            );
            &&& conversion.output_dir is None ==> path == folder + seq!['/'] + name
            &&& conversion.output_dir matches Some(chosen) ==> path == if chosen.len() == 0
                || chosen.last() == '/' {
                chosen + name
            } else {
                chosen + seq!['/'] + name
            }
        }),
        native::is_text(path) ==> output::disk_answers(native::shown(path), false),
        !native::is_text(path) ==> exists|p: &str|
            p@ == path && #[trigger] call_ensures(*ask, (p,), false),
{
    paths::law_taken_apart_on_unix(folder, base, extension);
    let stem = native::shown(base);
    let ext = conversion.preset.extension_text();
    let target = conversion.folder(Platform::Unix);
    let mark = output::law_disk_choice_is_free_and_named(
        Platform::Unix,
        target,
        conversion.stem(Platform::Unix),
        stamp,
        ext,
        ask,
        path,
    );
    assert(conversion.stem(Platform::Unix) == stem);
    let name = stem + "_"@ + stamp + mark + "."@ + ext;
    lemma_not_rooted(base, stamp, mark, ext);
    paths::law_joined_on_unix(target, native::path_of(name));
    mark
}

/// On any platform, and whatever the path, the output goes to the chosen folder, or to
/// the folder of the file whose turn it is, or else to the current one; and its name
/// begins with the stem of that file as it is shown, or with its position where it has
/// none.
pub proof fn law_output_follows_its_input<F: Fn(&str) -> bool>(
    conversion: ConversionView,
    platform: Platform,
    stamp: Seq<char>,
    exists_fn: F,
    path: Seq<char>,
) -> (mark: Seq<char>)
    requires
        conversion.index < conversion.files.len(),
        conversion.is_output_choice(platform, stamp, exists_fn, Some(path)),
    ensures
        output::is_number_mark(mark),
        ({
            let file = conversion.files[conversion.index as int];
            let target = if conversion.output_dir is Some {
                conversion.output_dir->0
            } else if paths::folder_of_path(platform, file) is Some {
                paths::folder_of_path(platform, file)->0
            } else {
                "."@
            };
            let stem = if paths::name_stem_of_path(platform, file) is Some {
                native::shown(paths::name_stem_of_path(platform, file)->0)
            } else {
                "output_"@ + text::decimal(conversion.index)
            };
            path == paths::joined_path(
                platform,
                target,
                native::path_of(
                    stem + "_"@ + stamp + mark + "."@ + conversion.preset.extension_text(),
                ),
            )
        }),
{
    output::law_choice_is_free_and_named(
        platform,
        conversion.folder(platform),
        conversion.stem(platform),
        stamp,
        conversion.preset.extension_text(),
        exists_fn,
        path,
    )
}

proof fn lemma_not_rooted(
    base: Seq<char>,
    stamp: Seq<char>,
    mark: Seq<char>,
    ext: Seq<char>,
)
    requires
        forall|i: int| 0 <= i < base.len() ==> #[trigger] base[i] != '/',
    ensures
        ({
            let name = native::path_of(native::shown(base) + "_"@ + stamp + mark + "."@ + ext);
            name.len() > 0 && name[0] != '/'
        }),
{
    reveal_strlit("_");
    let stem = native::shown(base);
    let name = stem + "_"@ + stamp + mark + "."@ + ext;
    native::lemma_shown_characters_are_written(base, '/');
    native::lemma_path_begins_as_text(name);
    if stem.len() > 0 {
        assert(name[0] == stem[0]);
    } else {
        assert(name[0] == '_');
    }
}

} // verus!
