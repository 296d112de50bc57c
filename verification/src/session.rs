//! What the user has set up: the files to convert, the format, the folder for
//! the output and the `ffmpeg` to run.

use vstd::prelude::*;
use vstd::string::*;
use crate::board;
use crate::board::Board;
use crate::conversion::Conversion;
use crate::conversion::ConversionView;
use crate::ffmpeg;
use crate::native;
use crate::output;
use crate::paths;
use crate::paths::Host;
use crate::paths::Platform;
use crate::preset::Preset;
use crate::text;

verus! {

/// The settings of the window.
pub struct Session {
    /// The files to convert, each path written as [`native`](crate::native) has it.
    pub files: Vec<String>,
    pub preset: Preset,
    /// The folder for the output, written likewise; `None` for the folder of each input.
    pub output_dir: Option<String>,
    /// The path to `ffmpeg`, as the user types it.
    pub ffmpeg_path: String,
}

/// The contents of a session.
#[verifier::ext_equal]
pub struct SessionView {
    pub files: Seq<Seq<char>>,
    pub preset: Preset,
    pub output_dir: Option<Seq<char>>,
    pub ffmpeg_path: Seq<char>,
}

impl View for Session {
    type V = SessionView;

    open spec fn view(&self) -> SessionView {
        SessionView {
            files: text::texts(self.files@),
            preset: self.preset,
            output_dir: text::optional_text(self.output_dir),
            ffmpeg_path: self.ffmpeg_path@,
        }
    }
}

/// Whether `path` names a file that is in `files` already.
pub open spec fn is_listed(platform: Platform, files: Seq<Seq<char>>, path: Seq<char>) -> bool {
    exists|i: int| 0 <= i < files.len() && paths::same_path(platform, #[trigger] files[i], path)
}

/// `files` with `path` behind them, unless it is there already.
pub open spec fn with_file(platform: Platform, files: Seq<Seq<char>>, path: Seq<char>) -> Seq<
    Seq<char>,
> {
    if is_listed(platform, files, path) {
        files
    } else {
        files.push(path)
    }
}

/// `files` with each of `paths` in turn, unless it is there already.
pub open spec fn with_files(
    platform: Platform,
    files: Seq<Seq<char>>,
    paths: Seq<Seq<char>>,
) -> Seq<Seq<char>>
    decreases paths.len(),
{
    if paths.len() == 0 {
        files
    } else {
        with_file(platform, with_files(platform, files, paths.drop_last()), paths.last())
    }
}

/// Whether no file stands in the list twice.
pub open spec fn no_repeats(platform: Platform, files: Seq<Seq<char>>) -> bool {
    forall|i: int, j: int|
        0 <= i < j < files.len() ==> !paths::same_path(
            platform,
            #[trigger] files[i],
            #[trigger] files[j],
        )
}

/// The extensions of the files that the file dialog offers.
pub fn audio_extensions() -> (r: Vec<&'static str>)
    ensures
        r@.map_values(|ext: &'static str| ext@) == seq![
            "wav"@,
            "mp3"@,
            "aac"@,
            "m4a"@,
            "ogg"@,
            "flac"@,
            "wma"@,
            "amr"@,
            "au"@,
        ],
{
    vec!["wav", "mp3", "aac", "m4a", "ogg", "flac", "wma", "amr", "au"]
}

/// Adds `candidate` to `files`, unless it names a file that is there already.
pub fn add_file_if_new(platform: Platform, files: &mut Vec<String>, candidate: String)
    ensures
        text::texts(final(files)@) == with_file(platform, text::texts(old(files)@), candidate@),
        no_repeats(platform, text::texts(old(files)@)) ==> no_repeats(
            platform,
            text::texts(final(files)@),
        ),
        final(files)@ == old(files)@ || final(files)@ == old(files)@.push(candidate),
{
    let ghost all = text::texts(files@);
    for i in 0..files.len()
        invariant
            all == text::texts(files@),
            *files == *old(files),
            forall|j: int| 0 <= j < i ==> !paths::same_path(platform, #[trigger] all[j], candidate@),
    {
        if paths::paths_equal(platform, files[i].as_str(), candidate.as_str()) {
            assert(paths::same_path(platform, all[i as int], candidate@));
            return;
        }
    }
    files.push(candidate);
    assert(text::texts(files@) == all.push(candidate@));
}

impl SessionView {
    /// The session to begin with.
    pub open spec fn initial(ffmpeg_path: Seq<char>) -> SessionView {
        SessionView {
            files: Seq::empty(),
            preset: Preset::TakacomMuLaw,
            output_dir: None,
            ffmpeg_path,
        }
    }

    /// With another list of files.
    pub open spec fn with_list(self, files: Seq<Seq<char>>) -> SessionView {
        SessionView { files, ..self }
    }

    /// With another path to `ffmpeg`.
    pub open spec fn with_ffmpeg(self, ffmpeg_path: Seq<char>) -> SessionView {
        SessionView { ffmpeg_path, ..self }
    }

    /// Whether a conversion can be started: there is a file, there is a path to
    /// `ffmpeg`, and none is running.
    pub open spec fn is_ready(self, converting: bool) -> bool {
        self.files.len() > 0 && !converting && text::trimmed(self.ffmpeg_path).len() > 0
    }
}

impl Session {
    /// The session to begin with.
    pub fn new(ffmpeg_path: String) -> (r: Session)
        ensures
            r@ == SessionView::initial(ffmpeg_path@),
    {
        let r = Session {
            files: Vec::new(),
            preset: Preset::TakacomMuLaw,
            output_dir: None,
            ffmpeg_path,
        };
        assert(r@.files == Seq::<Seq<char>>::empty());
        r
    }

    /// Adds the files that were picked, each unless it is in the list already.
    pub fn add_files(&mut self, platform: Platform, picked: Vec<String>)
        ensures
            final(self)@ == old(self)@.with_list(
                with_files(platform, old(self)@.files, text::texts(picked@)),
            ),
            no_repeats(platform, old(self)@.files) ==> no_repeats(platform, final(self)@.files),
            old(self)@.files.len() <= final(self)@.files.len(),
            final(self)@.files.take(old(self)@.files.len() as int) == old(self)@.files,
            forall|i: int|
                0 <= i < picked@.len() ==> exists|j: int|
                    0 <= j < final(self)@.files.len() && paths::same_path(
                        platform,
                        #[trigger] final(self)@.files[j],
                        #[trigger] picked@[i]@,
                    ),
    {
        let ghost all = text::texts(picked@);
        let ghost before = self@;
        assert(all.take(0) == Seq::<Seq<char>>::empty());
        for i in 0..picked.len()
            invariant
                all == text::texts(picked@),
                self@ == before.with_list(with_files(platform, before.files, all.take(i as int))),
        {
            assert(all.take(i + 1).drop_last() == all.take(i as int));
            add_file_if_new(platform, &mut self.files, picked[i].clone());
        }
        assert(all.take(all.len() as int) == all);
        proof {
            let at = law_picked_files_join_the_list(platform, before.files, all);
            assert forall|i: int| 0 <= i < picked@.len() implies exists|j: int|
                0 <= j < self@.files.len() && paths::same_path(
                    platform,
                    #[trigger] self@.files[j],
                    #[trigger] picked@[i]@,
                ) by {
                assert(all[i] == picked@[i]@);
                let list = with_files(platform, before.files, all);
                let j = choose|j: int|
                    0 <= j < list.len() && paths::same_path(platform, #[trigger] list[j], all[i]);
                assert(self@.files[j] == list[j]);
            }
            if no_repeats(platform, before.files) {
                law_adding_many_repeats_nothing(platform, before.files, all);
            }
        }
    }

    /// Takes something that was dropped on the window. A file goes into the list;
    /// a folder does not, since `ffmpeg` could not convert it, and the log says so.
    pub fn receive_drop(
        &mut self,
        board: &mut Board,
        platform: Platform,
        path: String,
        is_folder: bool,
    )
        ensures
            is_folder ==> final(self)@ == old(self)@ && final(board)@ == old(board)@.logged(
                board::dropped_folder_line(path@),
            ),
            !is_folder ==> final(board)@ == old(board)@ && final(self)@ == old(self)@.with_list(
                with_file(platform, old(self)@.files, path@),
            ),
            no_repeats(platform, old(self)@.files) ==> no_repeats(platform, final(self)@.files),
    {
        if is_folder {
            board.push_log(
                "フォルダはドロップできません(中のファイルを個別にドロップしてください): ".to_owned().concat(
                    native::shown_text(path.as_str()).as_str(),
                ),
            );
        } else {
            add_file_if_new(platform, &mut self.files, path);
        }
    }

    /// Takes the file at `index` off the list.
    pub fn remove_file(&mut self, index: usize)
        requires
            index < old(self).files@.len(),
        ensures
            final(self)@ == old(self)@.with_list(old(self)@.files.remove(index as int)),
    {
        let ghost before = self@;
        self.files.remove(index);
        assert(self@.files == before.files.remove(index as int));
    }

    /// Takes all files off the list.
    pub fn clear_files(&mut self)
        ensures
            final(self)@ == old(self)@.with_list(Seq::empty()),
    {
        self.files.clear();
        assert(self@.files == Seq::<Seq<char>>::empty());
    }

    /// How many files are in the list.
    pub fn selection_text(&self) -> (r: String)
        ensures
            r@ == "選択中: "@ + text::decimal(self@.files.len()) + " 件"@,
    {
        "選択中: ".to_owned().concat(text::decimal_text(self.files.len() as u64).as_str()).concat(
            " 件",
        )
    }

    /// The folder for the output, as the window shows it.
    pub fn output_dir_text(&self) -> (r: String)
        ensures
            r@ == match self@.output_dir {
                Some(folder) => native::shown(folder),
                None => "(入力ファイルと同じ場所)"@,
            },
    {
        match &self.output_dir {
            Some(folder) => native::shown_text(folder.as_str()),
            None => "(入力ファイルと同じ場所)".to_owned(),
        }
    }

    /// Takes the `ffmpeg` that was picked, as it is shown, and logs it.
    pub fn pick_ffmpeg(&mut self, board: &mut Board, path: String)
        ensures
            final(self)@ == old(self)@.with_ffmpeg(native::shown(path@)),
            final(board)@ == old(board)@.logged("ffmpeg を設定: "@ + native::shown(path@)),
    {
        let shown = native::shown_text(path.as_str());
        board.push_log("ffmpeg を設定: ".to_owned().concat(shown.as_str()));
        self.ffmpeg_path = shown;
    }

    /// Goes back to the default `ffmpeg`, whatever is saved, and logs it.
    pub fn restore_default_ffmpeg<F: Fn(&str) -> bool>(
        &mut self,
        board: &mut Board,
        host: &Host,
        exe_dir: Option<&str>,
        exists_fn: &F,
    )
        requires
            output::answers_all(*exists_fn),
        ensures
            ffmpeg::is_default_path(
                host.system(),
                text::optional_str(exe_dir),
                *exists_fn,
                final(self)@.ffmpeg_path,
            ),
            final(self)@ == old(self)@.with_ffmpeg(final(self)@.ffmpeg_path),
            final(self)@.ffmpeg_path.len() > 0,
            final(board)@ == old(board)@.logged(
                "ffmpeg を既定値に戻しました: "@ + final(self)@.ffmpeg_path,
            ),
    {
        let path = ffmpeg::detect_default_ffmpeg_path(host, exe_dir, exists_fn);
        board.push_log("ffmpeg を既定値に戻しました: ".to_owned().concat(path.as_str()));
        self.ffmpeg_path = path;
    }

    /// Whether a conversion can be started.
    pub fn can_convert(&self, converting: bool) -> (r: bool)
        ensures
            r == self@.is_ready(converting),
    {
        self.files.len() > 0 && !converting && !text::trim(self.ffmpeg_path.as_str()).is_empty()
    }

    /// Starts the conversion of the files in the list, unless one is running on
    /// `board`. What is changed here later does not touch it.
    pub fn start_conversion(&self, board: &mut Board) -> (r: Option<Conversion>)
        ensures
            r is None <==> old(board).converting,
            match r {
                None => *final(board) == *old(board),
                Some(conversion) => {
                    &&& conversion@ == ConversionView::begun(
                        self@.files,
                        self@.preset,
                        self@.output_dir,
                        self@.ffmpeg_path,
                    )
                    &&& conversion@.wf()
                    &&& text::texts(conversion.files@) == text::texts(self.files@)
                    &&& conversion.preset == self.preset
                    &&& conversion.ffmpeg_path@ == self.ffmpeg_path@
                    &&& final(board)@ == if self@.files.len() == 0 {
                        old(board)@.begun(0).finished()
                    } else {
                        old(board)@.begun(self@.files.len())
                    }
                },
            },
    {
        let mut files: Vec<String> = Vec::new();
        for i in 0..self.files.len()
            invariant
                text::texts(files@) == self@.files.take(i as int),
        {
            let ghost before = files@;
            files.push(self.files[i].clone());
            assert(text::texts(files@) == text::texts(before).push(self@.files[i as int]));
            assert(self@.files.take(i + 1) == self@.files.take(i as int).push(
                self@.files[i as int],
            ));
        }
        assert(self@.files.take(self@.files.len() as int) == self@.files);
        assert(text::texts(files@).len() == files@.len());
        let output_dir = match &self.output_dir {
            Some(folder) => Some(folder.clone()),
            None => None,
        };
        Conversion::start(board, files, self.preset, output_dir, self.ffmpeg_path.clone())
    }
}

/// A list in which no file stands twice stays so when a file is added, whatever
/// path the file is given by.
pub proof fn law_adding_repeats_nothing(
    platform: Platform,
    files: Seq<Seq<char>>,
    path: Seq<char>,
)
    requires
        no_repeats(platform, files),
    ensures
        no_repeats(platform, with_file(platform, files, path)),
{
}

/// A list in which no file stands twice stays so when files are added.
pub proof fn law_adding_many_repeats_nothing(
    platform: Platform,
    files: Seq<Seq<char>>,
    picked: Seq<Seq<char>>,
)
    requires
        no_repeats(platform, files),
    ensures
        no_repeats(platform, with_files(platform, files, picked)),
    decreases picked.len(),
{
    if picked.len() > 0 {
        law_adding_many_repeats_nothing(platform, files, picked.drop_last());
        law_adding_repeats_nothing(
            platform,
            with_files(platform, files, picked.drop_last()),
            picked.last(),
        );
    }
}

/// A list in which no file stands twice stays so when one is taken off.
pub proof fn law_removing_repeats_nothing(platform: Platform, files: Seq<Seq<char>>, index: int)
    requires
        no_repeats(platform, files),
        0 <= index < files.len(),
    ensures
        no_repeats(platform, files.remove(index)),
{
    let rest = files.remove(index);
    assert forall|i: int, j: int| 0 <= i < j < rest.len() implies !paths::same_path(
        platform,
        #[trigger] rest[i],
        #[trigger] rest[j],
    ) by {
        let a = if i < index {
            i
        } else {
            i + 1
        };
        let b = if j < index {
            j
        } else {
            j + 1
        };
        assert(rest[i] == files[a] && rest[j] == files[b]);
    }
}

/// A file that was added is in the list, behind those that were there, and adding
/// it again under any path that names it changes nothing.
pub proof fn law_added_file_is_listed(
    platform: Platform,
    files: Seq<Seq<char>>,
    path: Seq<char>,
    again: Seq<char>,
)
    requires
        paths::same_path(platform, path, again),
    ensures
        files.is_prefix_of(with_file(platform, files, path)),
        is_listed(platform, with_file(platform, files, path), path),
        with_file(platform, with_file(platform, files, path), again) == with_file(
            platform,
            files,
            path,
        ),
{
    let list = with_file(platform, files, path);
    paths::law_same_path_is_an_equivalence(platform, path, path, path);
    if is_listed(platform, files, path) {
        let i = choose|i: int|
            0 <= i < files.len() && paths::same_path(platform, #[trigger] files[i], path);
        paths::law_same_path_is_an_equivalence(platform, files[i], path, again);
        assert(paths::same_path(platform, list[i], again));
        assert(files.take(files.len() as int) == files);
    } else {
        assert(paths::same_path(platform, list[files.len() as int], path));
        assert(paths::same_path(platform, list[files.len() as int], again));
        assert(list.take(files.len() as int) == files);
    }
}

/// Picked files join the list: the files that were there stay, in front and in their
/// order; every picked path names a file in the new list; what stands behind the old
/// files are picked paths, in the order in which they were picked, each the first of
/// those that name its file; and none of them names a file that stands in front of it.
pub proof fn law_picked_files_join_the_list(
    platform: Platform,
    files: Seq<Seq<char>>,
    picked: Seq<Seq<char>>,
) -> (at: Seq<int>)
    ensures
        ({
            let list = with_files(platform, files, picked);
            let n = files.len() as int;
            &&& list.len() == n + at.len()
            &&& list.take(n) == files
            &&& forall|i: int| 0 <= i < picked.len() ==> exists|j: int|
                0 <= j < list.len() && paths::same_path(platform, #[trigger] list[j], #[trigger] picked[i])
            &&& forall|k: int|
                0 <= k < at.len() ==> 0 <= #[trigger] at[k] < picked.len() && list[n + k]
                    == picked[at[k]]
            &&& forall|k: int, l: int| 0 <= k < l < at.len() ==> #[trigger] at[k] < #[trigger] at[l]
            &&& forall|k: int, i: int|
                0 <= k < at.len() && 0 <= i < #[trigger] at[k] ==> !paths::same_path(
                    platform,
                    #[trigger] picked[i],
                    picked[at[k]],
                )
            &&& forall|i: int, j: int|
                0 <= i < j < list.len() && n <= j ==> !paths::same_path(
                    platform,
                    #[trigger] list[i],
                    #[trigger] list[j],
                )
        }),
    decreases picked.len(),
{
    let list = with_files(platform, files, picked);
    let n = files.len() as int;
    if picked.len() == 0 {
        assert(files.take(n) == files);
        Seq::empty()
    } else {
        let front = picked.drop_last();
        let last = picked.last();
        let m = picked.len() - 1;
        let before = with_files(platform, files, front);
        let at = law_picked_files_join_the_list(platform, files, front);
        assert forall|i: int| 0 <= i < m implies exists|j: int|
            0 <= j < before.len() && paths::same_path(
                platform,
                #[trigger] before[j],
                #[trigger] picked[i],
            ) by {
            assert(front[i] == picked[i]);
        }
        if is_listed(platform, before, last) {
            assert(list == before);
            assert(picked[m] == last);
            assert forall|k: int| 0 <= k < at.len() implies 0 <= #[trigger] at[k] < picked.len()
                && list[n + k] == picked[at[k]] by {
                assert(front[at[k]] == picked[at[k]]);
            }
            assert forall|k: int, i: int|
                0 <= k < at.len() && 0 <= i < #[trigger] at[k] implies !paths::same_path(
                platform,
                #[trigger] picked[i],
                picked[at[k]],
            ) by {
                assert(front[i] == picked[i] && front[at[k]] == picked[at[k]]);
            }
            at
        } else {
            assert(list == before.push(last));
            assert(list.take(n) == before.take(n));
            let longer = at.push(m);
            assert(list[before.len() as int] == last);
            assert(paths::same_path(platform, last, last));
            assert forall|i: int| 0 <= i < picked.len() implies exists|j: int|
                0 <= j < list.len() && paths::same_path(
                    platform,
                    #[trigger] list[j],
                    #[trigger] picked[i],
                ) by {
                if i < m {
                    let j = choose|j: int|
                        0 <= j < before.len() && paths::same_path(
                            platform,
                            #[trigger] before[j],
                            picked[i],
                        );
                    assert(list[j] == before[j]);
                } else {
                    assert(paths::same_path(platform, list[before.len() as int], picked[i]));
                }
            }
            assert forall|k: int| 0 <= k < longer.len() implies 0 <= #[trigger] longer[k]
                < picked.len() && list[n + k] == picked[longer[k]] by {
                if k < at.len() {
                    assert(longer[k] == at[k]);
                    assert(front[at[k]] == picked[at[k]]);
                    assert(list[n + k] == before[n + k]);
                }
            }
            assert forall|k: int, i: int|
                0 <= k < longer.len() && 0 <= i < #[trigger] longer[k] implies !paths::same_path(
                platform,
                #[trigger] picked[i],
                picked[longer[k]],
            ) by {
                if k < at.len() {
                    assert(longer[k] == at[k]);
                    assert(front[i] == picked[i] && front[at[k]] == picked[at[k]]);
                } else {
                    let j = choose|j: int|
                        0 <= j < before.len() && paths::same_path(
                            platform,
                            #[trigger] before[j],
                            picked[i],
                        );
                    paths::law_same_path_is_an_equivalence(platform, before[j], picked[i], last);
                    assert(!paths::same_path(platform, before[j], last));
                }
            }
            assert forall|i: int, j: int|
                0 <= i < j < list.len() && n <= j implies !paths::same_path(
                platform,
                #[trigger] list[i],
                #[trigger] list[j],
            ) by {
                assert(list[i] == before[i]);
                if j < before.len() {
                    assert(list[j] == before[j]);
                }
            }
            longer
        }
    }
}

/// A file that is not in the list goes behind those that are; one that is in the list,
/// under any path that names it, leaves the list as it is.
pub proof fn law_new_file_goes_last(
    platform: Platform,
    files: Seq<Seq<char>>,
    path: Seq<char>,
)
    ensures
        (forall|i: int|
            0 <= i < files.len() ==> !paths::same_path(platform, #[trigger] files[i], path))
            ==> with_file(platform, files, path) == files + seq![path],
        (exists|i: int|
            0 <= i < files.len() && paths::same_path(platform, #[trigger] files[i], path))
            ==> with_file(platform, files, path) == files,
{
}

/// The list and the path to `ffmpeg` change alone.
pub proof fn law_settings_change_alone(
    session: SessionView,
    files: Seq<Seq<char>>,
    ffmpeg_path: Seq<char>,
)
    ensures
        session.with_list(files).files == files,
        session.with_list(files).preset == session.preset,
        session.with_list(files).output_dir == session.output_dir,
        session.with_list(files).ffmpeg_path == session.ffmpeg_path,
        session.with_ffmpeg(ffmpeg_path).files == session.files,
        session.with_ffmpeg(ffmpeg_path).preset == session.preset,
        session.with_ffmpeg(ffmpeg_path).output_dir == session.output_dir,
        session.with_ffmpeg(ffmpeg_path).ffmpeg_path == ffmpeg_path,
        SessionView::initial(ffmpeg_path).files.len() == 0,
        SessionView::initial(ffmpeg_path).output_dir is None,
        SessionView::initial(ffmpeg_path).ffmpeg_path == ffmpeg_path,
{
}

/// A conversion can be started if and only if there is a file, none is running, and the
/// path to `ffmpeg` has a character that is not white space.
pub proof fn law_ready_to_convert(session: SessionView, converting: bool)
    ensures
        session.is_ready(converting) <==> {
            &&& session.files.len() > 0
            &&& !converting
            &&& exists|i: int|
                0 <= i < session.ffmpeg_path.len() && !text::is_white_space(
                    #[trigger] session.ffmpeg_path[i],
                )
        },
{
    let path = session.ffmpeg_path;
    text::law_trimming_takes_white_space_off(path);
    let a = path.len() - text::trimmed_start(path).len();
    if text::trimmed(path).len() > 0 {
        assert(text::trimmed(path)[0] == path[a]);
    } else {
        assert forall|i: int| 0 <= i < path.len() implies text::is_white_space(
            #[trigger] path[i],
        ) by {}
    }
}

/// What is started is the conversion of the list as it stands, with the settings as they
/// stand.
pub proof fn law_conversion_takes_the_list(session: SessionView)
    ensures
        ({
            let c = ConversionView::begun(
                session.files,
                session.preset,
                session.output_dir,
                session.ffmpeg_path,
            );
            &&& c.files == session.files
            &&& c.preset == session.preset
            &&& c.output_dir == session.output_dir
            &&& c.ffmpeg_path == session.ffmpeg_path
            &&& c.index == 0
            &&& c.stage is Finished <==> session.files.len() == 0
            &&& c.stage is MakingFolder <==> session.files.len() > 0
        }),
{
}

} // verus!
