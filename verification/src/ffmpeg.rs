//! Which `ffmpeg` is run: the one that was chosen and saved, the one beside the
//! program, or the one in the search path.

use vstd::prelude::*;
use vstd::string::*;
use crate::native;
use crate::output;
use crate::paths;
use crate::paths::Host;
use crate::paths::Platform;
use crate::text;

verus! {

/// What can be said of a path to `ffmpeg` without running it.
#[derive(Clone, Copy, Debug, PartialEq, Eq, Structural)]
pub enum FfmpegStatus {
    /// No path is given.
    Unset,
    /// A bare command name: the search path decides.
    FromSearchPath,
    /// The file is there.
    Found,
    /// The file is not there.
    Missing,
}

/// The name of the settings file, a single line of plain text.
pub open spec fn config_file_name() -> Seq<char> {
    "audio_converter_config.txt"@
}

/// The name of the program `ffmpeg` on `platform`.
pub open spec fn program_name(platform: Platform) -> Seq<char> {
    match platform {
        Platform::Windows => "ffmpeg.exe"@,
        Platform::Unix => "ffmpeg"@,
    }
}

/// Whether `r` is a default path, where the program lies in `exe_dir` and
/// `exists_fn` says which files are there.
pub open spec fn is_default_path<F: Fn(&str) -> bool>(
    platform: Platform,
    exe_dir: Option<Seq<char>>,
    exists_fn: F,
    r: Seq<char>,
) -> bool {
    match exe_dir {
        None => r == "ffmpeg"@,
        Some(dir) => {
            let beside = paths::joined_path(platform, dir, program_name(platform));
            ||| r == native::shown(beside) && output::answers(exists_fn, beside, true)
            ||| r == "ffmpeg"@ && output::answers(exists_fn, beside, false)
        },
    }
}

/// Whether the saved text `saved` gives a path that can be used at once: there
/// is one and it is a bare command name.
pub open spec fn is_saved_command(saved: Seq<char>) -> bool {
    text::trimmed(saved).len() > 0 && paths::is_bare(text::trimmed(saved))
}

/// Whether the saved text `saved` points at a place, where a file may be or not.
pub open spec fn is_saved_place(saved: Seq<char>) -> bool {
    text::trimmed(saved).len() > 0 && !paths::is_bare(text::trimmed(saved))
}

/// Whether `r` is a path to begin with.
pub open spec fn is_initial_path<F: Fn(&str) -> bool>(
    saved: Option<Seq<char>>,
    platform: Platform,
    exe_dir: Option<Seq<char>>,
    exists_fn: F,
    r: Seq<char>,
) -> bool {
    match saved {
        None => is_default_path(platform, exe_dir, exists_fn, r),
        Some(saved) => {
            let path = text::trimmed(saved);
            if is_saved_command(saved) {
                r == path
            } else if is_saved_place(saved) {
                ||| r == path && output::answers(exists_fn, native::path_of(path), true)
                ||| is_default_path(platform, exe_dir, exists_fn, r) && output::answers(
                    exists_fn,
                    native::path_of(path),
                    false,
                )
            } else {
                is_default_path(platform, exe_dir, exists_fn, r)
            }
        },
    }
}

/// The arguments with which `ffmpeg` is asked about `input`. Since no output is
/// named it ends with an error, but not before it has printed the duration.
pub open spec fn measure_arguments(input: Seq<char>) -> Seq<Seq<char>> {
    seq!["-hide_banner"@, "-i"@, input]
}

/// The arguments with which `ffmpeg` is asked about `input`.
pub fn measure_args(input: &str) -> (r: Vec<String>)
    ensures
        text::texts(r@) == measure_arguments(input@),
        r@.len() == 3,
        r@[2]@ == input@,
{
    let mut args: Vec<String> = Vec::new();
    args.push("-hide_banner".to_owned());
    args.push("-i".to_owned());
    args.push(input.to_owned());
    assert(text::texts(args@) == measure_arguments(input@));
    args
}

/// The arguments with which it is tried out whether `ffmpeg` runs.
pub fn check_args() -> (r: Vec<String>)
    ensures
        text::texts(r@) == seq!["-version"@],
{
    let mut args: Vec<String> = Vec::new();
    args.push("-version".to_owned());
    assert(text::texts(args@) == seq!["-version"@]);
    args
}

/// The path of the settings file, beside the program.
pub fn config_file_path(host: &Host, exe_dir: Option<&str>) -> (r: Option<String>)
    ensures
        match exe_dir {
            Some(dir) => r is Some && r->0@ == paths::joined_path(host.system(), dir@, config_file_name()),
            None => r is None,
        },
{
    match exe_dir {
        Some(dir) => Some(paths::join_path(host, dir, "audio_converter_config.txt")),
        None => None,
    }
}

/// The folder of the program that lies at `program`.
pub fn program_folder(host: &Host, program: &str) -> (r: Option<String>)
    ensures
        text::optional_text(r) == paths::folder_of_path(host.system(), program@),
{
    paths::parent_of(host, program)
}

/// The path to `ffmpeg` where none is saved: the one beside the program, if it
/// is there, and otherwise the bare command name.
pub fn detect_default_ffmpeg_path<F: Fn(&str) -> bool>(
    host: &Host,
    exe_dir: Option<&str>,
    exists_fn: &F,
) -> (r: String)
    requires
        output::answers_all(*exists_fn),
    ensures
        is_default_path(host.system(), text::optional_str(exe_dir), *exists_fn, r@),
        r@.len() > 0,
{
    proof {
        reveal_strlit("ffmpeg");
        reveal_strlit("ffmpeg.exe");
    }
    match exe_dir {
        Some(dir) => {
            let name = match host.platform() {
                Platform::Windows => "ffmpeg.exe",
                Platform::Unix => "ffmpeg",
            };
            let candidate = paths::join_path(host, dir, name);
            proof {
                assert(name@.last() == 'g' || name@.last() == 'e');
                assert(paths::is_plain_name(name@));
                assert(candidate@.skip(candidate@.len() - name@.len()).last() == name@.last());
                native::lemma_shown_is_not_empty(candidate@);
            }
            candidate_or_command(candidate, exists_fn)
        },
        None => "ffmpeg".to_owned(),
    }
}

/// `candidate` as it is shown, if it is there, and otherwise the bare command name.
pub fn candidate_or_command<F: Fn(&str) -> bool>(candidate: String, exists_fn: &F) -> (r: String)
    requires
        output::answers_all(*exists_fn),
    ensures
        ({
            ||| r@ == native::shown(candidate@) && output::answers(*exists_fn, candidate@, true)
            ||| r@ == "ffmpeg"@ && output::answers(*exists_fn, candidate@, false)
        }),
{
    if exists_fn(candidate.as_str()) {
        native::shown_text(candidate.as_str())
    } else {
        "ffmpeg".to_owned()
    }
}

/// The path to `ffmpeg` to begin with. What the settings file holds, in `saved`,
/// is used if it is a bare command name or points at a file that is there;
/// otherwise the default is.
pub fn initial_ffmpeg_path<F: Fn(&str) -> bool>(
    saved: Option<&str>,
    host: &Host,
    exe_dir: Option<&str>,
    exists_fn: &F,
) -> (r: String)
    requires
        output::answers_all(*exists_fn),
    ensures
        is_initial_path(
            text::optional_str(saved),
            host.system(),
            text::optional_str(exe_dir),
            *exists_fn,
            r@,
        ),
        r@.len() > 0,
{
    if let Some(s) = saved {
        let path = text::trim(s);
        if !path.is_empty() && (paths::is_bare_command(path) || exists_fn(
            native::text_path(path).as_str(),
        )) {
            return path.to_owned();
        }
    }
    detect_default_ffmpeg_path(host, exe_dir, exists_fn)
}

/// What can be said of `path` without running it. A text of white space alone is
/// no path, though no separator stands in it.
pub fn ffmpeg_status<F: Fn(&str) -> bool>(path: &str, exists_fn: &F) -> (r: FfmpegStatus)
    requires
        output::answers_all(*exists_fn),
    ensures
        r == FfmpegStatus::Unset <==> text::trimmed(path@).len() == 0,
        r == FfmpegStatus::FromSearchPath <==> text::trimmed(path@).len() > 0 && paths::is_bare(
            path@,
        ),
        r == FfmpegStatus::Found ==> output::answers(*exists_fn, native::path_of(path@), true),
        r == FfmpegStatus::Missing ==> output::answers(*exists_fn, native::path_of(path@), false),
{
    if text::trim(path).is_empty() {
        FfmpegStatus::Unset
    } else if paths::is_bare_command(path) {
        FfmpegStatus::FromSearchPath
    } else if exists_fn(native::text_path(path).as_str()) {
        FfmpegStatus::Found
    } else {
        FfmpegStatus::Missing
    }
}

impl FfmpegStatus {
    /// The line that tells the user.
    pub open spec fn message_text(self) -> Seq<char> {
        match self {
            FfmpegStatus::Unset => "● ffmpeg のパスが未設定です"@,
            FfmpegStatus::FromSearchPath => "● PATH から解決します(動作確認推奨)"@,
            FfmpegStatus::Found => "● ファイルを確認"@,
            FfmpegStatus::Missing => "● ファイルが見つかりません"@,
        }
    }

    /// The line that tells the user.
    pub fn message(&self) -> (r: &'static str)
        ensures
            r@ == self.message_text(),
    {
        match self {
            FfmpegStatus::Unset => "● ffmpeg のパスが未設定です",
            FfmpegStatus::FromSearchPath => "● PATH から解決します(動作確認推奨)",
            FfmpegStatus::Found => "● ファイルを確認",
            FfmpegStatus::Missing => "● ファイルが見つかりません",
        }
    }

    /// The colour of that line, as red, green and blue: green where the file is
    /// there, ochre where the search path decides, red where nothing can run.
    pub fn color(&self) -> (r: (u8, u8, u8))
        ensures
            r == match *self {
                FfmpegStatus::Found => (0u8, 140u8, 0u8),
                FfmpegStatus::FromSearchPath => (140u8, 100u8, 0u8),
                _ => (200u8, 0u8, 0u8),
            },
    {
        match self {
            FfmpegStatus::Found => (0, 140, 0),
            FfmpegStatus::FromSearchPath => (140, 100, 0),
            _ => (200, 0, 0),
        }
    }
}

/// Whether `r` is `folder`, if there is one with a name that is there, and
/// otherwise nothing.
pub open spec fn is_usable_folder<F: Fn(&str) -> bool>(
    folder: Option<Seq<char>>,
    exists_fn: F,
    r: Option<Seq<char>>,
) -> bool {
    match folder {
        Some(name) => if name.len() == 0 {
            r is None
        } else {
            ||| r == folder && output::answers(exists_fn, name, true)
            ||| r is None && output::answers(exists_fn, name, false)
        },
        None => r is None,
    }
}

/// `folder`, if it has a name and is there.
pub fn usable_folder<F: Fn(&str) -> bool>(folder: Option<String>, exists_fn: &F) -> (r: Option<
    String,
>)
    requires
        output::answers_all(*exists_fn),
    ensures
        is_usable_folder(text::optional_text(folder), *exists_fn, text::optional_text(r)),
{
    match folder {
        Some(name) => {
            if !name.as_str().is_empty() && exists_fn(name.as_str()) {
                Some(name)
            } else {
                None
            }
        },
        None => None,
    }
}

/// The folder in which the search for another `ffmpeg` begins: the one that
/// holds `path`, if it is there.
pub fn browse_folder<F: Fn(&str) -> bool>(host: &Host, path: &str, exists_fn: &F) -> (r: Option<String>)
    requires
        output::answers_all(*exists_fn),
    ensures
        is_usable_folder(
            paths::folder_of_path(host.system(), native::path_of(path@)),
            *exists_fn,
            text::optional_text(r),
        ),
{
    usable_folder(paths::parent_of(host, native::text_path(path).as_str()), exists_fn)
}

/// A bare command name that was saved is the one to begin with, wherever the
/// program lies and whatever files are there; white space around it is dropped.
pub proof fn law_saved_command_is_restored<F: Fn(&str) -> bool>(
    saved: Seq<char>,
    platform: Platform,
    exe_dir: Option<Seq<char>>,
    exists_fn: F,
    r: Seq<char>,
)
    requires
        is_saved_command(saved),
        is_initial_path(Some(saved), platform, exe_dir, exists_fn, r),
    ensures
        r == text::trimmed(saved),
        text::trimmed(r) == r,
{
    text::law_trimmed_once_is_enough(saved);
}

/// Where the answers say, each time alike, whether a file is there, a saved place
/// is the one to begin with if and only if the file is there; otherwise the
/// default is.
pub proof fn law_saved_place_is_restored<F: Fn(&str) -> bool>(
    saved: Seq<char>,
    platform: Platform,
    exe_dir: Option<Seq<char>>,
    exists_fn: F,
    there: spec_fn(Seq<char>) -> bool,
    r: Seq<char>,
)
    requires
        is_saved_place(saved),
        forall|p: &str, answer: bool| #[trigger]
            call_ensures(exists_fn, (p,), answer) ==> answer == there(p@),
        is_initial_path(Some(saved), platform, exe_dir, exists_fn, r),
    ensures
        there(native::path_of(text::trimmed(saved))) ==> r == text::trimmed(saved),
        !there(native::path_of(text::trimmed(saved))) ==> is_default_path(platform, exe_dir, exists_fn, r),
{
}

/// A blank setting counts as none.
pub proof fn law_blank_setting_is_none<F: Fn(&str) -> bool>(
    saved: Seq<char>,
    platform: Platform,
    exe_dir: Option<Seq<char>>,
    exists_fn: F,
    r: Seq<char>,
)
    requires
        text::trimmed(saved).len() == 0,
    ensures
        is_initial_path(Some(saved), platform, exe_dir, exists_fn, r) == is_initial_path(
            None,
            platform,
            exe_dir,
            exists_fn,
            r,
        ),
{
}

/// Of every file the same is asked: all arguments but the last are the same, and the last
/// is the file.
pub proof fn law_length_is_asked_of_the_input(input: Seq<char>)
    ensures
        measure_arguments(input).len() == 3,
        measure_arguments(input)[0] == "-hide_banner"@,
        measure_arguments(input)[1] == "-i"@,
        measure_arguments(input)[2] == input,
{
}

/// Where the answers say, each time alike, whether a file is there, the default is the
/// `ffmpeg` in the program's folder if it is there, and otherwise the bare command name.
/// On Unix it is looked for as `ffmpeg`, on Windows as `ffmpeg.exe`.
pub proof fn law_default_is_beside_the_program<F: Fn(&str) -> bool>(
    dir: Seq<char>,
    exists_fn: F,
    there: spec_fn(Seq<char>) -> bool,
    r: Seq<char>,
)
    requires
        forall|p: &str, answer: bool| #[trigger]
            call_ensures(exists_fn, (p,), answer) ==> answer == there(p@),
        dir.len() > 0,
        dir.last() != '/',
    ensures
        is_default_path(Platform::Unix, Some(dir), exists_fn, r) ==> r == if there(
            dir + seq!['/'] + "ffmpeg"@,
        ) {
            native::shown(dir + seq!['/'] + "ffmpeg"@)
        } else {
            "ffmpeg"@
        },
        is_default_path(Platform::Windows, Some(dir), exists_fn, r) ==> r == if there(
            paths::windows_joined(dir, "ffmpeg.exe"@),
        ) {
            native::shown(paths::windows_joined(dir, "ffmpeg.exe"@))
        } else {
            "ffmpeg"@
        },
        is_default_path(Platform::Unix, None, exists_fn, r) ==> r == "ffmpeg"@,
        is_default_path(Platform::Windows, None, exists_fn, r) ==> r == "ffmpeg"@,
{
    reveal_strlit("ffmpeg");
}

/// A setting that is not blank is used, without the white space around it, if it has no
/// separator and no colon, whatever files are there; with one of them it is used if and
/// only if the file is there. Otherwise, and for a blank setting or none, the default is
/// used.
pub proof fn law_saved_setting_is_used<F: Fn(&str) -> bool>(
    saved: Seq<char>,
    platform: Platform,
    exe_dir: Option<Seq<char>>,
    exists_fn: F,
    there: spec_fn(Seq<char>) -> bool,
    r: Seq<char>,
)
    requires
        forall|p: &str, answer: bool| #[trigger]
            call_ensures(exists_fn, (p,), answer) ==> answer == there(p@),
        is_initial_path(Some(saved), platform, exe_dir, exists_fn, r),
    ensures
        ({
            let path = text::trimmed(saved);
            let is_place = path.contains('/') || path.contains('\\') || path.contains(':');
            if path.len() > 0 && (!is_place || there(native::path_of(path))) {
                r == path
            } else {
                is_default_path(platform, exe_dir, exists_fn, r)
            }
        }),
{
}

/// Without a setting the default is used.
pub proof fn law_no_setting_means_the_default<F: Fn(&str) -> bool>(
    platform: Platform,
    exe_dir: Option<Seq<char>>,
    exists_fn: F,
    r: Seq<char>,
)
    ensures
        is_initial_path(None, platform, exe_dir, exists_fn, r) == is_default_path(
            platform,
            exe_dir,
            exists_fn,
            r,
        ),
{
}

/// The settings file lies in the program's folder, under its own name.
pub proof fn law_settings_file_is_beside_the_program(dir: Seq<char>)
    requires
        dir.len() > 0,
        dir.last() != '/',
    ensures
        paths::joined_path(Platform::Unix, dir, config_file_name()) == dir + seq!['/']
            + "audio_converter_config.txt"@,
        config_file_name() == "audio_converter_config.txt"@,
{
    reveal_strlit("audio_converter_config.txt");
}

/// Where the answers say, each time alike, whether a folder is there, a folder is used if
/// and only if it has a name and is there.
pub proof fn law_folder_is_used_if_it_is_there<F: Fn(&str) -> bool>(
    folder: Option<Seq<char>>,
    exists_fn: F,
    there: spec_fn(Seq<char>) -> bool,
    r: Option<Seq<char>>,
)
    requires
        forall|p: &str, answer: bool| #[trigger]
            call_ensures(exists_fn, (p,), answer) ==> answer == there(p@),
        is_usable_folder(folder, exists_fn, r),
    ensures
        r == if folder is Some && folder->0.len() > 0 && there(folder->0) {
            folder
        } else {
            None
        },
{
}

} // verus!
