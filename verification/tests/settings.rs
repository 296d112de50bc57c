use audio_converter::board::Board;
use audio_converter::ffmpeg::{
    browse_folder, candidate_or_command, check_args, config_file_path, detect_default_ffmpeg_path,
    ffmpeg_status, initial_ffmpeg_path, measure_args, program_folder, usable_folder, FfmpegStatus,
};
use audio_converter::fonts::{first_readable_font, font_candidates};
use audio_converter::paths::{Host, Platform};
use audio_converter::preset::{preset_rows, Preset};
use audio_converter::session::{add_file_if_new, audio_extensions, Session};
use audio_converter::text::{decimal_text, trim, trim_end, trim_start, two_digit_text};
use audio_converter::timestamp::timestamp_text;

fn nothing(_: &str) -> bool {
    false
}

fn everything(_: &str) -> bool {
    true
}

#[test]
fn text_in_digits_and_trimmed() {
    assert_eq!(decimal_text(0), "0");
    assert_eq!(decimal_text(1009), "1009");
    assert_eq!(decimal_text(u64::MAX), "18446744073709551615");
    assert_eq!(two_digit_text(7), "07");
    assert_eq!(two_digit_text(10), "10");
    assert_eq!(two_digit_text(123), "123");
    for code in 0..0x11000u32 {
        if let Some(c) = char::from_u32(code) {
            let s = format!("{}x{}y{}", c, c, c);
            assert_eq!(trim(&s), s.trim());
        }
    }
    assert_eq!(trim_start(" a "), "a ");
    assert_eq!(trim_end(" a "), " a");
    assert_eq!(trim(trim(" \n a b\t")), "a b");
    assert_eq!(trim(" \u{3000}"), "");
}

#[test]
fn config_file_is_beside_the_program() {
    let host = Host::detect();
    assert_eq!(program_folder(&host, "/opt/app/converter").as_deref(), Some("/opt/app"));
    assert_eq!(program_folder(&host, "/"), None);
    assert_eq!(config_file_path(&host, None), None);
    let path = config_file_path(&host, Some("/opt/app")).unwrap();
    assert_eq!(
        std::path::Path::new(&path),
        std::path::Path::new("/opt/app/audio_converter_config.txt")
    );
}

#[test]
fn default_is_beside_the_program_or_in_the_search_path() {
    let host = Host::detect();
    assert_eq!(detect_default_ffmpeg_path(&host, None, &everything), "ffmpeg");
    assert_eq!(detect_default_ffmpeg_path(&host, Some("/opt/app"), &nothing), "ffmpeg");
    if host.platform() == Platform::Unix {
        assert_eq!(
            detect_default_ffmpeg_path(&host, Some("/opt/app"), &everything),
            "/opt/app/ffmpeg"
        );
    }
    assert_eq!(candidate_or_command("x/ffmpeg".to_string(), &everything), "x/ffmpeg");
    assert_eq!(candidate_or_command("x/ffmpeg".to_string(), &nothing), "ffmpeg");
}

#[test]
fn saved_path_is_restored() {
    let host = Host::detect();
    // A bare command name is trusted without a look at the disk.
    assert_eq!(initial_ffmpeg_path(Some(" my-ffmpeg\r\n"), &host, None, &nothing), "my-ffmpeg");
    // A place is used if the file is there.
    assert_eq!(initial_ffmpeg_path(Some("/x/ffmpeg\n"), &host, None, &everything), "/x/ffmpeg");
    assert_eq!(initial_ffmpeg_path(Some("/x/ffmpeg\n"), &host, None, &nothing), "ffmpeg");
    // A blank setting counts as none.
    assert_eq!(initial_ffmpeg_path(Some(" \n"), &host, None, &everything), "ffmpeg");
    assert_eq!(initial_ffmpeg_path(None, &host, None, &everything), "ffmpeg");
}

#[test]
fn status_of_the_path() {
    assert_eq!(ffmpeg_status("", &everything), FfmpegStatus::Unset);
    assert_eq!(ffmpeg_status("  ", &everything), FfmpegStatus::Unset);
    assert_eq!(ffmpeg_status("ffmpeg", &nothing), FfmpegStatus::FromSearchPath);
    assert_eq!(ffmpeg_status("/x/ffmpeg", &everything), FfmpegStatus::Found);
    assert_eq!(ffmpeg_status("/x/ffmpeg", &nothing), FfmpegStatus::Missing);
    assert_eq!(FfmpegStatus::Unset.message(), "● ffmpeg のパスが未設定です");
    assert_eq!(FfmpegStatus::FromSearchPath.message(), "● PATH から解決します(動作確認推奨)");
    assert_eq!(FfmpegStatus::Found.message(), "● ファイルを確認");
    assert_eq!(FfmpegStatus::Missing.message(), "● ファイルが見つかりません");
    assert_eq!(FfmpegStatus::Unset.color(), (200, 0, 0));
    assert_eq!(FfmpegStatus::FromSearchPath.color(), (140, 100, 0));
    assert_eq!(FfmpegStatus::Found.color(), (0, 140, 0));
    assert_eq!(FfmpegStatus::Missing.color(), (200, 0, 0));
}

#[test]
fn folder_to_browse() {
    let host = Host::detect();
    assert_eq!(browse_folder(&host, "/x/ffmpeg", &everything).as_deref(), Some("/x"));
    assert_eq!(browse_folder(&host, "/ffmpeg", &everything).as_deref(), Some("/"));
    assert_eq!(browse_folder(&host, "/x/ffmpeg", &nothing), None);
    assert_eq!(browse_folder(&host, "ffmpeg", &everything), None);
    assert_eq!(browse_folder(&host, "", &everything), None);
    assert_eq!(usable_folder(Some("a".to_string()), &everything).as_deref(), Some("a"));
    assert_eq!(usable_folder(Some(String::new()), &everything), None);
    assert_eq!(usable_folder(None, &everything), None);
}

#[test]
fn arguments_for_questions() {
    assert_eq!(measure_args("in.wav"), ["-hide_banner", "-i", "in.wav"]);
    assert_eq!(check_args(), ["-version"]);
}

#[test]
fn timestamp_is_written() {
    assert_eq!(timestamp_text(0).as_deref(), Some("19700101_000000"));
    assert_eq!(timestamp_text(1777300252).as_deref(), Some("20260427_143052"));
    assert_eq!(timestamp_text(253402300799).as_deref(), Some("99991231_235959"));
    assert_eq!(timestamp_text(i64::MAX), None);
}

#[test]
fn preset_arguments() {
    let pcm = |codec: &str, rate: &str, channels: &str| -> Vec<String> {
        ["-y", "-i", "in", "-acodec", codec, "-ar", rate, "-ac", channels, "out"]
            .iter()
            .map(|s| s.to_string())
            .collect()
    };
    assert_eq!(Preset::TakacomMuLaw.ffmpeg_args("in", "out"), pcm("pcm_mulaw", "8000", "1"));
    assert_eq!(Preset::TakacomPcmMono.ffmpeg_args("in", "out"), pcm("pcm_s16le", "44100", "1"));
    assert_eq!(Preset::TakacomPcmStereo.ffmpeg_args("in", "out"), pcm("pcm_s16le", "44100", "2"));
    assert_eq!(Preset::IwatsuPcmLimited.ffmpeg_args("in", "out"), pcm("pcm_s16le", "8000", "1"));
    assert_eq!(
        Preset::NakayoAac.ffmpeg_args("in", "out"),
        [
            "-y", "-i", "in", "-c:a", "aac", "-profile:a", "aac_low", "-b:a", "24k", "-ar", "8000",
            "-ac", "1", "-f", "adts", "out"
        ]
    );
}

#[test]
fn preset_list() {
    let rows = preset_rows();
    let headings: Vec<Option<&str>> = rows.iter().map(|r| r.heading).collect();
    assert_eq!(
        headings,
        [Some("タカコム留守番"), None, None, Some("ナカヨ"), Some("岩崎通信機")]
    );
    let gaps: Vec<bool> = rows.iter().map(|r| r.gap).collect();
    assert_eq!(gaps, [false, false, false, true, true]);
    let labels: Vec<&str> = rows.iter().map(|r| r.preset.label()).collect();
    assert_eq!(
        labels,
        [
            "μ-law 8kHz 8bit モノラル",
            "PCM 44.1kHz 16bit モノラル",
            "PCM 44.1kHz 16bit ステレオ",
            "AAC (ADTS) 8kHz 24kbps モノラル (LC)",
            "PCM 8kHz 16bit モノラル (録音2分以内)"
        ]
    );
    let extensions: Vec<&str> = Preset::all().iter().map(|p| p.extension()).collect();
    assert_eq!(extensions, ["wav", "wav", "wav", "aac", "wav"]);
    let limits: Vec<Option<u64>> = Preset::all().iter().map(|p| p.max_duration_secs()).collect();
    assert_eq!(limits, [None, None, None, None, Some(120)]);
}

#[test]
fn files_are_listed_once() {
    let mut files: Vec<String> = Vec::new();
    for path in ["C:\\a.wav", "c:\\A.WAV", "C:\\b.wav", "C:\\a.wav"] {
        add_file_if_new(Platform::Windows, &mut files, path.to_string());
    }
    assert_eq!(files, ["C:\\a.wav", "C:\\b.wav"]);
    let mut files: Vec<String> = Vec::new();
    for path in ["/a.wav", "/A.wav", "//a.wav"] {
        add_file_if_new(Platform::Unix, &mut files, path.to_string());
    }
    assert_eq!(files, ["/a.wav", "/A.wav"]);
}

#[test]
fn session_starts_empty() {
    let session = Session::new("ffmpeg".to_string());
    assert!(session.files.is_empty());
    assert_eq!(session.preset, Preset::TakacomMuLaw);
    assert_eq!(session.output_dir, None);
    assert_eq!(session.ffmpeg_path, "ffmpeg");
    assert_eq!(session.selection_text(), "選択中: 0 件");
    assert_eq!(session.output_dir_text(), "(入力ファイルと同じ場所)");
    assert!(!session.can_convert(false));
}

#[test]
fn session_keeps_its_list() {
    let mut session = Session::new("ffmpeg".to_string());
    let mut board = Board::new();
    let picked = vec!["/a".to_string(), "/b".to_string(), "/a".to_string(), "/c".to_string()];
    session.add_files(Platform::Unix, picked);
    assert_eq!(session.files, ["/a", "/b", "/c"]);
    session.receive_drop(&mut board, Platform::Unix, "/d".to_string(), false);
    session.receive_drop(&mut board, Platform::Unix, "/b".to_string(), false);
    session.receive_drop(&mut board, Platform::Unix, "/e".to_string(), true);
    assert_eq!(session.files, ["/a", "/b", "/c", "/d"]);
    assert_eq!(
        board.log,
        ["フォルダはドロップできません(中のファイルを個別にドロップしてください): /e"]
    );
    session.remove_file(1);
    assert_eq!(session.files, ["/a", "/c", "/d"]);
    assert_eq!(session.selection_text(), "選択中: 3 件");
    assert!(session.can_convert(false));
    assert!(!session.can_convert(true));
    session.ffmpeg_path = " ".to_string();
    assert!(!session.can_convert(false));
    session.output_dir = Some("/out".to_string());
    assert_eq!(session.output_dir_text(), "/out");
    session.clear_files();
    assert!(session.files.is_empty());
}

#[test]
fn choosing_ffmpeg_is_logged() {
    let host = Host::detect();
    let mut session = Session::new("x".to_string());
    let mut board = Board::new();
    session.pick_ffmpeg(&mut board, "/y/ffmpeg".to_string());
    assert_eq!(session.ffmpeg_path, "/y/ffmpeg");
    session.restore_default_ffmpeg(&mut board, &host, None, &nothing);
    assert_eq!(session.ffmpeg_path, "ffmpeg");
    board.log_save_failure("full");
    board.log_check("p", None);
    board.log_check("p", Some(true));
    board.log_check("p", Some(false));
    assert_eq!(
        board.log,
        [
            "ffmpeg を設定: /y/ffmpeg",
            "ffmpeg を既定値に戻しました: ffmpeg",
            "ffmpeg パスの保存に失敗しました(次回起動時は反映されません): full",
            "… ffmpeg を確認中: p",
            "✓ ffmpeg OK: p",
            "✗ ffmpeg を実行できません: p",
        ]
    );
}

#[test]
fn first_font_that_can_be_read() {
    assert_eq!(first_readable_font(|_: &str| None), None);
    assert_eq!(
        first_readable_font(|p: &str| Some(p.as_bytes().to_vec())),
        Some(b"C:\\Windows\\Fonts\\meiryo.ttc".to_vec())
    );
    let gothic = |p: &str| {
        if p.contains("gothic") {
            Some(p.as_bytes().to_vec())
        } else {
            None
        }
    };
    assert_eq!(
        first_readable_font(gothic),
        Some(b"C:\\Windows\\Fonts\\yugothic.ttc".to_vec())
    );
}

#[test]
fn fixed_lists() {
    assert_eq!(font_candidates().len(), 6);
    assert_eq!(font_candidates()[0], "C:\\Windows\\Fonts\\meiryo.ttc");
    assert_eq!(font_candidates()[5], "C:\\Windows\\Fonts\\msmincho.ttc");
    assert_eq!(
        audio_extensions(),
        ["wav", "mp3", "aac", "m4a", "ogg", "flac", "wma", "amr", "au"]
    );
}
