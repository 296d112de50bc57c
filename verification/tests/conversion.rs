use audio_converter::board::Board;
use audio_converter::conversion::{
    last_error_line, output_folder, output_stem, reason_to_skip, Action, Conversion, Event,
    RunOutcome, Stage,
};
use audio_converter::duration::AudioLength;
use audio_converter::paths::{Host, Platform};
use audio_converter::preset::Preset;
use audio_converter::session::Session;

fn session(preset: Preset, files: &[&str]) -> Session {
    let mut session = Session::new("ffmpeg".to_string());
    session.preset = preset;
    session.add_files(Platform::Unix, files.iter().map(|f| f.to_string()).collect());
    session
}

fn length(whole_seconds: u64, has_fraction: bool, seconds_text: &str) -> Option<AudioLength> {
    Some(AudioLength { whole_seconds, has_fraction, seconds_text: seconds_text.to_string() })
}

#[test]
fn whole_conversion_under_a_limit() {
    let host = Host::detect();
    let mut board = Board::new();
    let files = ["/a/short.wav", "/a/long.wav", "/a/odd.wav", "/b/last.mp3"];
    let session = session(Preset::IwatsuPcmLimited, &files);
    let mut conversion = session.start_conversion(&mut board).unwrap();
    assert!(board.converting);
    assert_eq!(board.progress_text(), "0/4");
    // A second conversion is refused and changes nothing.
    assert!(session.start_conversion(&mut board).is_none());
    assert!(board.log.is_empty());

    assert!(matches!(conversion.pending(&host), Action::MakeFolder(f) if f == "/a"));
    conversion.advance(&mut board, Event::FolderReady);
    assert!(
        matches!(conversion.pending(&host), Action::MeasureLength(a) if a == ["-hide_banner", "-i", "/a/short.wav"])
    );
    conversion.advance(&mut board, Event::Measured(length(120, false, "00.00")));
    assert!(matches!(conversion.pending(&host), Action::ChooseOutput));
    let path = conversion.choose_output(&host, 1777300252, |_: &str| false).unwrap();
    assert_eq!(path, "/a/short_20260427_143052.wav");
    conversion.advance(&mut board, Event::OutputChosen(path.clone()));
    assert!(
        matches!(conversion.pending(&host), Action::Run(a) if a == Preset::IwatsuPcmLimited.ffmpeg_args("/a/short.wav", &path))
    );
    // What is not awaited changes nothing.
    conversion.advance(&mut board, Event::FolderReady);
    assert!(matches!(conversion.stage, Stage::Running(_)));
    conversion.advance(&mut board, Event::Ended(RunOutcome::Succeeded));
    assert_eq!(board.progress_text(), "1/4");

    conversion.advance(&mut board, Event::FolderReady);
    conversion.advance(&mut board, Event::Measured(length(120, true, "00.50")));
    assert_eq!(board.progress_text(), "2/4");

    conversion.advance(&mut board, Event::FolderReady);
    conversion.advance(&mut board, Event::Measured(None));
    assert_eq!(board.progress_text(), "3/4");
    assert!(board.converting);

    conversion.advance(&mut board, Event::FolderFailed("denied".to_string()));
    assert!(matches!(conversion.pending(&host), Action::Done));
    assert!(!board.converting);
    assert!(board.show_skip_dialog);
    assert_eq!(board.progress_text(), "4/4");
    assert_eq!(
        board.log,
        [
            "[1/4] 変換: /a/short.wav",
            "  ✓ 出力: /a/short_20260427_143052.wav",
            "[2/4] スキップ (上限 120 秒を超過 (02:00.50)): /a/long.wav",
            "[3/4] スキップ (録音時間を取得できず安全のためスキップ): /a/odd.wav",
            "出力フォルダを作成できません: denied",
            "── 全ファイルの処理が完了しました ──",
        ]
    );
    let skipped: Vec<(&str, &str)> =
        board.skipped.iter().map(|s| (s.path.as_str(), s.reason.as_str())).collect();
    assert_eq!(
        skipped,
        [
            ("/a/long.wav", "上限 120 秒を超過 (02:00.50)"),
            ("/a/odd.wav", "録音時間を取得できず安全のためスキップ"),
        ]
    );
    // The next conversion forgets what was left out.
    assert!(session.start_conversion(&mut board).is_some());
    assert!(board.skipped.is_empty());
    assert!(board.show_skip_dialog);
    board.close_skip_dialog();
    assert!(!board.show_skip_dialog);
}

#[test]
fn failures_of_ffmpeg_are_logged() {
    let host = Host::detect();
    let mut board = Board::new();
    let mut session = session(Preset::NakayoAac, &["/a/x.wav", "/a/y.wav"]);
    session.output_dir = Some("/out".to_string());
    let mut conversion = session.start_conversion(&mut board).unwrap();
    assert!(matches!(conversion.pending(&host), Action::MakeFolder(f) if f == "/out"));
    conversion.advance(&mut board, Event::FolderReady);
    assert!(matches!(conversion.pending(&host), Action::ChooseOutput));
    let path = conversion
        .choose_output(&host, 1777300252, |p: &str| p == "/out/x_20260427_143052.aac")
        .unwrap();
    assert_eq!(path, "/out/x_20260427_143052 (2).aac");
    conversion.advance(&mut board, Event::OutputChosen(path));
    conversion
        .advance(&mut board, Event::Ended(RunOutcome::Failed("a\nbad codec\n \n".to_string())));
    conversion.advance(&mut board, Event::FolderReady);
    conversion.advance(&mut board, Event::OutputChosen("/out/y.aac".to_string()));
    conversion
        .advance(&mut board, Event::Ended(RunOutcome::NotStarted("not found".to_string())));
    assert!(!board.show_skip_dialog);
    assert_eq!(
        board.log,
        [
            "[1/2] 変換: /a/x.wav",
            "  ✗ 失敗: bad codec",
            "[2/2] 変換: /a/y.wav",
            "  ✗ ffmpeg を実行できません: not found (パス確認)",
            "── 全ファイルの処理が完了しました ──",
        ]
    );
}

#[test]
fn empty_conversion_ends_at_once() {
    let mut board = Board::new();
    let conversion =
        Conversion::start(&mut board, Vec::new(), Preset::TakacomMuLaw, None, "f".to_string())
            .unwrap();
    assert!(matches!(conversion.stage, Stage::Finished));
    assert!(!board.converting);
    assert_eq!(board.log, ["── 全ファイルの処理が完了しました ──"]);
}

#[test]
fn begin_and_log() {
    let mut board = Board::new();
    board.push_log("x".to_string());
    assert!(board.begin(3));
    assert!(!board.begin(5));
    assert_eq!(board.progress_text(), "0/3");
    assert_eq!(board.log, ["x"]);
}

#[test]
fn names_of_the_output() {
    assert_eq!(output_stem(Some("a".to_string()), 3), "a");
    assert_eq!(output_stem(None, 3), "output_3");
    let chosen = Some("/out".to_string());
    assert_eq!(output_folder(&chosen, Some("/in".to_string())), "/out");
    assert_eq!(output_folder(&None, Some("/in".to_string())), "/in");
    assert_eq!(output_folder(&None, None), ".");
    let host = Host::detect();
    let mut board = Board::new();
    for (input, expected) in [
        ("/a/b.tar.gz", "/a/b.tar_19700101_000000.wav"),
        ("b", "b_19700101_000000.wav"),
        ("/a/.hidden", "/a/.hidden_19700101_000000.wav"),
        ("/", "./output_0_19700101_000000.wav"),
    ] {
        let conversion = Conversion::start(
            &mut board,
            vec![input.to_string()],
            Preset::TakacomPcmMono,
            None,
            "f".to_string(),
        )
        .unwrap();
        assert_eq!(conversion.choose_output(&host, 0, |_: &str| false).as_deref(), Some(expected));
        board.converting = false;
    }
    let conversion = Conversion::start(
        &mut board,
        vec!["a".to_string()],
        Preset::TakacomPcmMono,
        None,
        "f".to_string(),
    )
    .unwrap();
    assert_eq!(conversion.choose_output(&host, i64::MAX, |_: &str| false), None);
    assert_eq!(conversion.choose_output_on_disk(&host, i64::MAX, &|_: &str| false), None);
}

#[test]
fn output_on_disk() {
    let host = Host::detect();
    let mut board = Board::new();
    let never = |_: &str| -> bool { unreachable!() };
    let mut conversion = Conversion::start(
        &mut board,
        vec!["/no such folder/a.mp3".to_string()],
        Preset::NakayoAac,
        None,
        "f".to_string(),
    )
    .unwrap();
    assert_eq!(
        conversion.choose_output_on_disk(&host, 1777300252, &never).as_deref(),
        Some("/no such folder/a_20260427_143052.aac")
    );
    conversion.advance(&mut board, Event::FolderReady);
    // Without a time there is no name, and nothing changes.
    assert!(!conversion.go_on_with_output(&mut board, &host, i64::MAX, &never));
    assert!(matches!(conversion.stage, Stage::ChoosingOutput));
    assert!(board.log.is_empty());
    assert!(conversion.go_on_with_output(&mut board, &host, 1777300252, &never));
    assert!(
        matches!(&conversion.stage, Stage::Running(p) if p == "/no such folder/a_20260427_143052.aac")
    );
    assert_eq!(board.log, ["[1/1] 変換: /no such folder/a.mp3"]);
}

#[test]
fn last_line_that_says_something() {
    assert_eq!(last_error_line(""), "(詳細不明)");
    assert_eq!(last_error_line("\n \r\n"), "(詳細不明)");
    assert_eq!(last_error_line("a\nb"), "b");
    assert_eq!(last_error_line("a\r\n  b \r\n\t\n"), "  b ");
}

#[test]
fn reasons_to_skip() {
    assert_eq!(reason_to_skip(120, &length(119, true, "59.99")), None);
    assert_eq!(reason_to_skip(120, &length(120, false, "00.00")), None);
    assert_eq!(
        reason_to_skip(120, &length(121, false, "01.00")).as_deref(),
        Some("上限 120 秒を超過 (02:01.00)")
    );
    assert_eq!(
        reason_to_skip(120, &None).as_deref(),
        Some("録音時間を取得できず安全のためスキップ")
    );
}

#[test]
fn nothing_is_skipped_without_a_limit() {
    let mut board = Board::new();
    let mut conversion =
        session(Preset::TakacomMuLaw, &["/a", "/b"]).start_conversion(&mut board).unwrap();
    for _ in 0..2 {
        conversion.advance(&mut board, Event::FolderReady);
        conversion.advance(&mut board, Event::Measured(None));
        assert!(matches!(conversion.stage, Stage::ChoosingOutput));
        conversion.advance(&mut board, Event::OutputChosen("/o".to_string()));
        conversion.advance(&mut board, Event::Ended(RunOutcome::Succeeded));
    }
    assert!(matches!(conversion.stage, Stage::Finished));
    assert!(board.skipped.is_empty());
    assert!(!board.show_skip_dialog);
    assert_eq!(board.log.last().unwrap(), "── 全ファイルの処理が完了しました ──");
}
