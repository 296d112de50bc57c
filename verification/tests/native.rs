use audio_converter::board::Board;
use audio_converter::conversion::{Action, Event, RunOutcome, Stage};
use audio_converter::ffmpeg::{detect_default_ffmpeg_path, ffmpeg_status, FfmpegStatus};
use audio_converter::native::{
    is_text_path, read_path, shown_text, text_path, write_path, Stray, MARK,
};
use audio_converter::output::{unique_output_path, unique_output_path_among};
use audio_converter::paths::{paths_equal, Host, Platform};
use audio_converter::preset::Preset;
use audio_converter::session::{add_file_if_new, Session};

type Unit = Result<char, Stray>;

/// The units of a path of bytes.
fn units(bytes: &[u8]) -> Vec<Unit> {
    let mut units: Vec<Unit> = Vec::new();
    for chunk in bytes.utf8_chunks() {
        units.extend(chunk.valid().chars().map(Ok));
        for (i, byte) in chunk.invalid().iter().enumerate() {
            units.push(Err(Stray { value: u16::from(*byte), first: i == 0 }));
        }
    }
    units
}

fn bytes(path: &str) -> Vec<u8> {
    let mut bytes = Vec::new();
    for unit in read_path(path) {
        match unit {
            Ok(c) => bytes.extend_from_slice(c.to_string().as_bytes()),
            Err(stray) => bytes.push(stray.value as u8),
        }
    }
    bytes
}

fn written(bytes: &[u8]) -> String {
    write_path(&units(bytes))
}

#[test]
fn every_path_of_bytes_can_be_made_again() {
    let samples: [&[u8]; 9] = [
        b"",
        b"/plain/a.wav",
        b"/a\xff/b.wav",
        b"\xff\xfe",
        b"\xe3\x81/\xe3\x81\x82",
        b"\xf4\x8f\xbf\xbf",
        b"\xf4\x8f\xbf\xbfXABCD",
        b"\xf0\x90\x80",
        b"\xed\xa0\x80.wav",
    ];
    for sample in samples {
        let path = written(sample);
        assert_eq!(bytes(&path), sample);
        assert_eq!(shown_text(&path), String::from_utf8_lossy(sample));
        assert_eq!(is_text_path(&path), std::str::from_utf8(sample).is_ok());
    }
    for a in samples {
        for b in samples {
            assert_eq!(written(a) == written(b), a == b);
        }
    }
}

#[test]
fn every_unit_is_spelled_out() {
    for value in 0..=u16::MAX {
        for first in [false, true] {
            let unit: Unit = Err(Stray { value, first });
            let path = write_path(&vec![Ok('a'), unit, Ok('b')]);
            assert_eq!(read_path(&path), [Ok('a'), unit, Ok('b')]);
            assert!(!path.contains(['/', '.', '\\', ':']));
            assert_eq!(shown_text(&path), if first { "a\u{FFFD}b" } else { "ab" });
        }
    }
    assert_eq!(
        write_path(&vec![Err(Stray { value: 0xFF, first: true })]),
        format!("{}XAAPP", MARK)
    );
}

#[test]
fn text_stands_for_itself() {
    for text in ["", "/a/b.wav", "C:\\音声\\挨拶.mp3", "XABCD"] {
        assert_eq!(text_path(text), text);
        assert_eq!(shown_text(text), text);
        assert!(is_text_path(text));
    }
    let marked = format!("{}XABCD", MARK);
    assert_eq!(text_path(&marked), format!("{}{}", MARK, marked));
    assert_eq!(shown_text(&text_path(&marked)), marked);
    // A mark that spells out nothing is a character.
    let lone = format!("a{}b", MARK);
    assert_eq!(shown_text(&lone), lone);
    assert!(is_text_path(&lone));
}

#[test]
fn paths_that_are_shown_alike_are_two_files_on_unix() {
    let a = written(b"/a/\xff.wav");
    let b = written(b"/a/\xfe.wav");
    assert_eq!(shown_text(&a), shown_text(&b));
    assert!(!paths_equal(Platform::Unix, &a, &b));
    assert!(paths_equal(Platform::Unix, &a, &written(b"/a//\xff.wav")));
    assert!(paths_equal(Platform::Windows, &a, &b));
    let mut files = Vec::new();
    for path in [&a, &b, &a] {
        add_file_if_new(Platform::Unix, &mut files, path.clone());
    }
    assert_eq!(files, [a, b]);
}

#[test]
fn output_goes_to_the_folder_as_the_system_has_it() {
    let host = Host::detect();
    if host.platform() != Platform::Unix {
        return;
    }
    let mut board = Board::new();
    let mut session = Session::new("ffmpeg".to_string());
    session.preset = Preset::TakacomMuLaw;
    session.add_files(Platform::Unix, vec![written(b"/a\xff/b\xe3\x81.wav")]);
    let mut conversion = session.start_conversion(&mut board).unwrap();
    assert!(matches!(conversion.pending(&host), Action::MakeFolder(f) if bytes(&f) == b"/a\xff"));
    conversion.advance(&mut board, Event::FolderReady);
    // What is not text is asked about; the name is made from the shown stem.
    let taken = "/a\u{FFFD}/b\u{FFFD}_19700101_000000.wav";
    let found = conversion.go_on_with_output(&mut board, &host, 0, &|p: &str| {
        assert_eq!(&bytes(p)[..4], b"/a\xff/");
        shown_text(p) == taken
    });
    assert!(found);
    let output = "/a\u{FFFD}/b\u{FFFD}_19700101_000000 (2).wav";
    match &conversion.stage {
        Stage::Running(path) => {
            assert_eq!(bytes(path), [b"/a\xff", output[5..].as_bytes()].concat());
        }
        _ => panic!("nothing was chosen"),
    }
    let input = "/a\u{FFFD}/b\u{FFFD}.wav";
    assert!(
        matches!(conversion.pending(&host), Action::Run(a) if a == Preset::TakacomMuLaw.ffmpeg_args(input, output))
    );
    conversion.advance(&mut board, Event::Ended(RunOutcome::Succeeded));
    assert_eq!(board.log[0], format!("[1/1] 変換: {}", input));
    assert_eq!(board.log[1], format!("  ✓ 出力: {}", output));
}

#[test]
fn settings_show_what_is_no_text() {
    let host = Host::detect();
    let mut board = Board::new();
    let mut session = Session::new("x".to_string());
    session.pick_ffmpeg(&mut board, written(b"/\xff/ffmpeg"));
    assert_eq!(session.ffmpeg_path, "/\u{FFFD}/ffmpeg");
    session.receive_drop(&mut board, Platform::Unix, written(b"/\xfe"), true);
    session.output_dir = Some(written(b"/\xfd"));
    assert_eq!(session.output_dir_text(), "/\u{FFFD}");
    assert_eq!(
        board.log,
        [
            "ffmpeg を設定: /\u{FFFD}/ffmpeg",
            "フォルダはドロップできません(中のファイルを個別にドロップしてください): /\u{FFFD}"
        ]
    );
    if host.platform() == Platform::Unix {
        let dir = written(b"/\xff");
        let beside = written(b"/\xff/ffmpeg");
        assert_eq!(
            detect_default_ffmpeg_path(&host, Some(&dir), &|p: &str| p == beside),
            "/\u{FFFD}/ffmpeg"
        );
    }
    // What the user types is text, the mark too.
    let typed = format!("/{}XAAPP", MARK);
    let place = text_path(&typed);
    assert_eq!(ffmpeg_status(&typed, &|p: &str| p == place), FfmpegStatus::Found);
}

#[test]
fn marks_in_the_stem_are_kept() {
    let host = Host::detect();
    let stem = format!("a{}XAAPP", MARK);
    let none: Vec<String> = Vec::new();
    let path = unique_output_path_among(&host, "/no such folder", &stem, "t", "wav", &none).unwrap();
    assert!(shown_text(&path).ends_with(&format!("{}_t.wav", stem)));
    let found = unique_output_path(&host, "/no such folder", &stem, "t", "wav", &|_: &str| true);
    assert_eq!(found, Some(path));
}
