use audio_converter::duration::{parse_ffmpeg_duration, AudioLength, Reading};
use audio_converter::output::{
    first_free_output_path, output_file_name, unique_output_path, unique_output_path_among,
    unique_output_path_with,
};
use audio_converter::paths::{is_bare_command, paths_equal, platform_for, Host, Platform};
use std::collections::HashSet;
use std::path::PathBuf;

fn read(text: &str) -> Reading<f64> {
    match text.parse::<f64>() {
        Ok(value) if value.is_finite() => Reading::Finite(value),
        Ok(_) => Reading::NotFinite,
        Err(_) => Reading::Malformed,
    }
}

fn seconds(stderr: &str) -> Option<f64> {
    parse_ffmpeg_duration(stderr, read).map(|d| d.hours * 3600.0 + d.minutes * 60.0 + d.seconds)
}

#[test]
fn duration_basic() {
    let stderr = "Input #0, wav, from 'x.wav':\n  Duration: 00:01:23.45, start: 0.000000, bitrate: 128 kb/s\n";
    let d = seconds(stderr).unwrap();
    assert!((d - 83.45).abs() < 1e-6);
}

#[test]
fn duration_hours() {
    let stderr = "  Duration: 01:02:03.00, start: 0.000000\n";
    let d = seconds(stderr).unwrap();
    assert!((d - (3600.0 + 120.0 + 3.0)).abs() < 1e-6);
}

#[test]
fn duration_na_returns_none() {
    let stderr = "  Duration: N/A, bitrate: N/A\n";
    assert_eq!(seconds(stderr), None);
}

#[test]
fn duration_missing_returns_none() {
    let stderr = "Input #0, wav, from 'x.wav':\n  Stream #0:0: Audio: pcm_s16le\n";
    assert_eq!(seconds(stderr), None);
}

#[test]
fn duration_malformed_returns_none() {
    let stderr = "  Duration: garbage, start: 0.000000\n";
    assert_eq!(seconds(stderr), None);
}

#[test]
fn duration_exactly_two_minutes_is_not_over() {
    let stderr = "  Duration: 00:02:00.00, start: 0.000000\n";
    let d = seconds(stderr).unwrap();
    assert_eq!(d, 120.0);
    assert!(d <= 120.0);
}

#[test]
fn duration_line_that_settles_it() {
    // A line of another form is passed over, one that is not available is not.
    assert_eq!(seconds("Duration: 1:2\nDuration: 0:0:5"), Some(5.0));
    assert_eq!(seconds("Duration: n/a\nDuration: 0:0:5"), None);
    // A part that is no number ends the search; one that is not finite does not.
    assert_eq!(seconds("Duration: 0:x:1\nDuration: 0:0:5"), None);
    assert_eq!(seconds("Duration: inf:x:1\nDuration: 0:0:5"), None);
    assert_eq!(seconds("Duration: inf:0:1\nDuration: 0:0:5"), Some(5.0));
    assert_eq!(seconds("Duration: nan:0:1"), None);
}

#[test]
fn duration_white_space_and_line_ends() {
    assert_eq!(seconds("\u{3000}\tDuration: 0 : 1 : 2 \r\nnext"), Some(62.0));
    assert_eq!(seconds("Duration:0:0:7"), Some(7.0));
    assert_eq!(seconds("Duration: 0:0:7\r"), Some(7.0));
    assert_eq!(seconds("duration: 0:0:7"), None);
    assert_eq!(seconds("x Duration: 0:0:7"), None);
    assert_eq!(seconds(""), None);
}

#[test]
fn duration_of_another_form_returns_none() {
    assert_eq!(seconds("  Duration: 1e2:0:0, start: 0.000000\n"), None);
    for value in [
        "-1:0:0", "+1:0:0", "1.0:0:0", "0:1.5:0", "0:0:1e1", "0:0:5.", "0:0:.5", "0:0:1.2.3",
        "0:0:-5", "0::0", "０:0:0",
    ] {
        assert_eq!(seconds(&format!("Duration: {}\nDuration: 0:0:5", value)), None, "{}", value);
    }
    assert_eq!(seconds("Duration: 007:08:09.5"), Some(7.0 * 3600.0 + 8.0 * 60.0 + 9.5));
    // Too large for a finite number, though of the form: passed over.
    let huge = "9".repeat(400);
    assert_eq!(seconds(&format!("Duration: {}:0:0\nDuration: 0:0:5", huge)), Some(5.0));
}

#[test]
fn appended_text_does_not_matter_to_the_duration() {
    let stderr = "x\n  Duration: 00:00:07.50, start: 0\n";
    for more in ["", "Duration: N/A\n", "Duration: 1:1:1", "other"] {
        assert_eq!(seconds(&format!("{}{}", stderr, more)), Some(7.5));
        assert_eq!(seconds(&format!("{}\n{}", stderr, more)), Some(7.5));
        assert_eq!(seconds(&format!("x\nDuration: 0:0:7.5\n{}", more)), Some(7.5));
        assert_eq!(seconds(&format!("Duration: 0:0:7.5,\r\n{}", more)), Some(7.5));
    }
}

#[test]
fn limit_is_inclusive() {
    let at = AudioLength { whole_seconds: 120, has_fraction: false, seconds_text: "00.00".to_string() };
    let just_over = AudioLength { whole_seconds: 120, has_fraction: true, seconds_text: "00.01".to_string() };
    let over = AudioLength { whole_seconds: 754, has_fraction: true, seconds_text: "34.50".to_string() };
    assert!(!at.exceeds(120));
    assert!(at.exceeds(119));
    assert!(just_over.exceeds(120));
    assert!(over.exceeds(120));
    assert_eq!(just_over.over_limit_reason(120), "上限 120 秒を超過 (02:00.01)");
    assert_eq!(over.over_limit_reason(120), "上限 120 秒を超過 (12:34.50)");
}

#[test]
fn bare_command_names_detected() {
    assert!(is_bare_command("ffmpeg"));
    assert!(is_bare_command("ffmpeg.exe"));
    assert!(!is_bare_command("./ffmpeg"));
    assert!(!is_bare_command("tools/ffmpeg.exe"));
    assert!(!is_bare_command("C:\\tools\\ffmpeg.exe"));
    assert!(!is_bare_command("/usr/bin/ffmpeg"));
}

#[test]
fn bare_command_edges() {
    assert!(is_bare_command(""));
    assert!(!is_bare_command("C:"));
    assert!(!is_bare_command("a\\b"));
}

#[test]
fn paths_equal_case_sensitivity() {
    let host = Host::detect().platform();
    let a = "C:\\Data\\greeting.wav";
    let b = "c:\\data\\GREETING.WAV";
    if host == Platform::Windows {
        assert!(paths_equal(host, a, b));
    } else {
        assert!(!paths_equal(host, a, b));
    }
    assert!(!paths_equal(host, "a.wav", "b.wav"));
}

#[test]
fn paths_equal_on_each_platform() {
    let a = "C:\\Data\\greeting.wav";
    let b = "c:\\data\\GREETING.WAV";
    assert!(paths_equal(Platform::Windows, a, b));
    assert!(!paths_equal(Platform::Unix, a, b));
    assert!(paths_equal(Platform::Windows, "Ä.wav", "ä.WAV"));
    assert!(!paths_equal(Platform::Windows, "a.wav", "b.wav"));
    assert_eq!(platform_for('/'), Platform::Unix);
    assert_eq!(platform_for('\\'), Platform::Windows);
    assert_eq!(platform_for(std::path::MAIN_SEPARATOR), Host::detect().platform());
}

#[test]
fn unix_paths_are_equal_as_std_has_them() {
    let paths = [
        "", "/", ".", "./", "..", "a", "a/", "./a", "././a", "/a", "//a", "/./a", "a/b", "a//b",
        "a/./b", "a/b/.", "a/../b", "b", "A", "/a/b", "./a/b", ".a", "a.",
    ];
    for a in paths {
        for b in paths {
            assert_eq!(
                paths_equal(Platform::Unix, a, b),
                std::path::Path::new(a) == std::path::Path::new(b),
                "{} {}",
                a,
                b
            );
        }
    }
}

#[test]
fn unique_output_path_no_collision() {
    let existing: HashSet<PathBuf> = HashSet::new();
    let p = unique_output_path_with(
        &Host::detect(),
        "/out",
        "greeting",
        "20260427_143052",
        "wav",
        |p: &str| existing.contains(&PathBuf::from(p)),
    );
    assert_eq!(PathBuf::from(p), PathBuf::from("/out/greeting_20260427_143052.wav"));
}

#[test]
fn unique_output_path_avoids_collision() {
    let taken: HashSet<PathBuf> = [
        PathBuf::from("/out/greeting_20260427_143052.wav"),
        PathBuf::from("/out/greeting_20260427_143052 (2).wav"),
    ]
    .into_iter()
    .collect();
    let p = unique_output_path_with(
        &Host::detect(),
        "/out",
        "greeting",
        "20260427_143052",
        "wav",
        |p: &str| taken.contains(&PathBuf::from(p)),
    );
    assert_eq!(PathBuf::from(p), PathBuf::from("/out/greeting_20260427_143052 (3).wav"));
}

#[test]
fn unique_output_path_different_stems_no_suffix() {
    let taken: HashSet<PathBuf> =
        [PathBuf::from("/out/a_20260427_143052.wav")].into_iter().collect();
    let p = unique_output_path_with(
        &Host::detect(),
        "/out",
        "b",
        "20260427_143052",
        "wav",
        |p: &str| taken.contains(&PathBuf::from(p)),
    );
    assert_eq!(PathBuf::from(p), PathBuf::from("/out/b_20260427_143052.wav"));
}

#[test]
fn first_free_path_counts_on() {
    let host = Host::detect();
    let mut taken: Vec<String> = Vec::new();
    for k in 0..12 {
        let p = unique_output_path_among(&host, "/out", "a", "t", "wav", &taken).unwrap();
        assert!(!taken.contains(&p));
        let q = first_free_output_path(&host, "/out", "a", "t", "wav", |p: &str| {
            taken.iter().any(|t| t == p)
        });
        assert_eq!(q.as_deref(), Some(p.as_str()));
        let name = output_file_name("a", "t", "wav", k);
        assert!(p.ends_with(&name));
        taken.push(p);
    }
    assert!(taken[0].ends_with("a_t.wav"));
    assert!(taken[1].ends_with("a_t (2).wav"));
    assert!(taken[11].ends_with("a_t (12).wav"));
}

#[test]
fn joining_follows_the_host() {
    let host = Host::detect();
    let nothing: Vec<String> = Vec::new();
    if host.platform() == Platform::Unix {
        for (dir, stem, expected) in [
            ("", "a", "a_t.wav"),
            ("/", "a", "/a_t.wav"),
            ("out/", "a", "out/a_t.wav"),
            ("out", "/a", "/a_t.wav"),
            ("out", "b/a", "out/b/a_t.wav"),
        ] {
            let p = unique_output_path_among(&host, dir, stem, "t", "wav", &nothing);
            assert_eq!(p.as_deref(), Some(expected));
        }
    }
}

#[test]
fn disk_decides_on_the_path() {
    let host = Host::detect();
    let never = |_: &str| -> bool { unreachable!() };
    let free = unique_output_path(&host, "/no such folder", "a", "t", "wav", &never).unwrap();
    assert!(free.ends_with("a_t.wav"));
    // Folders that are there on most systems with a /proc.
    for (dir, stem, rest) in
        [("/proc/sys/fs", "binfmt", "misc/"), ("/proc/self", "map", "files/")]
    {
        let folder = format!("{}/{}_{}", dir, stem, rest);
        if std::path::Path::new(&folder).exists() {
            let next = unique_output_path(&host, dir, stem, rest, "", &never).unwrap();
            assert_eq!(next, format!("{} (2).", folder));
        }
    }
}
