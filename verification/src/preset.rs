//! The audio formats that the supported telephone systems take.

use vstd::prelude::*;
use vstd::string::*;
use crate::text;

verus! {

/// A format, named after the device it is for.
#[derive(Clone, Copy, Debug, PartialEq, Eq, Structural)]
pub enum Preset {
    /// Takacom answering machine: mu-law, 8000 Hz, 8 bit, mono.
    TakacomMuLaw,
    /// Takacom answering machine: PCM, 44100 Hz, 16 bit, mono.
    TakacomPcmMono,
    /// Takacom answering machine: PCM, 44100 Hz, 16 bit, stereo.
    TakacomPcmStereo,
    /// Nakayo: AAC-LC in ADTS, 8000 Hz, 24 kbps, mono.
    NakayoAac,
    /// Iwatsu: PCM, 8000 Hz, 16 bit, mono. It takes two minutes at most.
    IwatsuPcmLimited,
}

/// A row of the list of presets.
pub struct PresetRow {
    /// The heading in front of the row, where a new group begins.
    pub heading: Option<&'static str>,
    /// Whether a gap stands in front of the heading.
    pub gap: bool,
    pub preset: Preset,
}

/// All presets, in the order in which they are listed.
pub open spec fn presets() -> Seq<Preset> {
    seq![
        Preset::TakacomMuLaw,
        Preset::TakacomPcmMono,
        Preset::TakacomPcmStereo,
        Preset::NakayoAac,
        Preset::IwatsuPcmLimited,
    ]
}

/// Whether `row` is the row number `i` of the list. A row has its group as
/// heading unless the row in front of it is of the same group; a gap parts a
/// heading from the row in front of it.
pub open spec fn is_preset_row(row: PresetRow, i: int) -> bool {
    let new_group = i == 0 || presets()[i - 1].group_text() != presets()[i].group_text();
    &&& row.preset == presets()[i]
    &&& row.gap == (new_group && i > 0)
    &&& match row.heading {
        Some(heading) => new_group && heading@ == presets()[i].group_text(),
        None => !new_group,
    }
}

impl Preset {
    /// The maker of the device.
    pub open spec fn group_text(self) -> Seq<char> {
        match self {
            Preset::NakayoAac => "ナカヨ"@,
            Preset::IwatsuPcmLimited => "岩崎通信機"@,
            _ => "タカコム留守番"@,
        }
    }

    /// What the format is called in the list.
    pub open spec fn label_text(self) -> Seq<char> {
        match self {
            Preset::TakacomMuLaw => "μ-law 8kHz 8bit モノラル"@,
            Preset::TakacomPcmMono => "PCM 44.1kHz 16bit モノラル"@,
            Preset::TakacomPcmStereo => "PCM 44.1kHz 16bit ステレオ"@,
            Preset::NakayoAac => "AAC (ADTS) 8kHz 24kbps モノラル (LC)"@,
            Preset::IwatsuPcmLimited => "PCM 8kHz 16bit モノラル (録音2分以内)"@,
        }
    }

    /// The extension of the files of this format.
    pub open spec fn extension_text(self) -> Seq<char> {
        match self {
            Preset::NakayoAac => "aac"@,
            _ => "wav"@,
        }
    }

    /// How many seconds a recording may take, where the device sets a limit.
    pub open spec fn duration_limit(self) -> Option<u64> {
        match self {
            Preset::IwatsuPcmLimited => Some(120),
            _ => None,
        }
    }

    /// The options that tell `ffmpeg` to produce this format.
    pub open spec fn encoder_options(self) -> Seq<Seq<char>> {
        match self {
            Preset::TakacomMuLaw => pcm_options("pcm_mulaw"@, "8000"@, "1"@),
            Preset::TakacomPcmMono => pcm_options("pcm_s16le"@, "44100"@, "1"@),
            Preset::TakacomPcmStereo => pcm_options("pcm_s16le"@, "44100"@, "2"@),
            Preset::NakayoAac => seq![
                "-c:a"@,
                "aac"@,
                "-profile:a"@,
                "aac_low"@,
                "-b:a"@,
                "24k"@,
                "-ar"@,
                "8000"@,
                "-ac"@,
                "1"@,
                "-f"@,
                "adts"@,
            ],
            Preset::IwatsuPcmLimited => pcm_options("pcm_s16le"@, "8000"@, "1"@),
        }
    }

    /// All of the arguments for `ffmpeg`: they let it overwrite `output`, name
    /// `input`, give the options of the format, and end with `output`.
    pub open spec fn arguments(self, input: Seq<char>, output: Seq<char>) -> Seq<Seq<char>> {
        seq!["-y"@, "-i"@, input] + self.encoder_options() + seq![output]
    }

    /// All presets, in the order in which they are listed.
    pub fn all() -> (r: Vec<Preset>)
        ensures
            r@ == presets(),
    {
        vec![
            Preset::TakacomMuLaw,
            Preset::TakacomPcmMono,
            Preset::TakacomPcmStereo,
            Preset::NakayoAac,
            Preset::IwatsuPcmLimited,
        ]
    }

    /// The maker of the device, for the headings of the list.
    pub fn group(&self) -> (r: &'static str)
        ensures
            r@ == self.group_text(),
    {
        match self {
            Preset::TakacomMuLaw | Preset::TakacomPcmMono | Preset::TakacomPcmStereo =>
            "タカコム留守番",
            Preset::NakayoAac => "ナカヨ",
            Preset::IwatsuPcmLimited => "岩崎通信機",
        }
    }

    /// What the format is called in the list.
    pub fn label(&self) -> (r: &'static str)
        ensures
            r@ == self.label_text(),
    {
        match self {
            Preset::TakacomMuLaw => "μ-law 8kHz 8bit モノラル",
            Preset::TakacomPcmMono => "PCM 44.1kHz 16bit モノラル",
            Preset::TakacomPcmStereo => "PCM 44.1kHz 16bit ステレオ",
            Preset::NakayoAac => "AAC (ADTS) 8kHz 24kbps モノラル (LC)",
            Preset::IwatsuPcmLimited => "PCM 8kHz 16bit モノラル (録音2分以内)",
        }
    }

    /// The extension of the files of this format.
    pub fn extension(&self) -> (r: &'static str)
        ensures
            r@ == self.extension_text(),
    {
        match self {
            Preset::NakayoAac => "aac",
            _ => "wav",
        }
    }

    /// How many seconds a recording may take, or `None` where there is no limit.
    pub fn max_duration_secs(&self) -> (r: Option<u64>)
        ensures
            r == self.duration_limit(),
    {
        match self {
            Preset::IwatsuPcmLimited => Some(120),
            _ => None,
        }
    }

    /// The arguments with which `ffmpeg` converts `input` to `output`.
    pub fn ffmpeg_args(&self, input: &str, output: &str) -> (r: Vec<String>)
        ensures
            text::texts(r@) == self.arguments(input@, output@),
            r@.len() >= 4,
            r@[2]@ == input@,
            r@.last()@ == output@,
    {
        let mut args: Vec<String> = Vec::new();
        args.push("-y".to_owned());
        args.push("-i".to_owned());
        args.push(input.to_owned());
        let ghost head = seq!["-y"@, "-i"@, input@];
        assert(text::texts(args@) == head);
        match self {
            Preset::TakacomMuLaw => push_pcm_options(&mut args, "pcm_mulaw", "8000", "1"),
            Preset::TakacomPcmMono => push_pcm_options(&mut args, "pcm_s16le", "44100", "1"),
            Preset::TakacomPcmStereo => push_pcm_options(&mut args, "pcm_s16le", "44100", "2"),
            Preset::NakayoAac => {
                args.push("-c:a".to_owned());
                args.push("aac".to_owned());
                args.push("-profile:a".to_owned());
                args.push("aac_low".to_owned());
                args.push("-b:a".to_owned());
                args.push("24k".to_owned());
                args.push("-ar".to_owned());
                args.push("8000".to_owned());
                args.push("-ac".to_owned());
                args.push("1".to_owned());
                args.push("-f".to_owned());
                args.push("adts".to_owned());
                assert(text::texts(args@) == head + self.encoder_options());
            },
            Preset::IwatsuPcmLimited => push_pcm_options(&mut args, "pcm_s16le", "8000", "1"),
        }
        let ghost middle = args@;
        assert(text::texts(middle) == head + self.encoder_options());
        args.push(output.to_owned());
        assert(text::texts(args@) == text::texts(middle).push(output@));
        assert(text::texts(args@) == self.arguments(input@, output@));
        assert(text::texts(args@)[2] == args@[2]@);
        args
    }
}

/// The options for a PCM codec at `rate` samples a second in `channels` channels.
pub open spec fn pcm_options(codec: Seq<char>, rate: Seq<char>, channels: Seq<char>) -> Seq<
    Seq<char>,
> {
    seq!["-acodec"@, codec, "-ar"@, rate, "-ac"@, channels]
}

fn push_pcm_options(args: &mut Vec<String>, codec: &str, rate: &str, channels: &str)
    ensures
        text::texts(final(args)@) == text::texts(old(args)@) + pcm_options(
            codec@,
            rate@,
            channels@,
        ),
{
    args.push("-acodec".to_owned());
    args.push(codec.to_owned());
    args.push("-ar".to_owned());
    args.push(rate.to_owned());
    args.push("-ac".to_owned());
    args.push(channels.to_owned());
    assert(text::texts(args@) == text::texts(old(args)@) + pcm_options(codec@, rate@, channels@));
}

/// The rows of the list of presets, grouped by maker.
pub fn preset_rows() -> (r: Vec<PresetRow>)
    ensures
        r@.len() == presets().len(),
        forall|i: int| 0 <= i < r@.len() ==> is_preset_row(#[trigger] r@[i], i),
{
    let presets_list = Preset::all();
    let mut rows: Vec<PresetRow> = Vec::new();
    let mut last_group: Option<&'static str> = None;
    for i in 0..presets_list.len()
        invariant
            presets_list@ == presets(),
            rows@.len() == i,
            match last_group {
                Some(group) => i > 0 && group@ == presets()[i - 1].group_text(),
                None => i == 0,
            },
            forall|j: int| 0 <= j < i ==> is_preset_row(#[trigger] rows@[j], j),
    {
        let preset = presets_list[i];
        let group = preset.group();
        let same = match last_group {
            Some(last) => text::same_text(last, group),
            None => false,
        };
        if same {
            rows.push(PresetRow { heading: None, gap: false, preset });
        } else {
            rows.push(PresetRow { heading: Some(group), gap: last_group.is_some(), preset });
        }
        last_group = Some(group);
    }
    rows
}

/// Whatever the format, `ffmpeg` is let overwrite, is given the input third and
/// the output last.
pub proof fn law_arguments_frame(preset: Preset, input: Seq<char>, output: Seq<char>)
    ensures
        preset.arguments(input, output)[0] == "-y"@,
        preset.arguments(input, output)[1] == "-i"@,
        preset.arguments(input, output)[2] == input,
        preset.arguments(input, output).last() == output,
        preset.arguments(input, output).len() == preset.encoder_options().len() + 4,
{
}

/// The presets of one maker stand together, so that each maker has one heading.
pub proof fn law_groups_stand_together(i: int, j: int, k: int)
    requires
        0 <= i <= j <= k < presets().len(),
        presets()[i].group_text() == presets()[k].group_text(),
    ensures
        presets()[j].group_text() == presets()[i].group_text(),
{
    reveal_strlit("ナカヨ");
    reveal_strlit("岩崎通信機");
    reveal_strlit("タカコム留守番");
}

/// Every preset is in the list, once.
pub proof fn law_every_preset_is_listed(preset: Preset)
    ensures
        presets().contains(preset),
        presets().no_duplicates(),
{
    let i: int = match preset {
        Preset::TakacomMuLaw => 0,
        Preset::TakacomPcmMono => 1,
        Preset::TakacomPcmStereo => 2,
        Preset::NakayoAac => 3,
        Preset::IwatsuPcmLimited => 4,
    };
    assert(presets()[i] == preset);
}

/// The options of a format do not depend on the files: between the input and the output
/// the arguments are the same for all.
pub proof fn law_options_do_not_depend_on_the_files(
    preset: Preset,
    input: Seq<char>,
    output: Seq<char>,
    other_input: Seq<char>,
    other_output: Seq<char>,
)
    ensures
        ({
            let a = preset.arguments(input, output);
            let b = preset.arguments(other_input, other_output);
            &&& a.len() == b.len()
            &&& forall|i: int| 0 <= i < a.len() - 1 && i != 2 ==> #[trigger] a[i] == b[i]
            &&& a[2] == input
            &&& a.last() == output
        }),
{
}

/// Every format is asked for with its sample rate behind `-ar` and its channels behind
/// `-ac`: eight or 44.1 thousand samples a second, two channels for stereo and one
/// otherwise.
pub proof fn law_rate_and_channels(preset: Preset, input: Seq<char>, output: Seq<char>)
    ensures
        ({
            let args = preset.arguments(input, output);
            let rate = if preset == Preset::TakacomPcmMono || preset == Preset::TakacomPcmStereo {
                "44100"@
            } else {
                "8000"@
            };
            let channels = if preset == Preset::TakacomPcmStereo {
                "2"@
            } else {
                "1"@
            };
            exists|i: int|
                {
                    &&& 3 <= i < args.len() - 4
                    &&& #[trigger] args[i] == "-ar"@
                    &&& args[i + 1] == rate
                    &&& args[i + 2] == "-ac"@
                    &&& args[i + 3] == channels
                }
        }),
{
    let args = preset.arguments(input, output);
    let i: int = if preset == Preset::NakayoAac {
        9
    } else {
        5
    };
    assert(args[i] == "-ar"@);
}

} // verus!
