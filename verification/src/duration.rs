//! How long a recording is: what `ffmpeg` prints about it, and whether that is
//! more than a device takes.

use vstd::prelude::*;
use vstd::string::*;
use crate::text;

verus! {

/// What came of reading a piece of text as a number.
pub enum Reading<N> {
    /// The text is not a number.
    Malformed,
    /// The text stands for an infinity or for no number at all.
    NotFinite,
    /// The text is this number.
    Finite(N),
}

/// The three numbers of a duration, as they stand in `HH:MM:SS.xx`.
pub struct DurationParts<N> {
    pub hours: N,
    pub minutes: N,
    pub seconds: N,
}

/// What one line of `ffmpeg`'s output says about the duration.
pub enum DurationLine {
    /// Nothing that can be read.
    Nothing,
    /// That the duration is not available.
    Unavailable,
    /// Hours, minutes and seconds, still as text.
    Parts(Seq<char>, Seq<char>, Seq<char>),
}

/// Whether `value` is `N/A`, in either case.
pub open spec fn is_not_available(value: Seq<char>) -> bool {
    &&& value.len() == 3
    &&& value[0] == 'N' || value[0] == 'n'
    &&& value[1] == '/'
    &&& value[2] == 'A' || value[2] == 'a'
}

/// The value of a line that begins, behind white space, with `Duration:`. It
/// reaches to the first comma.
pub open spec fn duration_value(line: Seq<char>) -> Option<Seq<char>> {
    let text = text::trimmed_start(line);
    if "Duration:"@.is_prefix_of(text) {
        let rest = text.skip("Duration:"@.len() as int);
        Some(text::trimmed(rest.take(text::first_index(rest, ',') as int)))
    } else {
        None
    }
}

/// What `line` says about the duration.
pub open spec fn duration_line(line: Seq<char>) -> DurationLine {
    match duration_value(line) {
        None => DurationLine::Nothing,
        Some(value) => {
            let parts = text::pieces(value, ':');
            if is_not_available(value) {
                DurationLine::Unavailable
            } else if parts.len() == 3 {
                DurationLine::Parts(text::trimmed(parts[0]), text::trimmed(parts[1]), text::trimmed(parts[2]))
            } else {
                DurationLine::Nothing
            }
        },
    }
}

/// Whether `s` has the form of the seconds, `SS.xx`: digits, and perhaps a dot
/// with digits behind it.
pub open spec fn is_seconds_form(s: Seq<char>) -> bool {
    let dot = text::first_index(s, '.') as int;
    if dot < s.len() {
        text::all_digits(s.take(dot)) && text::all_digits(s.skip(dot + 1))
    } else {
        text::all_digits(s)
    }
}

/// What a field is as a number, where its text reads as `reading`. A finite
/// number in another form than the field's does not count.
pub open spec fn field_reading<N>(reading: Reading<N>, formed: bool) -> Reading<N> {
    if reading is Finite && !formed {
        Reading::Malformed
    } else {
        reading
    }
}

/// The duration that `lines` report, where `number` says what each text is as a
/// number. The first line that settles the matter counts: one that has the
/// duration not available, one with a field that is no number or of another form
/// than `HH:MM:SS.xx`, or one with three finite fields.
pub open spec fn reported_duration<N>(
    lines: Seq<Seq<char>>,
    number: spec_fn(Seq<char>) -> Reading<N>,
) -> Option<DurationParts<N>>
    decreases lines.len(),
{
    if lines.len() == 0 {
        None
    } else {
        match duration_line(lines[0]) {
            DurationLine::Nothing => reported_duration(lines.drop_first(), number),
            DurationLine::Unavailable => None,
            DurationLine::Parts(h, m, s) => match (
                field_reading(number(h), text::all_digits(h)),
                field_reading(number(m), text::all_digits(m)),
                field_reading(number(s), is_seconds_form(s)),
            ) {
                (Reading::Finite(hours), Reading::Finite(minutes), Reading::Finite(seconds)) =>
                Some(DurationParts { hours, minutes, seconds }),
                (h, m, s) => if h is Malformed || m is Malformed || s is Malformed {
                    None
                } else {
                    reported_duration(lines.drop_first(), number)
                },
            },
        }
    }
}

/// Whether the reader `read` can make `r` of `text`.
pub open spec fn reads<N, R: Fn(&str) -> Reading<N>>(
    read: R,
    text: Seq<char>,
    r: Reading<N>,
) -> bool {
    exists|t: &str| t@ == text && #[trigger] call_ensures(read, (t,), r)
}

/// Whether a field with `text` in it can come to `r` under the answers of `read`.
pub open spec fn reads_field<N, R: Fn(&str) -> Reading<N>>(
    read: R,
    text: Seq<char>,
    formed: bool,
    r: Reading<N>,
) -> bool {
    exists|reading: Reading<N>| #[trigger]
        reads(read, text, reading) && r == field_reading(reading, formed)
}

/// Whether `r` is a duration that `lines` report under the answers of `read`.
pub open spec fn is_report<N, R: Fn(&str) -> Reading<N>>(
    lines: Seq<Seq<char>>,
    read: R,
    r: Option<DurationParts<N>>,
) -> bool
    decreases lines.len(),
{
    if lines.len() == 0 {
        r is None
    } else {
        match duration_line(lines[0]) {
            DurationLine::Nothing => is_report(lines.drop_first(), read, r),
            DurationLine::Unavailable => r is None,
            DurationLine::Parts(h, m, s) => exists|a: Reading<N>, b: Reading<N>, c: Reading<N>|
                {
                    &&& #[trigger] reads_field(read, h, text::all_digits(h), a)
                    &&& #[trigger] reads_field(read, m, text::all_digits(m), b)
                    &&& #[trigger] reads_field(read, s, is_seconds_form(s), c)
                    &&& if a is Malformed || b is Malformed || c is Malformed {
                        r is None
                    } else if a is NotFinite || b is NotFinite || c is NotFinite {
                        is_report(lines.drop_first(), read, r)
                    } else {
                        r == Some(
                            DurationParts {
                                hours: a->Finite_0,
                                minutes: b->Finite_0,
                                seconds: c->Finite_0,
                            },
                        )
                    }
                },
        }
    }
}

/// Whether the reader `read` computes `number`.
pub open spec fn computes<N, R: Fn(&str) -> Reading<N>>(
    read: R,
    number: spec_fn(Seq<char>) -> Reading<N>,
) -> bool {
    forall|text: &str, r: Reading<N>| call_ensures(read, (text,), r) ==> r == number(text@)
}

/// Finds the line `Duration: HH:MM:SS.xx` in what `ffmpeg -i` printed, and reads
/// its three numbers with `read`. Hours and minutes are digits; the seconds may
/// have a dot and more digits. There is no duration where the line is missing or of
/// another form, or says `N/A`.
///
/// `ffmpeg` writes these lines in English whatever the locale.
pub fn parse_ffmpeg_duration<N, R: Fn(&str) -> Reading<N>>(stderr: &str, read: R) -> (r: Option<
    DurationParts<N>,
>)
    requires
        forall|text: &str| call_requires(read, (text,)),
    ensures
        is_report(text::lines_of(stderr@), read, r),
        forall|number: spec_fn(Seq<char>) -> Reading<N>| #[trigger]
            computes(read, number) ==> r == reported_duration(text::lines_of(stderr@), number),
{
    let found = text::lines(stderr);
    let ghost all = text::lines_of(stderr@);
    let mut i: usize = 0;
    assert(all.skip(0) == all);
    while i < found.len()
        invariant
            i <= found.len(),
            found@.map_values(|line: &str| line@) == all,
            all == text::lines_of(stderr@),
            forall|text: &str| call_requires(read, (text,)),
            forall|r: Option<DurationParts<N>>| #[trigger]
                is_report(all.skip(i as int), read, r) ==> is_report(all, read, r),
            forall|number: spec_fn(Seq<char>) -> Reading<N>| #[trigger]
                computes(read, number) ==> reported_duration(all, number) == reported_duration(
                    all.skip(i as int),
                    number,
                ),
        decreases found.len() - i,
    {
        let line = found[i];
        assert(all.skip(i as int)[0] == line@);
        assert(all.skip(i as int).drop_first() == all.skip(i + 1));
        if let Some(rest) = text::strip_prefix(text::trim_start(line), "Duration:") {
            assert(text::trimmed_start(line@).skip("Duration:"@.len() as int) == rest@);
            assert(text::trimmed_start(line@).take("Duration:"@.len() as int) == "Duration:"@);
            let value = text::trim(text::cut(rest, ',').0);
            if not_available(value) {
                assert(is_report(all.skip(i as int), read, None));
                return None;
            }
            let parts = text::split(value, ':');
            assert(parts@.map_values(|piece: &str| piece@).len() == parts.len());
            if parts.len() == 3 {
                assert(text::pieces(value@, ':')[0] == parts@[0]@);
                assert(text::pieces(value@, ':')[1] == parts@[1]@);
                assert(text::pieces(value@, ':')[2] == parts@[2]@);
                let (h, m, s) = (text::trim(parts[0]), text::trim(parts[1]), text::trim(parts[2]));
                assert(duration_line(line@) == DurationLine::Parts(h@, m@, s@));
                let hours = read_field(&read, h, text::only_digits(h));
                let minutes = read_field(&read, m, text::only_digits(m));
                let seconds = read_field(&read, s, seconds_form(s));
                let malformed = malformed(&hours) || malformed(&minutes) || malformed(&seconds);
                if malformed {
                    assert(is_report(all.skip(i as int), read, None));
                    return None;
                }
                match (hours, minutes, seconds) {
                    (
                        Reading::Finite(hours),
                        Reading::Finite(minutes),
                        Reading::Finite(seconds),
                    ) => {
                        let parts = DurationParts { hours, minutes, seconds };
                        assert(is_report(all.skip(i as int), read, Some(parts)));
                        return Some(parts);
                    },
                    _ => {},
                }
            }
        }
        assert forall|r: Option<DurationParts<N>>| #[trigger]
            is_report(all.skip(i + 1), read, r) implies is_report(all, read, r) by {
            assert(is_report(all.skip(i as int), read, r));
        }
        i = i + 1;
    }
    assert(is_report(all.skip(i as int), read, None));
    None
}

/// The length of a recording, as far as decisions and messages need it.
pub struct AudioLength {
    /// The whole seconds.
    pub whole_seconds: u64,
    /// Whether the recording is longer than its whole seconds.
    pub has_fraction: bool,
    /// The seconds beyond the last whole minute, as a message shows them.
    pub seconds_text: String,
}

/// Why a recording over the limit is left out: the limit in seconds, and the
/// length in minutes and seconds.
pub open spec fn over_limit_text(limit: nat, whole_seconds: nat, seconds_text: Seq<char>) -> Seq<
    char,
> {
    "上限 "@ + text::decimal(limit) + " 秒を超過 ("@ + text::two_digits(whole_seconds / 60) + ":"@
        + seconds_text + ")"@
}

impl AudioLength {
    /// Whether the recording takes more than `limit` seconds.
    pub open spec fn is_over(self, limit: u64) -> bool {
        self.whole_seconds > limit || (self.whole_seconds == limit && self.has_fraction)
    }

    /// Whether the recording takes more than `limit` seconds. One of exactly
    /// `limit` seconds does not.
    pub fn exceeds(&self, limit: u64) -> (r: bool)
        ensures
            r == self.is_over(limit),
            self.whole_seconds < limit ==> !r,
            self.whole_seconds > limit ==> r,
            self.whole_seconds == limit ==> r == self.has_fraction,
    {
        self.whole_seconds > limit || (self.whole_seconds == limit && self.has_fraction)
    }

    /// Why this recording, over `limit`, is left out.
    pub fn over_limit_reason(&self, limit: u64) -> (r: String)
        ensures
            r@ == over_limit_text(limit as nat, self.whole_seconds as nat, self.seconds_text@),
    {
        "上限 ".to_owned().concat(text::decimal_text(limit).as_str()).concat(
            " 秒を超過 (",
        ).concat(text::two_digit_text(self.whole_seconds / 60).as_str()).concat(":").concat(
            self.seconds_text.as_str(),
        ).concat(")")
    }
}

fn seconds_form(s: &str) -> (r: bool)
    ensures
        r == is_seconds_form(s@),
{
    let (before, behind) = text::cut(s, '.');
    match behind {
        Some(behind) => text::only_digits(before) && text::only_digits(behind),
        None => text::only_digits(before),
    }
}

fn read_field<N, R: Fn(&str) -> Reading<N>>(read: &R, text: &str, formed: bool) -> (r: Reading<N>)
    requires
        call_requires(*read, (text,)),
    ensures
        reads_field(*read, text@, formed, r),
        forall|number: spec_fn(Seq<char>) -> Reading<N>| #[trigger]
            computes(*read, number) ==> r == field_reading(number(text@), formed),
{
    let reading = read(text);
    assert(reads(*read, text@, reading));
    match reading {
        Reading::Finite(value) => if formed {
            Reading::Finite(value)
        } else {
            Reading::Malformed
        },
        other => other,
    }
}

fn malformed<N>(reading: &Reading<N>) -> (r: bool)
    ensures
        r == (reading is Malformed),
{
    match reading {
        Reading::Malformed => true,
        _ => false,
    }
}

fn not_available(value: &str) -> (r: bool)
    ensures
        r == is_not_available(value@),
{
    let chars = text::char_vec(value);
    chars.len() == 3 && (chars[0] == 'N' || chars[0] == 'n') && chars[1] == '/' && (chars[2]
        == 'A' || chars[2] == 'a')
}

/// A recording of exactly the limit is not over it, and one that is over a limit
/// is over every lower one.
pub proof fn law_limit_is_inclusive(length: AudioLength, limit: u64, lower: u64)
    requires
        lower <= limit,
    ensures
        length.whole_seconds == limit && !length.has_fraction ==> !length.is_over(limit),
        length.is_over(limit) ==> length.is_over(lower),
{
}

/// Lines that say nothing about the duration do not change what is reported.
pub proof fn law_other_lines_do_not_matter<N>(
    before: Seq<Seq<char>>,
    lines: Seq<Seq<char>>,
    number: spec_fn(Seq<char>) -> Reading<N>,
)
    requires
        forall|i: int| 0 <= i < before.len() ==> duration_line(#[trigger] before[i]) is Nothing,
    ensures
        reported_duration(before + lines, number) == reported_duration(lines, number),
    decreases before.len(),
{
    if before.len() == 0 {
        assert(before + lines == lines);
    } else {
        assert((before + lines)[0] == before[0]);
        assert((before + lines).drop_first() == before.drop_first() + lines);
        law_other_lines_do_not_matter(before.drop_first(), lines, number);
    }
}

/// Whether `line` is of the form `Duration: HH:MM:SS.xx`.
pub open spec fn has_duration_form(line: Seq<char>) -> bool {
    &&& duration_line(line) matches DurationLine::Parts(h, m, s)
    &&& text::all_digits(h)
    &&& text::all_digits(m)
    &&& is_seconds_form(s)
}

/// Where no line is of the form, there is no duration, whatever the reader makes
/// of the fields.
pub proof fn law_only_the_form_reports<N, R: Fn(&str) -> Reading<N>>(
    lines: Seq<Seq<char>>,
    read: R,
    r: Option<DurationParts<N>>,
)
    requires
        is_report(lines, read, r),
        forall|i: int| 0 <= i < lines.len() ==> !has_duration_form(#[trigger] lines[i]),
    ensures
        r is None,
    decreases lines.len(),
{
    if lines.len() > 0 && r is Some {
        assert(!has_duration_form(lines[0]));
        let rest = lines.drop_first();
        assert forall|i: int| 0 <= i < rest.len() implies !has_duration_form(
            #[trigger] rest[i],
        ) by {
            assert(rest[i] == lines[i + 1]);
        }
        if is_report(rest, read, r) {
            law_only_the_form_reports(rest, read, r);
        }
    }
}

/// Lines behind one that reports a duration do not change what is reported.
pub proof fn law_later_lines_do_not_matter<N>(
    lines: Seq<Seq<char>>,
    more: Seq<Seq<char>>,
    number: spec_fn(Seq<char>) -> Reading<N>,
)
    requires
        reported_duration(lines, number) is Some,
    ensures
        reported_duration(lines + more, number) == reported_duration(lines, number),
    decreases lines.len(),
{
    if lines.len() > 0 {
        assert((lines + more)[0] == lines[0]);
        assert((lines + more).drop_first() == lines.drop_first() + more);
        if reported_duration(lines.drop_first(), number) is Some {
            law_later_lines_do_not_matter(lines.drop_first(), more, number);
        }
    }
}

/// Text that is appended to one with a duration in it, in a line of its own, does not
/// change what is reported.
pub proof fn law_appended_text_does_not_matter<N>(
    stderr: Seq<char>,
    more: Seq<char>,
    number: spec_fn(Seq<char>) -> Reading<N>,
)
    requires
        reported_duration(text::lines_of(stderr), number) is Some,
    ensures
        reported_duration(text::lines_of(stderr.push('\n') + more), number) == reported_duration(
            text::lines_of(stderr),
            number,
        ),
        stderr.last() == '\n' ==> reported_duration(text::lines_of(stderr + more), number)
            == reported_duration(text::lines_of(stderr), number),
{
    let lines = text::lines_of(stderr);
    let ended = text::lines_of(stderr.push('\n'));
    if stderr.last() == '\n' {
        text::law_lines_of_joined_texts(stderr, more);
        law_later_lines_do_not_matter(lines, text::lines_of(more), number);
        text::law_lines_of_joined_texts(stderr, seq!['\n']);
        assert(stderr.push('\n') == stderr + seq!['\n']);
        law_later_lines_do_not_matter(lines, text::lines_of(seq!['\n']), number);
    } else {
        text::lemma_lines_of_ended_text(stderr);
        lemma_carriage_return_does_not_matter(lines.last());
        lemma_same_report(lines, ended, number);
    }
    text::law_lines_of_joined_texts(stderr.push('\n'), more);
    law_later_lines_do_not_matter(ended, text::lines_of(more), number);
}

proof fn lemma_same_report<N>(
    a: Seq<Seq<char>>,
    b: Seq<Seq<char>>,
    number: spec_fn(Seq<char>) -> Reading<N>,
)
    requires
        a.len() == b.len(),
        forall|i: int| 0 <= i < a.len() ==> duration_line(#[trigger] a[i]) == duration_line(b[i]),
    ensures
        reported_duration(a, number) == reported_duration(b, number),
    decreases a.len(),
{
    if a.len() > 0 {
        assert(duration_line(a[0]) == duration_line(b[0]));
        let rest = a.drop_first();
        assert forall|i: int| 0 <= i < rest.len() implies duration_line(#[trigger] rest[i])
            == duration_line(b.drop_first()[i]) by {
            assert(rest[i] == a[i + 1]);
        }
        lemma_same_report(rest, b.drop_first(), number);
    }
}

proof fn lemma_carriage_return_does_not_matter(line: Seq<char>)
    ensures
        duration_line(text::without_carriage_return(line)) == duration_line(line),
{
    let short = text::without_carriage_return(line);
    if short != line {
        assert(line == short.push('\r'));
        text::lemma_trimmed_of_pushed(short, '\r');
        reveal_strlit("Duration:");
        let prefix = "Duration:"@;
        let a = text::trimmed_start(short);
        let b = text::trimmed_start(line);
        if a.len() > 0 {
            if prefix.is_prefix_of(b) && !prefix.is_prefix_of(a) {
                assert(b[8] == prefix[8]);
                assert(a.take(9) == b.take(9));
            }
            if prefix.is_prefix_of(a) {
                assert(a.take(9) == b.take(9));
                let rest = a.skip(9);
                assert(b.skip(9) == rest.push('\r'));
                text::lemma_first_index(rest, ',');
                text::lemma_first_index_of_pushed(rest, '\r', ',');
                if text::first_index(rest, ',') < rest.len() {
                    let i = text::first_index(rest, ',') as int;
                    assert(rest.push('\r').take(i) == rest.take(i));
                } else {
                    assert(rest.take(rest.len() as int) == rest);
                    assert(rest.push('\r').take(rest.len() as int + 1) == rest.push('\r'));
                    text::lemma_trimmed_of_pushed(rest, '\r');
                }
            }
        }
    }
}

/// The three fields of a line of the form `Duration: HH:MM:SS.xx` are what is reported,
/// each whole and in its place. White space may stand in front of the line, lines that
/// do not begin with `Duration:` in front of that, and behind it a comma with more text,
/// further lines, or nothing.
#[verifier::spinoff_prover]
#[verifier::rlimit(60)]
pub proof fn law_fields_are_read_whole<N>(
    before: Seq<char>,
    indent: Seq<char>,
    hours: Seq<char>,
    minutes: Seq<char>,
    whole: Seq<char>,
    fraction: Seq<char>,
    behind: Seq<char>,
    number: spec_fn(Seq<char>) -> Reading<N>,
)
    requires
        before.len() > 0 ==> before.last() == '\n',
        forall|i: int|
            0 <= i < text::lines_of(before).len() ==> !"Duration:"@.is_prefix_of(
                text::trimmed_start(#[trigger] text::lines_of(before)[i]),
            ),
        forall|i: int| 0 <= i < indent.len() ==> #[trigger] indent[i] == ' ',
        hours.len() > 0 && minutes.len() > 0 && whole.len() > 0,
        forall|i: int| 0 <= i < hours.len() ==> '0' <= #[trigger] hours[i] <= '9',
        forall|i: int| 0 <= i < minutes.len() ==> '0' <= #[trigger] minutes[i] <= '9',
        forall|i: int| 0 <= i < whole.len() ==> '0' <= #[trigger] whole[i] <= '9',
        forall|i: int| 0 <= i < fraction.len() ==> '0' <= #[trigger] fraction[i] <= '9',
        behind.len() > 0 ==> behind[0] == ',' || behind[0] == '\n',
        number(hours) is Finite,
        number(minutes) is Finite,
        ({
            let seconds = if fraction.len() == 0 {
                whole
            } else {
                whole + "."@ + fraction
            };
            number(seconds) is Finite
        }),
    ensures
        ({
            let seconds = if fraction.len() == 0 {
                whole
            } else {
                whole + "."@ + fraction
            };
            let stderr = before + (indent + "Duration: "@ + (hours + ":"@ + minutes + ":"@
                + seconds) + behind);
            let r = reported_duration(text::lines_of(stderr), number);
            &&& r is Some
            &&& Reading::Finite(r->0.hours) == number(hours)
            &&& Reading::Finite(r->0.minutes) == number(minutes)
            &&& Reading::Finite(r->0.seconds) == number(seconds)
        }),
{
    reveal_strlit(".");
    reveal_strlit(":");
    let seconds = if fraction.len() == 0 {
        whole
    } else {
        whole + "."@ + fraction
    };
    assert forall|i: int| 0 <= i < seconds.len() implies '0' <= #[trigger] seconds[i] <= '9'
        || seconds[i] == '.' by {
        if i < whole.len() {
            assert(seconds[i] == whole[i]);
        } else if i > whole.len() {
            assert(seconds[i] == fraction[i - whole.len() - 1]);
        }
    }
    assert(seconds.last() != '.') by {
        if fraction.len() > 0 {
            assert(seconds.last() == fraction.last());
        }
    }
    assert(is_seconds_form(seconds)) by {
        text::lemma_first_index(seconds, '.');
        if fraction.len() > 0 {
            assert(seconds[whole.len() as int] == '.');
            let dot = text::first_index(seconds, '.') as int;
            if dot < whole.len() {
                assert(seconds[dot] == whole[dot]);
            }
            assert(seconds.take(dot) == whole);
            assert(seconds.skip(dot + 1) == fraction);
        }
    }
    lemma_plain(hours);
    lemma_plain(minutes);
    lemma_plain(seconds);
    lemma_three_fields(hours, minutes, seconds);
    let value = hours + ":"@ + minutes + ":"@ + seconds;
    let (line, more) = lemma_line_with_value(before, indent, value, behind, number);
    assert((seq![line] + more)[0] == line);
}

/// A duration that is not available is not reported, whatever follows.
#[verifier::spinoff_prover]
#[verifier::rlimit(60)]
pub proof fn law_unavailable_duration_is_none<N>(
    before: Seq<char>,
    indent: Seq<char>,
    n: char,
    a: char,
    behind: Seq<char>,
    number: spec_fn(Seq<char>) -> Reading<N>,
)
    requires
        before.len() > 0 ==> before.last() == '\n',
        forall|i: int|
            0 <= i < text::lines_of(before).len() ==> !"Duration:"@.is_prefix_of(
                text::trimmed_start(#[trigger] text::lines_of(before)[i]),
            ),
        forall|i: int| 0 <= i < indent.len() ==> #[trigger] indent[i] == ' ',
        n == 'N' || n == 'n',
        a == 'A' || a == 'a',
        behind.len() > 0 ==> behind[0] == ',' || behind[0] == '\n',
    ensures
        reported_duration(
            text::lines_of(before + (indent + "Duration: "@ + seq![n, '/', a] + behind)),
            number,
        ) is None,
{
    let value = seq![n, '/', a];
    assert(value.last() == a);
    assert(value[0] == n && value[1] == '/' && value[2] == a);
    assert(is_not_available(value));
    let (line, more) = lemma_line_with_value(before, indent, value, behind, number);
    assert(duration_line(line) is Unavailable);
    assert((seq![line] + more)[0] == line);
}

/// Where no line begins, behind white space, with `Duration:`, there is no duration.
pub proof fn law_no_line_no_duration<N>(
    stderr: Seq<char>,
    number: spec_fn(Seq<char>) -> Reading<N>,
)
    requires
        forall|i: int|
            0 <= i < text::lines_of(stderr).len() ==> !"Duration:"@.is_prefix_of(
                text::trimmed_start(#[trigger] text::lines_of(stderr)[i]),
            ),
    ensures
        reported_duration(text::lines_of(stderr), number) is None,
{
    let lines = text::lines_of(stderr);
    assert forall|i: int| 0 <= i < lines.len() implies duration_line(
        #[trigger] lines[i],
    ) is Nothing by {}
    law_other_lines_do_not_matter(lines, Seq::empty(), number);
    assert(lines + Seq::<Seq<char>>::empty() == lines);
}

/// A line whose value has no colon, nor the slash of `N/A`, is passed over.
#[verifier::spinoff_prover]
#[verifier::rlimit(60)]
pub proof fn law_value_without_colons_is_passed_over<N>(
    before: Seq<char>,
    indent: Seq<char>,
    value: Seq<char>,
    behind: Seq<char>,
    number: spec_fn(Seq<char>) -> Reading<N>,
)
    requires
        before.len() > 0 ==> before.last() == '\n',
        forall|i: int|
            0 <= i < text::lines_of(before).len() ==> !"Duration:"@.is_prefix_of(
                text::trimmed_start(#[trigger] text::lines_of(before)[i]),
            ),
        forall|i: int| 0 <= i < indent.len() ==> #[trigger] indent[i] == ' ',
        value.len() > 0,
        forall|i: int|
            0 <= i < value.len() ==> #[trigger] value[i] != ':' && value[i] != ',' && value[i] != '/'
                && !text::is_white_space(value[i]),
    ensures
        reported_duration(
            text::lines_of(before + (indent + "Duration: "@ + value + (seq!['\n'] + behind))),
            number,
        ) == reported_duration(text::lines_of(behind), number),
{
    let (line, more) = lemma_line_with_value(before, indent, value, seq!['\n'] + behind, number);
    assert((seq!['\n'] + behind).skip(1) == behind);
    text::law_pieces_stand_between_separators(value, Seq::empty(), ':');
    assert((seq![line] + more)[0] == line);
    assert((seq![line] + more).drop_first() == more);
    if is_not_available(value) {
        assert(value[1] == '/');
    }
    assert(duration_line(line) is Nothing);
}

/// A field that is no number, or that is a number in another form, leaves no duration.
/// A line of the form with a field that is too large for a finite number is passed over.
#[verifier::spinoff_prover]
#[verifier::rlimit(60)]
pub proof fn law_other_fields_report_nothing<N>(
    before: Seq<char>,
    indent: Seq<char>,
    hours: Seq<char>,
    minutes: Seq<char>,
    seconds: Seq<char>,
    behind: Seq<char>,
    number: spec_fn(Seq<char>) -> Reading<N>,
)
    requires
        before.len() > 0 ==> before.last() == '\n',
        forall|i: int|
            0 <= i < text::lines_of(before).len() ==> !"Duration:"@.is_prefix_of(
                text::trimmed_start(#[trigger] text::lines_of(before)[i]),
            ),
        forall|i: int| 0 <= i < indent.len() ==> #[trigger] indent[i] == ' ',
        hours.len() > 0 && minutes.len() > 0 && seconds.len() > 0,
        forall|i: int|
            0 <= i < hours.len() ==> #[trigger] hours[i] != ':' && hours[i] != ','
                && !text::is_white_space(hours[i]),
        forall|i: int|
            0 <= i < minutes.len() ==> #[trigger] minutes[i] != ':' && minutes[i] != ','
                && !text::is_white_space(minutes[i]),
        forall|i: int|
            0 <= i < seconds.len() ==> #[trigger] seconds[i] != ':' && seconds[i] != ','
                && !text::is_white_space(seconds[i]),
    ensures
        ({
            let stderr = before + (indent + "Duration: "@ + (hours + ":"@ + minutes + ":"@
                + seconds) + (seq!['\n'] + behind));
            let r = reported_duration(text::lines_of(stderr), number);
            let of_digits = |field: Seq<char>|
                forall|i: int| 0 <= i < field.len() ==> '0' <= #[trigger] field[i] <= '9';
            let of_digits_and_dots = forall|i: int|
                0 <= i < seconds.len() ==> '0' <= #[trigger] seconds[i] <= '9' || seconds[i] == '.';
            &&& number(hours) is Malformed || number(minutes) is Malformed || number(seconds)
                is Malformed ==> r is None
            &&& number(hours) is Finite && !of_digits(hours) ==> r is None
            &&& number(minutes) is Finite && !of_digits(minutes) ==> r is None
            &&& number(seconds) is Finite && !of_digits_and_dots ==> r is None
            &&& {
                &&& of_digits(hours) && of_digits(minutes) && of_digits(seconds)
                &&& !(number(hours) is Malformed)
                &&& !(number(minutes) is Malformed)
                &&& !(number(seconds) is Malformed)
                &&& number(hours) is NotFinite || number(minutes) is NotFinite || number(seconds)
                    is NotFinite
            } ==> r == reported_duration(text::lines_of(behind), number)
        }),
{
    reveal_strlit(":");
    lemma_plain(hours);
    lemma_plain(minutes);
    lemma_plain(seconds);
    lemma_three_fields(hours, minutes, seconds);
    let value = hours + ":"@ + minutes + ":"@ + seconds;
    let (line, more) = lemma_line_with_value(before, indent, value, seq!['\n'] + behind, number);
    assert((seq!['\n'] + behind).skip(1) == behind);
    assert((seq![line] + more)[0] == line);
    assert((seq![line] + more).drop_first() == more);
    assert(duration_line(line) == DurationLine::Parts(hours, minutes, seconds));
    text::lemma_first_index(seconds, '.');
    if is_seconds_form(seconds) {
        let dot = text::first_index(seconds, '.') as int;
        assert forall|i: int| 0 <= i < seconds.len() implies '0' <= #[trigger] seconds[i] <= '9'
            || seconds[i] == '.' by {
            if dot < seconds.len() {
                if i < dot {
                    assert(seconds.take(dot)[i] == seconds[i]);
                } else if i > dot {
                    assert(seconds.skip(dot + 1)[i - dot - 1] == seconds[i]);
                }
            }
        }
    }
}

/// The length decides alone: half seconds counted, a recording is over the limit if and
/// only if it has more of them.
pub proof fn law_length_decides(length: AudioLength, limit: u64)
    ensures
        length.is_over(limit) == (2 * length.whole_seconds + if length.has_fraction {
            1int
        } else {
            0int
        } > 2 * limit),
{
}

/// The reason tells the limit in seconds, the whole minutes of the recording, in two
/// digits at least, and the seconds beyond them.
pub proof fn law_reason_tells_limit_and_length(
    limit: nat,
    minutes: nat,
    seconds: nat,
    seconds_text: Seq<char>,
)
    requires
        seconds < 60,
    ensures
        over_limit_text(limit, minutes * 60 + seconds, seconds_text) == "上限 "@ + text::decimal(
            limit,
        ) + " 秒を超過 ("@ + text::two_digits(minutes) + ":"@ + seconds_text + ")"@,
{
    assert((minutes * 60 + seconds) / 60 == minutes);
}

proof fn lemma_plain(field: Seq<char>)
    requires
        field.len() > 0,
        !text::is_white_space(field[0]),
        !text::is_white_space(field.last()),
    ensures
        text::trimmed(field) == field,
{
    assert(text::trimmed_start(field) == field);
}

proof fn lemma_three_fields(a: Seq<char>, b: Seq<char>, c: Seq<char>)
    requires
        a.len() > 0 && c.len() > 0,
        forall|i: int| 0 <= i < a.len() ==> #[trigger] a[i] != ':',
        forall|i: int| 0 <= i < b.len() ==> #[trigger] b[i] != ':',
        forall|i: int| 0 <= i < c.len() ==> #[trigger] c[i] != ':',
    ensures
        ({
            let value = a + ":"@ + b + ":"@ + c;
            &&& text::pieces(value, ':') == seq![a, b, c]
            &&& !is_not_available(value)
            &&& value[0] == a[0]
            &&& value.last() == c.last()
            &&& value.len() > 0
            &&& forall|i: int|
                0 <= i < value.len() ==> #[trigger] value[i] == ':' || a.contains(value[i])
                    || b.contains(value[i]) || c.contains(value[i])
        }),
{
    reveal_strlit(":");
    let rest = b + ":"@ + c;
    let value = a + ":"@ + b + ":"@ + c;
    text::law_pieces_stand_between_separators(a, rest, ':');
    text::law_pieces_stand_between_separators(b, c, ':');
    text::law_pieces_stand_between_separators(c, Seq::empty(), ':');
    assert(b + seq![':'] + c == rest);
    assert(a + seq![':'] + rest == value);
    assert(seq![a] + (seq![b] + seq![c]) == seq![a, b, c]);
    let n = a.len() as int;
    let m = b.len() as int;
    assert(value[n] == ':');
    assert(value[n + 1 + m] == ':');
    assert forall|i: int| 0 <= i < value.len() implies #[trigger] value[i] == ':' || a.contains(
        value[i],
    ) || b.contains(value[i]) || c.contains(value[i]) by {
        if i < n {
            assert(value[i] == a[i]);
        } else if n < i < n + 1 + m {
            assert(value[i] == b[i - n - 1]);
        } else if i > n + 1 + m {
            assert(value[i] == c[i - n - m - 2]);
        }
    }
}

/// The first line that has a value, and the lines behind it.
#[verifier::spinoff_prover]
#[verifier::rlimit(60)]
proof fn lemma_line_with_value<N>(
    before: Seq<char>,
    indent: Seq<char>,
    value: Seq<char>,
    behind: Seq<char>,
    number: spec_fn(Seq<char>) -> Reading<N>,
) -> (r: (Seq<char>, Seq<Seq<char>>))
    requires
        before.len() > 0 ==> before.last() == '\n',
        forall|i: int|
            0 <= i < text::lines_of(before).len() ==> !"Duration:"@.is_prefix_of(
                text::trimmed_start(#[trigger] text::lines_of(before)[i]),
            ),
        forall|i: int| 0 <= i < indent.len() ==> #[trigger] indent[i] == ' ',
        value.len() > 0,
        !text::is_white_space(value[0]),
        !text::is_white_space(value.last()),
        forall|i: int| 0 <= i < value.len() ==> #[trigger] value[i] != ',' && value[i] != '\n',
        behind.len() > 0 ==> behind[0] == ',' || behind[0] == '\n',
    ensures
        duration_value(r.0) == Some(value),
        reported_duration(
            text::lines_of(before + (indent + "Duration: "@ + value + behind)),
            number,
        ) == reported_duration(seq![r.0] + r.1, number),
        behind.len() > 0 && behind[0] == '\n' ==> r.1 == text::lines_of(behind.skip(1)),
{
    reveal_strlit("Duration: ");
    let line = indent + "Duration: "@ + value;
    let lines = text::lines_of(before);
    text::law_lines_of_joined_texts(before, line + behind);
    assert forall|i: int| 0 <= i < lines.len() implies duration_line(
        #[trigger] lines[i],
    ) is Nothing by {}
    law_other_lines_do_not_matter(lines, text::lines_of(line + behind), number);
    assert forall|i: int| 0 <= i < line.len() implies #[trigger] line[i] != '\n' by {
        if i < indent.len() {
            assert(line[i] == indent[i]);
        } else if i >= indent.len() + 10 {
            assert(line[i] == value[i - indent.len() - 10]);
        }
    }
    assert(line.last() == value.last());
    if behind.len() == 0 {
        assert(line + behind == line);
        text::law_lines_end_with_line_feeds(line, behind);
        lemma_value_of_line(indent, value, Seq::empty());
        assert(line + Seq::<char>::empty() == line);
        assert(seq![line] + Seq::<Seq<char>>::empty() == seq![line]);
        (line, Seq::empty())
    } else if behind[0] == '\n' {
        let more = text::lines_of(behind.skip(1));
        text::lemma_line_in_front(line, behind.skip(1));
        assert(line + seq!['\n'] + behind.skip(1) == line + behind);
        lemma_value_of_line(indent, value, Seq::empty());
        assert(line + Seq::<char>::empty() == line);
        (line, more)
    } else {
        let i = text::first_index(behind, '\n') as int;
        text::lemma_first_index(behind, '\n');
        let tail = behind.take(i);
        let whole = line + tail;
        assert forall|j: int| 0 <= j < whole.len() implies #[trigger] whole[j] != '\n' by {
            if j >= line.len() {
                assert(whole[j] == behind[j - line.len()]);
            } else {
                assert(whole[j] == line[j]);
            }
        }
        if i < behind.len() {
            let more = text::lines_of(behind.skip(i + 1));
            text::lemma_line_in_front(whole, behind.skip(i + 1));
            assert(whole + seq!['\n'] + behind.skip(i + 1) == line + behind);
            let short = text::without_carriage_return(whole);
            if short == whole {
                lemma_value_of_line(indent, value, tail);
            } else {
                assert(tail.len() > 1) by {
                    if tail.len() == 1 {
                        assert(whole.last() == tail[0]);
                    }
                }
                assert(short == line + tail.drop_last());
                lemma_value_of_line(indent, value, tail.drop_last());
            }
            (short, more)
        } else {
            assert(tail == behind);
            text::law_lines_end_with_line_feeds(whole, Seq::empty());
            lemma_value_of_line(indent, value, tail);
            assert(seq![whole] + Seq::<Seq<char>>::empty() == seq![whole]);
            (whole, Seq::empty())
        }
    }
}

proof fn lemma_value_of_line(indent: Seq<char>, value: Seq<char>, tail: Seq<char>)
    requires
        forall|i: int| 0 <= i < indent.len() ==> #[trigger] indent[i] == ' ',
        value.len() > 0,
        !text::is_white_space(value[0]),
        !text::is_white_space(value.last()),
        forall|i: int| 0 <= i < value.len() ==> #[trigger] value[i] != ',',
        tail.len() > 0 ==> tail[0] == ',',
    ensures
        duration_value(indent + "Duration: "@ + value + tail) == Some(value),
    decreases indent.len(),
{
    reveal_strlit("Duration: ");
    reveal_strlit("Duration:");
    let line = indent + "Duration: "@ + value + tail;
    if indent.len() > 0 {
        let rest = indent.drop_first();
        assert(line.drop_first() == rest + "Duration: "@ + value + tail);
        assert(line[0] == ' ');
        lemma_value_of_line(rest, value, tail);
        assert(text::trimmed_start(line) == text::trimmed_start(line.drop_first()));
    } else {
        assert(line[0] == 'D');
        assert(text::trimmed_start(line) == line);
        assert(line.take(9) == "Duration:"@);
        let rest = line.skip(9);
        assert(rest == seq![' '] + value + tail);
        text::lemma_first_index(rest, ',');
        let i = text::first_index(rest, ',') as int;
        assert(i == value.len() + 1) by {
            if i <= value.len() && i > 0 {
                assert(rest[i] == value[i - 1]);
            }
            if i > value.len() + 1 {
                assert(rest[value.len() as int + 1] == tail[0]);
            }
        }
        let cut = rest.take(i);
        assert(cut == seq![' '] + value);
        assert(cut.drop_first() == value);
        assert(text::trimmed_start(cut) == text::trimmed_start(value));
        lemma_plain(value);
        assert(text::trimmed_start(value) == value);
    }
}

} // verus!
