//! The paths of the system, written as text. A path of the system need not be text:
//! on Unix it is made of bytes that need not be UTF-8, on Windows of 16-bit units that
//! need not be UTF-16. It is written as a text from which it can be made again: its
//! characters stand for themselves, and each unit that is part of no character is
//! spelled out behind a mark. Neither the mark nor what follows it is a separator or a
//! dot, so that a path is taken apart and put together in this form as in its own.
//! Every path in this library is written this way; a text without the mark stands for
//! itself.

use vstd::prelude::*;
use vstd::string::*;
use crate::text;

verus! {

/// Behind this character a unit that is part of no character is spelled out; where
/// it stands for itself, it stands twice.
pub const MARK: char = '\u{10FFFF}';

/// What is shown in place of units that are part of no character.
pub const REPLACEMENT: char = '\u{FFFD}';

/// A unit of a path of the system that is part of no character: a byte on Unix, a
/// surrogate on Windows. Of such units that are shown as one replacement, only the
/// first is `first`.
#[derive(Clone, Copy, Debug, PartialEq, Eq, Structural)]
pub struct Stray {
    pub value: u16,
    pub first: bool,
}

/// The letter for `n`, for `n` below sixteen.
pub open spec fn letter(n: nat) -> char {
    ('A' as nat + n) as char
}

/// Whether `c` is the letter for a number.
pub open spec fn is_letter(c: char) -> bool {
    'A' <= c <= 'P'
}

/// The number that the letter `c` is for.
pub open spec fn letter_value(c: char) -> int {
    c as int - 'A' as int
}

/// How a unit of a path is written, which is a character or part of none.
pub open spec fn spelled(unit: Result<char, Stray>) -> Seq<char> {
    match unit {
        Ok(c) => if c == MARK {
            seq![MARK, MARK]
        } else {
            seq![c]
        },
        Err(Stray { value, first }) => seq![
            MARK,
            if first {
                'X'
            } else {
                'Y'
            },
            letter(value as nat / 16 / 16 / 16),
            letter(value as nat / 16 / 16 % 16),
            letter(value as nat / 16 % 16),
            letter(value as nat % 16),
        ],
    }
}

/// How the path made of `units` is written.
pub open spec fn written(units: Seq<Result<char, Stray>>) -> Seq<char>
    decreases units.len(),
{
    if units.len() == 0 {
        Seq::empty()
    } else {
        spelled(units[0]) + written(units.drop_first())
    }
}

/// Whether `s` begins with a unit that is spelled out.
pub open spec fn begins_with_stray(s: Seq<char>) -> bool {
    &&& s.len() >= 6
    &&& s[0] == MARK
    &&& s[1] == 'X' || s[1] == 'Y'
    &&& is_letter(s[2]) && is_letter(s[3]) && is_letter(s[4]) && is_letter(s[5])
}

/// How many characters write the first unit of `s`.
pub open spec fn head_len(s: Seq<char>) -> nat {
    if s.len() >= 2 && s[0] == MARK && s[1] == MARK {
        2
    } else if begins_with_stray(s) {
        6
    } else {
        1
    }
}

/// The first unit of `s`.
pub open spec fn head(s: Seq<char>) -> Result<char, Stray> {
    if begins_with_stray(s) {
        Err(
            Stray {
                value: (letter_value(s[2]) * 4096 + letter_value(s[3]) * 256 + letter_value(s[4])
                    * 16 + letter_value(s[5])) as u16,
                first: s[1] == 'X',
            },
        )
    } else {
        Ok(s[0])
    }
}

/// The units of the path that is written as `s`.
pub open spec fn units_of(s: Seq<char>) -> Seq<Result<char, Stray>>
    decreases s.len(),
{
    if s.len() == 0 {
        Seq::empty()
    } else {
        seq![head(s)] + units_of(s.skip(head_len(s) as int))
    }
}

/// How `unit` is shown.
pub open spec fn shown_unit(unit: Result<char, Stray>) -> Seq<char> {
    match unit {
        Ok(c) => seq![c],
        Err(Stray { first, .. }) => if first {
            seq![REPLACEMENT]
        } else {
            Seq::empty()
        },
    }
}

/// How the path made of `units` is shown.
pub open spec fn shown_units(units: Seq<Result<char, Stray>>) -> Seq<char>
    decreases units.len(),
{
    if units.len() == 0 {
        Seq::empty()
    } else {
        shown_unit(units[0]) + shown_units(units.drop_first())
    }
}

/// How the path that is written as `path` is shown, to the user and to `ffmpeg`: its
/// characters, with a replacement for what is none.
pub open spec fn shown(path: Seq<char>) -> Seq<char> {
    shown_units(units_of(path))
}

/// The units of the path that is `t`.
pub open spec fn characters(t: Seq<char>) -> Seq<Result<char, Stray>>
    decreases t.len(),
{
    if t.len() == 0 {
        Seq::empty()
    } else {
        seq![Ok(t[0])] + characters(t.drop_first())
    }
}

/// How the path that is `t` is written.
pub open spec fn path_of(t: Seq<char>) -> Seq<char> {
    written(characters(t))
}

/// Whether the path that is written as `path` is text.
pub open spec fn is_text(path: Seq<char>) -> bool {
    forall|i: int| 0 <= i < units_of(path).len() ==> #[trigger] units_of(path)[i] is Ok
}

/// `String::push` puts the character behind the t.
pub assume_specification[ String::push ](s: &mut String, c: char)
    ensures
        final(s)@ == old(s)@.push(c),
;

fn number_letter(n: u16) -> (r: char)
    requires
        n < 16,
    ensures
        r == letter(n as nat),
{
    (65 + n as u8) as char
}

fn letter_number(c: char) -> (r: Option<u16>)
    ensures
        r is Some <==> is_letter(c),
        r is Some ==> r->0 == letter_value(c) && r->0 < 16,
{
    if 'A' <= c && c <= 'P' {
        Some((c as u32 - 65) as u16)
    } else {
        None
    }
}

fn push_unit(path: &mut String, unit: Result<char, Stray>)
    ensures
        final(path)@ == old(path)@ + spelled(unit),
{
    match unit {
        Ok(c) => {
            if c == MARK {
                path.push(MARK);
            }
            path.push(c);
        },
        Err(Stray { value, first }) => {
            path.push(MARK);
            path.push(
                if first {
                    'X'
                } else {
                    'Y'
                },
            );
            path.push(number_letter(value / 16 / 16 / 16));
            path.push(number_letter(value / 16 / 16 % 16));
            path.push(number_letter(value / 16 % 16));
            path.push(number_letter(value % 16));
        },
    }
}

/// Writes the path made of `units`.
pub fn write_path(units: &Vec<Result<char, Stray>>) -> (r: String)
    ensures
        r@ == written(units@),
{
    let mut path = String::new();
    assert(units@.skip(0) == units@);
    for i in 0..units.len()
        invariant
            path@ + written(units@.skip(i as int)) == written(units@),
    {
        let ghost before = path@;
        push_unit(&mut path, units[i]);
        assert(units@.skip(i as int).drop_first() == units@.skip(i + 1));
        assert(before + (spelled(units@[i as int]) + written(units@.skip(i + 1))) == path@
            + written(units@.skip(i + 1)));
    }
    assert(path@ + written(units@.skip(units@.len() as int)) == path@);
    path
}

fn stray_at(chars: &Vec<char>, i: usize) -> (r: Option<Stray>)
    requires
        i < chars.len(),
    ensures
        r is Some <==> begins_with_stray(chars@.skip(i as int)),
        r is Some ==> head(chars@.skip(i as int)) == Err::<char, Stray>(r->0),
{
    let ghost s = chars@.skip(i as int);
    if chars.len() - i < 6 || chars[i] != MARK || (chars[i + 1] != 'X' && chars[i + 1] != 'Y') {
        return None;
    }
    match (
        letter_number(chars[i + 2]),
        letter_number(chars[i + 3]),
        letter_number(chars[i + 4]),
        letter_number(chars[i + 5]),
    ) {
        (Some(a), Some(b), Some(c), Some(d)) => {
            assert(s[2] == chars@[i + 2] && s[3] == chars@[i + 3] && s[4] == chars@[i + 4]
                && s[5] == chars@[i + 5]);
            Some(Stray { value: a * 4096 + b * 256 + c * 16 + d, first: chars[i + 1] == 'X' })
        },
        _ => None,
    }
}

/// The units of the path that is written as `path`.
pub fn read_path(path: &str) -> (r: Vec<Result<char, Stray>>)
    ensures
        r@ == units_of(path@),
{
    let chars = text::char_vec(path);
    let mut units: Vec<Result<char, Stray>> = Vec::new();
    let mut i: usize = 0;
    assert(path@.skip(0) == path@);
    while i < chars.len()
        invariant
            i <= chars.len(),
            chars@ == path@,
            units@ + units_of(path@.skip(i as int)) == units_of(path@),
        decreases chars.len() - i,
    {
        let ghost before = units@;
        let ghost rest = path@.skip(i as int);
        let (unit, len): (Result<char, Stray>, usize) = match stray_at(&chars, i) {
            Some(stray) => (Err(stray), 6),
            None => if chars.len() - i >= 2 && chars[i] == MARK && chars[i + 1] == MARK {
                (Ok(MARK), 2)
            } else {
                (Ok(chars[i]), 1)
            },
        };
        assert(unit == head(rest) && len == head_len(rest));
        units.push(unit);
        assert(rest.skip(len as int) == path@.skip(i + len));
        assert(before + (seq![unit] + units_of(path@.skip(i + len))) == units@ + units_of(
            path@.skip(i + len),
        ));
        i = i + len;
    }
    assert(units@ + units_of(path@.skip(i as int)) == units@);
    units
}

/// How the path that is written as `path` is shown.
pub fn shown_text(path: &str) -> (r: String)
    ensures
        r@ == shown(path@),
        !path@.contains(MARK) ==> r@ == path@,
{
    proof {
        law_text_is_shown_as_it_is(path@);
    }
    let units = read_path(path);
    let mut out = String::new();
    assert(units@.skip(0) == units@);
    for i in 0..units.len()
        invariant
            out@ + shown_units(units@.skip(i as int)) == shown_units(units@),
    {
        let ghost before = out@;
        match units[i] {
            Ok(c) => {
                out.push(c);
            },
            Err(Stray { first, .. }) => {
                if first {
                    out.push(REPLACEMENT);
                }
            },
        }
        assert(out@ == before + shown_unit(units@[i as int]));
        assert(units@.skip(i as int).drop_first() == units@.skip(i + 1));
        assert(before + (shown_unit(units@[i as int]) + shown_units(units@.skip(i + 1))) == out@
            + shown_units(units@.skip(i + 1)));
    }
    assert(out@ + shown_units(units@.skip(units@.len() as int)) == out@);
    out
}

/// How the path that is `t` is written.
pub fn text_path(t: &str) -> (r: String)
    ensures
        r@ == path_of(t@),
        !t@.contains(MARK) ==> r@ == t@,
{
    proof {
        law_text_is_shown_as_it_is(t@);
    }
    let chars = text::char_vec(t);
    let mut units: Vec<Result<char, Stray>> = Vec::new();
    assert(t@.skip(0) == t@);
    for i in 0..chars.len()
        invariant
            chars@ == t@,
            units@ + characters(t@.skip(i as int)) == characters(t@),
    {
        let ghost before = units@;
        units.push(Ok(chars[i]));
        assert(t@.skip(i as int).drop_first() == t@.skip(i + 1));
        assert(before + (seq![Ok(t@[i as int])] + characters(t@.skip(i + 1))) == units@
            + characters(t@.skip(i + 1)));
    }
    assert(units@ + characters(t@.skip(t@.len() as int)) == units@);
    write_path(&units)
}

/// Whether the path that is written as `path` is t.
pub fn is_text_path(path: &str) -> (r: bool)
    ensures
        r == is_text(path@),
{
    let units = read_path(path);
    for i in 0..units.len()
        invariant
            units@ == units_of(path@),
            forall|j: int| 0 <= j < i ==> #[trigger] units@[j] is Ok,
    {
        if units[i].is_err() {
            assert(!(units_of(path@)[i as int] is Ok));
            return false;
        }
    }
    true
}

/// A path that is written can be made again.
pub proof fn law_written_path_is_read_back(units: Seq<Result<char, Stray>>)
    ensures
        units_of(written(units)) == units,
    decreases units.len(),
{
    if units.len() > 0 {
        let rest = written(units.drop_first());
        law_written_path_is_read_back(units.drop_first());
        lemma_head(units[0], rest);
        assert(seq![units[0]] + units.drop_first() == units);
    }
}

proof fn lemma_head(unit: Result<char, Stray>, rest: Seq<char>)
    ensures
        (spelled(unit) + rest).len() > 0,
        head(spelled(unit) + rest) == unit,
        (spelled(unit) + rest).skip(head_len(spelled(unit) + rest) as int) == rest,
{
    let s = spelled(unit) + rest;
    match unit {
        Ok(c) => {
            assert(s[0] == c);
            assert(s.skip(spelled(unit).len() as int) == rest);
        },
        Err(stray) => {
            let n = stray.value as nat;
            assert(s.skip(6) == rest);
            lemma_number(n);
            lemma_letter(n / 16 / 16 / 16);
            lemma_letter(n / 16 / 16 % 16);
            lemma_letter(n / 16 % 16);
            lemma_letter(n % 16);
            assert(s[2] == letter(n / 16 / 16 / 16) && s[3] == letter(n / 16 / 16 % 16) && s[4] == letter(
                n / 16 % 16,
            ) && s[5] == letter(n % 16));
            assert(begins_with_stray(s));
        },
    }
}

/// What a unit is spelled out with.
pub(crate) proof fn lemma_spelled_letters(stray: Stray)
    ensures
        forall|i: int|
            0 <= i < 6 ==> #[trigger] spelled(Err(stray))[i] == MARK || spelled(Err(stray))[i]
                == 'X' || spelled(Err(stray))[i] == 'Y' || is_letter(spelled(Err(stray))[i]),
{
    let n = stray.value as nat;
    lemma_number(n);
    lemma_letter(n / 16 / 16 / 16);
    lemma_letter(n / 16 / 16 % 16);
    lemma_letter(n / 16 % 16);
    lemma_letter(n % 16);
}

proof fn lemma_number(n: nat)
    requires
        n < 65536,
    ensures
        n / 16 / 16 / 16 < 16,
        (n / 16 / 16 / 16) * 4096 + (n / 16 / 16 % 16) * 256 + (n / 16 % 16) * 16 + n % 16 == n,
{
    let a = n / 16;
    let b = a / 16;
    let c = b / 16;
    assert(n == 16 * a + n % 16 && a == 16 * b + a % 16 && b == 16 * c + b % 16);
}

proof fn lemma_letter(n: nat)
    requires
        n < 16,
    ensures
        is_letter(letter(n)),
        letter_value(letter(n)) == n,
{
}

/// Two paths of the system that differ are written differently, though they may be
/// shown alike.
pub proof fn law_written_paths_differ(a: Seq<Result<char, Stray>>, b: Seq<Result<char, Stray>>)
    requires
        a != b,
    ensures
        written(a) != written(b),
{
    law_written_path_is_read_back(a);
    law_written_path_is_read_back(b);
}

/// A path is written part by part.
pub proof fn law_written_in_parts(a: Seq<Result<char, Stray>>, b: Seq<Result<char, Stray>>)
    ensures
        written(a + b) == written(a) + written(b),
    decreases a.len(),
{
    if a.len() == 0 {
        assert(a + b == b);
        assert(written(a) + written(b) == written(b));
    } else {
        assert((a + b).drop_first() == a.drop_first() + b);
        law_written_in_parts(a.drop_first(), b);
        assert(spelled(a[0]) + (written(a.drop_first()) + written(b)) == (spelled(a[0]) + written(
            a.drop_first(),
        )) + written(b));
    }
}

/// A path that is text is shown as it is; without the mark it is written as it is,
/// too.
pub proof fn law_text_is_shown_as_it_is(t: Seq<char>)
    ensures
        is_text(path_of(t)),
        shown(path_of(t)) == t,
        !t.contains(MARK) ==> path_of(t) == t && shown(t) == t,
{
    law_written_path_is_read_back(characters(t));
    lemma_characters(t);
    if !t.contains(MARK) {
        lemma_unmarked(t);
    }
}

proof fn lemma_characters(t: Seq<char>)
    ensures
        shown_units(characters(t)) == t,
        forall|i: int| 0 <= i < characters(t).len() ==> #[trigger] characters(t)[i] is Ok,
    decreases t.len(),
{
    if t.len() > 0 {
        let rest = t.drop_first();
        lemma_characters(rest);
        assert(characters(t).drop_first() == characters(rest));
        assert(seq![t[0]] + rest == t);
    }
}

proof fn lemma_unmarked(t: Seq<char>)
    requires
        !t.contains(MARK),
    ensures
        path_of(t) == t,
    decreases t.len(),
{
    if t.len() > 0 {
        let rest = t.drop_first();
        assert forall|i: int| 0 <= i < rest.len() implies rest[i] != MARK by {
            assert(rest[i] == t[i + 1]);
        }
        lemma_unmarked(rest);
        assert(t[0] != MARK);
        assert(characters(t).drop_first() == characters(rest));
        assert(seq![t[0]] + rest == t);
    }
}

/// A path that is text begins as the text does.
pub(crate) proof fn lemma_path_begins_as_text(t: Seq<char>)
    requires
        t.len() > 0,
    ensures
        path_of(t).len() > 0,
        path_of(t)[0] == t[0],
{
    let units = characters(t);
    assert(units[0] == Ok::<char, Stray>(t[0]));
    assert(written(units)[0] == spelled(units[0])[0]);
}

/// Something is shown of a path that ends with a character that spells out nothing.
pub(crate) proof fn lemma_shown_is_not_empty(path: Seq<char>)
    requires
        path.len() > 0,
        path.last() != MARK,
        !is_letter(path.last()),
    ensures
        shown(path).len() > 0,
    decreases path.len(),
{
    let rest = path.skip(head_len(path) as int);
    assert(units_of(path).drop_first() == units_of(rest));
    if begins_with_stray(path) {
        assert(path.len() > 6);
        assert(rest.last() == path.last());
        lemma_shown_is_not_empty(rest);
    }
}

/// A path is shown unit by unit: a character as it is, a run of units that are part of
/// no character as one replacement. It is text if and only if all of its units are
/// characters.
pub proof fn law_shown_unit_by_unit(
    a: Seq<Result<char, Stray>>,
    b: Seq<Result<char, Stray>>,
    c: char,
    value: u16,
)
    ensures
        shown(written(a + b)) == shown(written(a)) + shown(written(b)),
        shown(written(seq![Ok(c)])) == seq![c],
        shown(written(seq![Err(Stray { value, first: true })])) == seq!['\u{FFFD}'],
        shown(written(seq![Err(Stray { value, first: false })])) == Seq::<char>::empty(),
        is_text(written(a)) == (forall|i: int| 0 <= i < a.len() ==> #[trigger] a[i] is Ok),
{
    law_written_path_is_read_back(a);
    law_written_path_is_read_back(b);
    law_written_path_is_read_back(a + b);
    lemma_shown_parts(a, b);
    lemma_shown_single(Ok(c));
    lemma_shown_single(Err(Stray { value, first: true }));
    lemma_shown_single(Err(Stray { value, first: false }));
}

proof fn lemma_shown_single(unit: Result<char, Stray>)
    ensures
        shown(written(seq![unit])) == shown_unit(unit),
{
    law_written_path_is_read_back(seq![unit]);
    assert(seq![unit].drop_first() == Seq::<Result<char, Stray>>::empty());
    assert(shown_units(Seq::<Result<char, Stray>>::empty()) == Seq::<char>::empty());
    assert(shown_unit(unit) + Seq::<char>::empty() == shown_unit(unit));
}

proof fn lemma_shown_parts(a: Seq<Result<char, Stray>>, b: Seq<Result<char, Stray>>)
    ensures
        shown_units(a + b) == shown_units(a) + shown_units(b),
    decreases a.len(),
{
    if a.len() == 0 {
        assert(a + b == b);
        assert(shown_units(a) + shown_units(b) == shown_units(b));
    } else {
        assert((a + b).drop_first() == a.drop_first() + b);
        lemma_shown_parts(a.drop_first(), b);
        assert(shown_unit(a[0]) + (shown_units(a.drop_first()) + shown_units(b)) == (shown_unit(
            a[0],
        ) + shown_units(a.drop_first())) + shown_units(b));
    }
}

/// Nothing but a replacement is shown that is not written.
pub(crate) proof fn lemma_shown_characters_are_written(path: Seq<char>, c: char)
    requires
        forall|i: int| 0 <= i < path.len() ==> #[trigger] path[i] != c,
        c != REPLACEMENT,
    ensures
        forall|i: int| 0 <= i < shown(path).len() ==> #[trigger] shown(path)[i] != c,
    decreases path.len(),
{
    if path.len() > 0 {
        let n = head_len(path) as int;
        let rest = path.skip(n);
        assert forall|i: int| 0 <= i < rest.len() implies #[trigger] rest[i] != c by {
            assert(rest[i] == path[i + n]);
        }
        lemma_shown_characters_are_written(rest, c);
        assert(units_of(path).drop_first() == units_of(rest));
        let first = shown_unit(head(path));
        assert(shown(path) == first + shown(rest));
        assert(path[0] != c);
        assert forall|i: int| 0 <= i < shown(path).len() implies #[trigger] shown(path)[i] != c by {
            if i >= first.len() {
                assert(shown(path)[i] == shown(rest)[i - first.len()]);
            }
        }
    }
}

} // verus!
