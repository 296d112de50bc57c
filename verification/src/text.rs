//! Text as sequences of characters: the small vocabulary the rest of the
//! library is written in.

use vstd::prelude::*;
use vstd::string::*;

verus! {

/// Unicode's `White_Space` property.
pub open spec fn is_white_space(c: char) -> bool {
    let n = c as u32;
    ||| 0x9 <= n <= 0xD
    ||| n == 0x20
    ||| n == 0x85
    ||| n == 0xA0
    ||| n == 0x1680
    ||| 0x2000 <= n <= 0x200A
    ||| n == 0x2028
    ||| n == 0x2029
    ||| n == 0x202F
    ||| n == 0x205F
    ||| n == 0x3000
}

/// `s` without the white space in front of it.
pub open spec fn trimmed_start(s: Seq<char>) -> Seq<char>
    decreases s.len(),
{
    if s.len() > 0 && is_white_space(s[0]) {
        trimmed_start(s.drop_first())
    } else {
        s
    }
}

/// `s` without the white space behind it.
pub open spec fn trimmed_end(s: Seq<char>) -> Seq<char>
    decreases s.len(),
{
    if s.len() > 0 && is_white_space(s.last()) {
        trimmed_end(s.drop_last())
    } else {
        s
    }
}

/// `s` without the white space around it.
pub open spec fn trimmed(s: Seq<char>) -> Seq<char> {
    trimmed_end(trimmed_start(s))
}

/// The position of the first `c` in `s`, or the length of `s` where there is none.
pub open spec fn first_index(s: Seq<char>, c: char) -> nat
    decreases s.len(),
{
    if s.len() == 0 || s[0] == c {
        0
    } else {
        1 + first_index(s.drop_first(), c)
    }
}

/// The pieces of `s` between the separators `c`, one more than there are separators.
pub open spec fn pieces(s: Seq<char>, c: char) -> Seq<Seq<char>>
    decreases s.len(),
{
    let i = first_index(s, c) as int;
    if i < s.len() {
        seq![s.take(i)] + pieces(s.skip(i + 1), c)
    } else {
        seq![s]
    }
}

/// `line` without a carriage return at its end.
pub open spec fn without_carriage_return(line: Seq<char>) -> Seq<char> {
    if line.len() > 0 && line.last() == '\r' {
        line.drop_last()
    } else {
        line
    }
}

/// The lines of `s`. A line ends with a line feed, alone or behind a carriage
/// return; behind the last line the end may be missing.
pub open spec fn lines_of(s: Seq<char>) -> Seq<Seq<char>>
    decreases s.len(),
{
    let i = first_index(s, '\n') as int;
    if s.len() == 0 {
        Seq::empty()
    } else if i < s.len() {
        seq![without_carriage_return(s.take(i))] + lines_of(s.skip(i + 1))
    } else {
        seq![s]
    }
}

/// Whether `c` is an ASCII digit.
pub open spec fn is_digit(c: char) -> bool {
    '0' <= c <= '9'
}

/// Whether `s` is made of ASCII digits, at least one.
pub open spec fn all_digits(s: Seq<char>) -> bool {
    s.len() > 0 && forall|i: int| 0 <= i < s.len() ==> is_digit(#[trigger] s[i])
}

/// The digit `d`, for `d` below ten.
pub open spec fn digit(d: nat) -> char {
    ('0' as nat + d) as char
}

/// `n` in decimal digits, without leading zeros.
pub open spec fn decimal(n: nat) -> Seq<char>
    decreases n,
{
    if n < 10 {
        seq![digit(n)]
    } else {
        decimal(n / 10).push(digit(n % 10))
    }
}

/// `n` in decimal digits, with a zero in front of a single digit.
pub open spec fn two_digits(n: nat) -> Seq<char> {
    if n < 10 {
        "0"@ + decimal(n)
    } else {
        decimal(n)
    }
}

/// What a list of strings holds.
pub open spec fn texts(list: Seq<String>) -> Seq<Seq<char>> {
    list.map_values(|s: String| s@)
}

/// What an optional string holds.
pub open spec fn optional_text(s: Option<String>) -> Option<Seq<char>> {
    match s {
        Some(s) => Some(s@),
        None => None,
    }
}

/// What an optional text holds.
pub open spec fn optional_str(s: Option<&str>) -> Option<Seq<char>> {
    match s {
        Some(s) => Some(s@),
        None => None,
    }
}

/// The characters of `s`.
pub(crate) fn char_vec(s: &str) -> (r: Vec<char>)
    ensures
        r@ == s@,
{
    let mut out: Vec<char> = Vec::new();
    for c in it: s.chars()
        invariant
            out@ == it.seq().take(it.index()),
            it.seq() == s@,
    {
        out.push(c);
    }
    out
}

fn white_space(c: char) -> (r: bool)
    ensures
        r == is_white_space(c),
{
    let n = c as u32;
    (0x9 <= n && n <= 0xD) || n == 0x20 || n == 0x85 || n == 0xA0 || n == 0x1680
        || (0x2000 <= n && n <= 0x200A) || n == 0x2028 || n == 0x2029 || n == 0x202F
        || n == 0x205F || n == 0x3000
}

/// `s` without the white space in front of it.
pub fn trim_start(s: &str) -> (r: &str)
    ensures
        r@ == trimmed_start(s@),
{
    let chars = char_vec(s);
    let mut i: usize = 0;
    assert(s@.skip(0) == s@);
    while i < chars.len() && white_space(chars[i])
        invariant
            i <= chars.len(),
            chars@ == s@,
            trimmed_start(s@) == trimmed_start(s@.skip(i as int)),
        decreases chars.len() - i,
    {
        assert(s@.skip(i as int).drop_first() == s@.skip(i + 1));
        i = i + 1;
    }
    let r = s.substring_char(i, chars.len());
    assert(s@.subrange(i as int, s@.len() as int) == s@.skip(i as int));
    r
}

/// `s` without the white space behind it.
pub fn trim_end(s: &str) -> (r: &str)
    ensures
        r@ == trimmed_end(s@),
{
    let chars = char_vec(s);
    let mut i: usize = chars.len();
    assert(s@.take(s@.len() as int) == s@);
    while i > 0 && white_space(chars[i - 1])
        invariant
            i <= chars.len(),
            chars@ == s@,
            trimmed_end(s@) == trimmed_end(s@.take(i as int)),
        decreases i,
    {
        assert(s@.take(i as int).drop_last() == s@.take(i - 1));
        i = i - 1;
    }
    let r = s.substring_char(0, i);
    assert(s@.subrange(0, i as int) == s@.take(i as int));
    r
}

/// `s` without the white space around it.
pub fn trim(s: &str) -> (r: &str)
    ensures
        r@ == trimmed(s@),
{
    trim_end(trim_start(s))
}

/// The text in front of the first `c` in `s`, and the text behind it where there is a `c`.
pub(crate) fn cut<'a>(s: &'a str, c: char) -> (r: (&'a str, Option<&'a str>))
    ensures
        r.0@ == s@.take(first_index(s@, c) as int),
        first_index(s@, c) <= s@.len(),
        match r.1 {
            Some(rest) => first_index(s@, c) < s@.len() && rest@ == s@.skip(
                first_index(s@, c) as int + 1,
            ),
            None => first_index(s@, c) == s@.len() && r.0@ == s@,
        },
{
    let chars = char_vec(s);
    let mut i: usize = 0;
    assert(s@.skip(0) == s@);
    while i < chars.len() && chars[i] != c
        invariant
            i <= chars.len(),
            chars@ == s@,
            first_index(s@, c) == i + first_index(s@.skip(i as int), c),
        decreases chars.len() - i,
    {
        assert(s@.skip(i as int).drop_first() == s@.skip(i + 1));
        i = i + 1;
    }
    if i < chars.len() {
        assert(s@.skip(i as int)[0] == c);
        (s.substring_char(0, i), Some(s.substring_char(i + 1, chars.len())))
    } else {
        (s.substring_char(0, i), None)
    }
}

/// The pieces of `s` between the separators `c`.
pub(crate) fn split<'a>(s: &'a str, c: char) -> (r: Vec<&'a str>)
    ensures
        r@.map_values(|piece: &'a str| piece@) == pieces(s@, c),
{
    let mut out: Vec<&'a str> = Vec::new();
    let ghost view = |piece: &'a str| piece@;
    let mut rest: &'a str = s;
    assert(out@.map_values(view) + pieces(s@, c) == pieces(s@, c));
    loop
        invariant
            view == (|piece: &'a str| piece@),
            out@.map_values(view) + pieces(rest@, c) == pieces(s@, c),
        decreases rest@.len(),
    {
        let (piece, behind) = cut(rest, c);
        let ghost before = out@.map_values(view);
        out.push(piece);
        assert(out@.map_values(view) == before.push(piece@));
        match behind {
            Some(b) => {
                assert(before + (seq![piece@] + pieces(b@, c)) == before.push(piece@) + pieces(
                    b@,
                    c,
                ));
                rest = b;
            },
            None => {
                assert(before + seq![piece@] == before.push(piece@));
                return out;
            },
        }
    }
}

/// The lines of `s`.
pub(crate) fn lines<'a>(s: &'a str) -> (r: Vec<&'a str>)
    ensures
        r@.map_values(|line: &'a str| line@) == lines_of(s@),
{
    let mut out: Vec<&'a str> = Vec::new();
    let ghost view = |line: &'a str| line@;
    let mut rest: &'a str = s;
    assert(out@.map_values(view) + lines_of(s@) == lines_of(s@));
    while !rest.is_empty()
        invariant
            view == (|line: &'a str| line@),
            out@.map_values(view) + lines_of(rest@) == lines_of(s@),
        decreases rest@.len(),
    {
        let (line, behind) = cut(rest, '\n');
        let ghost before = out@;
        match behind {
            Some(b) => {
                let line = drop_carriage_return(line);
                out.push(line);
                assert(out@.map_values(view) == before.map_values(view).push(line@));
                assert(before.map_values(view) + (seq![line@] + lines_of(b@))
                    == before.map_values(view).push(line@) + lines_of(b@));
                rest = b;
            },
            None => {
                out.push(line);
                assert(out@.map_values(view) == before.map_values(view).push(line@));
                assert(before.map_values(view) + seq![line@] == before.map_values(view).push(
                    line@,
                ));
                rest = rest.substring_char(0, 0);
            },
        }
        assert(out@.map_values(view) + lines_of(rest@) == lines_of(s@));
    }
    assert(out@.map_values(view) + lines_of(rest@) == out@.map_values(view));
    out
}

fn drop_carriage_return(line: &str) -> (r: &str)
    ensures
        r@ == without_carriage_return(line@),
{
    let chars = char_vec(line);
    let n = chars.len();
    if n > 0 && chars[n - 1] == '\r' {
        line.substring_char(0, n - 1)
    } else {
        line
    }
}

/// Whether the two texts are the same.
pub(crate) fn same_text(a: &str, b: &str) -> (r: bool)
    ensures
        r == (a@ == b@),
{
    a.to_owned() == b.to_owned()
}

/// Whether `c` stands in `s`.
pub(crate) fn has_char(s: &str, c: char) -> (r: bool)
    ensures
        r == s@.contains(c),
{
    let chars = char_vec(s);
    for i in 0..chars.len()
        invariant
            chars@ == s@,
            forall|j: int| 0 <= j < i ==> s@[j] != c,
    {
        if chars[i] == c {
            assert(s@[i as int] == c);
            return true;
        }
    }
    false
}

/// Whether `s` is made of ASCII digits, at least one.
pub(crate) fn only_digits(s: &str) -> (r: bool)
    ensures
        r == all_digits(s@),
{
    let chars = char_vec(s);
    for i in 0..chars.len()
        invariant
            chars@ == s@,
            forall|j: int| 0 <= j < i ==> is_digit(#[trigger] s@[j]),
    {
        if !('0' <= chars[i] && chars[i] <= '9') {
            assert(!is_digit(s@[i as int]));
            return false;
        }
    }
    chars.len() > 0
}

/// The text behind `prefix`, where `s` begins with `prefix`.
pub(crate) fn strip_prefix<'a>(s: &'a str, prefix: &str) -> (r: Option<&'a str>)
    ensures
        match r {
            Some(rest) => s@ == prefix@ + rest@,
            None => !prefix@.is_prefix_of(s@),
        },
{
    let chars = char_vec(s);
    let wanted = char_vec(prefix);
    if chars.len() < wanted.len() {
        return None;
    }
    for i in 0..wanted.len()
        invariant
            chars@ == s@,
            wanted@ == prefix@,
            wanted.len() <= chars.len(),
            forall|j: int| 0 <= j < i ==> s@[j] == prefix@[j],
    {
        if chars[i] != wanted[i] {
            assert(s@.take(prefix@.len() as int)[i as int] != prefix@[i as int]);
            return None;
        }
    }
    let rest = s.substring_char(wanted.len(), chars.len());
    assert(s@ == prefix@ + rest@);
    Some(rest)
}

fn digit_text(d: u64) -> (r: &'static str)
    requires
        d < 10,
    ensures
        r@ == seq![digit(d as nat)],
{
    proof {
        reveal_strlit("0");
        reveal_strlit("1");
        reveal_strlit("2");
        reveal_strlit("3");
        reveal_strlit("4");
        reveal_strlit("5");
        reveal_strlit("6");
        reveal_strlit("7");
        reveal_strlit("8");
        reveal_strlit("9");
    }
    if d == 0 {
        "0"
    } else if d == 1 {
        "1"
    } else if d == 2 {
        "2"
    } else if d == 3 {
        "3"
    } else if d == 4 {
        "4"
    } else if d == 5 {
        "5"
    } else if d == 6 {
        "6"
    } else if d == 7 {
        "7"
    } else if d == 8 {
        "8"
    } else {
        "9"
    }
}

/// `n` in decimal digits.
pub fn decimal_text(n: u64) -> (r: String)
    ensures
        r@ == decimal(n as nat),
        value_of(r@) == n,
    decreases n,
{
    proof {
        law_digits_stand_for_their_number(n as nat);
    }
    if n < 10 {
        digit_text(n).to_owned()
    } else {
        let r = decimal_text(n / 10).concat(digit_text(n % 10));
        assert(r@ == decimal(n as nat / 10).push(digit(n as nat % 10)));
        r
    }
}

/// `n` in decimal digits, with a zero in front of a single digit.
pub fn two_digit_text(n: u64) -> (r: String)
    ensures
        r@ == two_digits(n as nat),
{
    if n < 10 {
        "0".to_owned().concat(decimal_text(n).as_str())
    } else {
        decimal_text(n)
    }
}

/// Trimming takes nothing from a text that is trimmed already.
pub proof fn law_trimmed_once_is_enough(s: Seq<char>)
    ensures
        trimmed(trimmed(s)) == trimmed(s),
{
    lemma_trimmed_start(s);
    lemma_trimmed_end(trimmed_start(s));
    let t = trimmed(s);
    if t.len() > 0 {
        assert(t[0] == trimmed_start(s)[0]);
    }
}

proof fn lemma_trimmed_start(s: Seq<char>)
    ensures
        trimmed_start(s).len() > 0 ==> !is_white_space(trimmed_start(s)[0]),
    decreases s.len(),
{
    if s.len() > 0 && is_white_space(s[0]) {
        lemma_trimmed_start(s.drop_first());
    }
}

proof fn lemma_trimmed_end(s: Seq<char>)
    ensures
        trimmed_end(s).len() > 0 ==> !is_white_space(trimmed_end(s).last()),
        trimmed_end(s).is_prefix_of(s),
    decreases s.len(),
{
    if s.len() > 0 && is_white_space(s.last()) {
        lemma_trimmed_end(s.drop_last());
    }
}

/// Different numbers have different digits.
pub proof fn law_decimal_tells_numbers_apart(a: nat, b: nat)
    requires
        decimal(a) == decimal(b),
    ensures
        a == b,
    decreases a,
{
    lemma_decimal_len(a / 10);
    lemma_decimal_len(b / 10);
    if a < 10 && b < 10 {
        assert(decimal(a)[0] == digit(a));
        assert(decimal(b)[0] == digit(b));
    } else if a < 10 {
        assert(decimal(b).len() > 1);
    } else if b < 10 {
        assert(decimal(a).len() > 1);
    } else {
        assert(decimal(a).last() == digit(a % 10));
        assert(decimal(b).last() == digit(b % 10));
        assert(decimal(a).drop_last() == decimal(a / 10));
        assert(decimal(b).drop_last() == decimal(b / 10));
        law_decimal_tells_numbers_apart(a / 10, b / 10);
    }
}

/// A number has at least one digit.
pub(crate) proof fn lemma_decimal_len(n: nat)
    ensures
        decimal(n).len() > 0,
    decreases n,
{
    if n >= 10 {
        lemma_decimal_len(n / 10);
    }
}

/// The lines of two texts, where the first ends with a line feed, are the lines of
/// the one and then of the other.
pub proof fn law_lines_of_joined_texts(s: Seq<char>, t: Seq<char>)
    requires
        s.len() > 0 ==> s.last() == '\n',
    ensures
        lines_of(s + t) == lines_of(s) + lines_of(t),
    decreases s.len(),
{
    if s.len() == 0 {
        assert(s + t == t);
        assert(lines_of(s) + lines_of(t) == lines_of(t));
    } else {
        lemma_first_index(s, '\n');
        lemma_first_index_of_joined(s, t, '\n');
        let i = first_index(s, '\n') as int;
        assert(i < s.len()) by {
            if i == s.len() {
                assert(s[s.len() - 1] != '\n');
            }
        }
        assert((s + t).take(i) == s.take(i));
        assert((s + t).skip(i + 1) == s.skip(i + 1) + t);
        if s.skip(i + 1).len() > 0 {
            assert(s.skip(i + 1).last() == s.last());
        }
        law_lines_of_joined_texts(s.skip(i + 1), t);
        let head = seq![without_carriage_return(s.take(i))];
        assert(head + (lines_of(s.skip(i + 1)) + lines_of(t)) == (head + lines_of(s.skip(i + 1)))
            + lines_of(t));
    }
}

pub(crate) proof fn lemma_first_index(s: Seq<char>, c: char)
    ensures
        first_index(s, c) <= s.len(),
        first_index(s, c) < s.len() ==> s[first_index(s, c) as int] == c,
        forall|j: int| 0 <= j < first_index(s, c) ==> s[j] != c,
    decreases s.len(),
{
    if s.len() > 0 && s[0] != c {
        lemma_first_index(s.drop_first(), c);
        assert forall|j: int| 0 <= j < first_index(s, c) implies s[j] != c by {
            if j > 0 {
                assert(s[j] == s.drop_first()[j - 1]);
            }
        }
    }
}

proof fn lemma_first_index_of_joined(s: Seq<char>, t: Seq<char>, c: char)
    ensures
        first_index(s, c) < s.len() ==> first_index(s + t, c) == first_index(s, c),
    decreases s.len(),
{
    if s.len() > 0 && s[0] != c {
        assert((s + t).drop_first() == s.drop_first() + t);
        lemma_first_index_of_joined(s.drop_first(), t, c);
    }
}

/// Another character behind the text leaves the first position of `c` as it is, or
/// moves it where there is no `c`.
pub(crate) proof fn lemma_first_index_of_pushed(s: Seq<char>, last: char, c: char)
    requires
        last != c,
    ensures
        first_index(s.push(last), c) == if first_index(s, c) < s.len() {
            first_index(s, c)
        } else {
            s.len() + 1
        },
    decreases s.len(),
{
    let t = s.push(last);
    if s.len() == 0 {
        assert(first_index(t.drop_first(), c) == 0);
    } else if s[0] != c {
        assert(t.drop_first() == s.drop_first().push(last));
        lemma_first_index(s.drop_first(), c);
        lemma_first_index_of_pushed(s.drop_first(), last, c);
    }
}

/// White space behind a text does not matter once the text is trimmed.
pub(crate) proof fn lemma_trimmed_of_pushed(s: Seq<char>, c: char)
    requires
        is_white_space(c),
    ensures
        trimmed_start(s.push(c)) == if trimmed_start(s).len() > 0 {
            trimmed_start(s).push(c)
        } else {
            Seq::empty()
        },
        trimmed(s.push(c)) == trimmed(s),
    decreases s.len(),
{
    let t = s.push(c);
    if s.len() == 0 {
        assert(t.drop_first() == Seq::<char>::empty());
    } else if is_white_space(s[0]) {
        assert(t.drop_first() == s.drop_first().push(c));
        lemma_trimmed_of_pushed(s.drop_first(), c);
    }
    if trimmed_start(s).len() > 0 {
        assert(trimmed_start(s).push(c).drop_last() == trimmed_start(s));
    } else {
        assert(trimmed_start(s) == Seq::<char>::empty());
    }
}

/// A line feed behind a text that has none at its end takes nothing from its lines
/// but a carriage return at the end of the last one.
pub(crate) proof fn lemma_lines_of_ended_text(s: Seq<char>)
    requires
        s.len() > 0,
        s.last() != '\n',
    ensures
        lines_of(s).len() > 0,
        lines_of(s.push('\n')) == lines_of(s).drop_last().push(
            without_carriage_return(lines_of(s).last()),
        ),
    decreases s.len(),
{
    let t = s.push('\n');
    let i = first_index(s, '\n') as int;
    lemma_first_index(s, '\n');
    lemma_first_index(t, '\n');
    lemma_first_index_of_joined(s, seq!['\n'], '\n');
    assert(t == s + seq!['\n']);
    if i < s.len() {
        let rest = s.skip(i + 1);
        assert(s[i] == '\n');
        assert(rest.last() == s.last());
        assert(t.skip(i + 1) == rest.push('\n'));
        assert(t.take(i) == s.take(i));
        lemma_lines_of_ended_text(rest);
        let head = seq![without_carriage_return(s.take(i))];
        let tail = lines_of(rest);
        assert((head + tail).drop_last().push(without_carriage_return((head + tail).last()))
            == head + tail.drop_last().push(without_carriage_return(tail.last())));
    } else {
        assert(t[s.len() as int] == '\n');
        assert(first_index(t, '\n') == s.len()) by {
            if first_index(t, '\n') < s.len() {
                assert(t[first_index(t, '\n') as int] == s[first_index(t, '\n') as int]);
            }
        }
        assert(t.take(s.len() as int) == s);
        assert(t.skip(s.len() as int + 1) == Seq::<char>::empty());
        assert(lines_of(t.skip(s.len() as int + 1)) == Seq::<Seq<char>>::empty());
    }
}

/// What a character in front of a text does to its pieces.
pub(crate) proof fn lemma_pieces_of_preceded(first: char, s: Seq<char>, c: char)
    ensures
        pieces(s, c).len() > 0,
        pieces(seq![first] + s, c) == if first == c {
            seq![Seq::<char>::empty()] + pieces(s, c)
        } else {
            seq![seq![first] + pieces(s, c)[0]] + pieces(s, c).drop_first()
        },
{
    let t = seq![first] + s;
    let i = first_index(s, c) as int;
    lemma_first_index(s, c);
    assert(t.drop_first() == s);
    if first == c {
        assert(first_index(t, c) == 0);
        assert(t.take(0) == Seq::<char>::empty());
        assert(t.skip(1) == s);
    } else {
        assert(first_index(t, c) == i + 1);
        if i < s.len() {
            assert(t.take(i + 1) == seq![first] + s.take(i));
            assert(t.skip(i + 2) == s.skip(i + 1));
            assert(pieces(s, c).drop_first() == pieces(s.skip(i + 1), c));
        } else {
            assert(pieces(s, c).drop_first() == Seq::<Seq<char>>::empty());
            assert(seq![t] + Seq::<Seq<char>>::empty() == seq![t]);
        }
    }
}

/// What a text without the separator in front of another does to its pieces.
pub(crate) proof fn lemma_pieces_of_joined(p: Seq<char>, s: Seq<char>, c: char)
    requires
        !p.contains(c),
    ensures
        pieces(s, c).len() > 0,
        pieces(p + s, c) == seq![p + pieces(s, c)[0]] + pieces(s, c).drop_first(),
    decreases p.len(),
{
    if p.len() == 0 {
        assert(p + s == s);
        lemma_pieces_of_preceded(c, s, c);
        assert(p + pieces(s, c)[0] == pieces(s, c)[0]);
        assert(seq![pieces(s, c)[0]] + pieces(s, c).drop_first() == pieces(s, c));
    } else {
        let rest = p.drop_first();
        assert forall|i: int| 0 <= i < rest.len() implies rest[i] != c by {
            assert(rest[i] == p[i + 1]);
        }
        lemma_pieces_of_joined(rest, s, c);
        lemma_pieces_of_preceded(p[0], rest + s, c);
        assert(p[0] != c);
        assert(seq![p[0]] + (rest + s) == p + s);
        assert(pieces(rest + s, c).drop_first() == pieces(s, c).drop_first());
        assert(seq![p[0]] + (rest + pieces(s, c)[0]) == p + pieces(s, c)[0]);
    }
}

/// Trimming takes white space off the ends and nothing else: what is taken off in front
/// and behind is white space, and what is left neither begins nor ends with any. No
/// character beyond the ideographic space is white space.
pub proof fn law_trimming_takes_white_space_off(s: Seq<char>)
    ensures
        ({
            let a = s.len() - trimmed_start(s).len();
            let b = trimmed_end(s).len();
            let t = trimmed(s);
            let n = trimmed_start(s).len();
            &&& 0 <= a <= s.len()
            &&& trimmed_start(s) == s.skip(a)
            &&& forall|i: int| 0 <= i < a ==> is_white_space(#[trigger] s[i])
            &&& a < s.len() ==> !is_white_space(s[a])
            &&& b <= s.len()
            &&& trimmed_end(s) == s.take(b as int)
            &&& forall|i: int| b <= i < s.len() ==> is_white_space(#[trigger] s[i])
            &&& b > 0 ==> !is_white_space(s[b - 1])
            &&& t.len() <= n
            &&& t == s.subrange(a, a + t.len())
            &&& forall|i: int| a + t.len() <= i < s.len() ==> is_white_space(#[trigger] s[i])
            &&& t.len() > 0 ==> !is_white_space(t[0]) && !is_white_space(t.last())
        }),
        forall|c: char| #[trigger] is_white_space(c) ==> c as u32 <= 0x3000,
{
    lemma_trimmed_start_parts(s);
    lemma_trimmed_end_parts(s);
    let m = trimmed_start(s);
    lemma_trimmed_end_parts(m);
    let a = s.len() - m.len();
    let t = trimmed(s);
    assert forall|i: int| a + t.len() <= i < s.len() implies is_white_space(#[trigger] s[i]) by {
        assert(m[i - a] == s[i]);
    }
    if t.len() > 0 {
        assert(t[0] == m[0]);
    }
}

proof fn lemma_trimmed_start_parts(s: Seq<char>)
    ensures
        ({
            let a = s.len() - trimmed_start(s).len();
            &&& 0 <= a <= s.len()
            &&& trimmed_start(s) == s.skip(a)
            &&& forall|i: int| 0 <= i < a ==> is_white_space(#[trigger] s[i])
            &&& a < s.len() ==> !is_white_space(s[a])
        }),
    decreases s.len(),
{
    if s.len() > 0 && is_white_space(s[0]) {
        let rest = s.drop_first();
        lemma_trimmed_start_parts(rest);
        let a = s.len() - trimmed_start(s).len();
        assert(rest.skip(a - 1) == s.skip(a));
        assert forall|i: int| 0 <= i < a implies is_white_space(#[trigger] s[i]) by {
            if i > 0 {
                assert(rest[i - 1] == s[i]);
            }
        }
        if a < s.len() {
            assert(rest[a - 1] == s[a]);
        }
    } else {
        assert(s.skip(0) == s);
    }
}

proof fn lemma_trimmed_end_parts(s: Seq<char>)
    ensures
        ({
            let b = trimmed_end(s).len();
            &&& b <= s.len()
            &&& trimmed_end(s) == s.take(b as int)
            &&& forall|i: int| b <= i < s.len() ==> is_white_space(#[trigger] s[i])
            &&& b > 0 ==> !is_white_space(s[b - 1])
        }),
    decreases s.len(),
{
    if s.len() > 0 && is_white_space(s.last()) {
        let front = s.drop_last();
        lemma_trimmed_end_parts(front);
        let b = trimmed_end(s).len() as int;
        assert(front.take(b) == s.take(b));
        assert forall|i: int| b <= i < s.len() implies is_white_space(#[trigger] s[i]) by {
            if i < s.len() - 1 {
                assert(front[i] == s[i]);
            }
        }
        if b > 0 {
            assert(front[b - 1] == s[b - 1]);
        }
    } else {
        assert(s.take(s.len() as int) == s);
    }
}

/// A text without the separator is one piece; with the separator and more text behind
/// it, it is the first piece, and the pieces of the rest follow.
pub proof fn law_pieces_stand_between_separators(piece: Seq<char>, rest: Seq<char>, c: char)
    requires
        forall|i: int| 0 <= i < piece.len() ==> #[trigger] piece[i] != c,
    ensures
        pieces(piece, c) == seq![piece],
        pieces(piece + seq![c] + rest, c) == seq![piece] + pieces(rest, c),
{
    lemma_first_index(piece, c);
    lemma_pieces_of_preceded(c, rest, c);
    lemma_pieces_of_joined(piece, seq![c] + rest, c);
    let tail = pieces(seq![c] + rest, c);
    assert(piece + (seq![c] + rest) == piece + seq![c] + rest);
    assert(piece + tail[0] == piece);
    assert(tail.drop_first() == pieces(rest, c));
}

/// A line goes up to its end, a line feed alone or behind a carriage return; what
/// follows are further lines. The last line needs no end, and an empty text has no line.
pub proof fn law_lines_end_with_line_feeds(line: Seq<char>, rest: Seq<char>)
    requires
        forall|i: int| 0 <= i < line.len() ==> #[trigger] line[i] != '\n',
    ensures
        line.len() > 0 ==> lines_of(line) == seq![line],
        line.len() == 0 ==> lines_of(line) == Seq::<Seq<char>>::empty(),
        line.len() == 0 || line.last() != '\r' ==> lines_of(line + seq!['\n'] + rest) == seq![line]
            + lines_of(rest),
        lines_of(line + seq!['\r', '\n'] + rest) == seq![line] + lines_of(rest),
{
    lemma_first_index(line, '\n');
    lemma_line_in_front(line, rest);
    assert(line.push('\r') + seq!['\n'] + rest == line + seq!['\r', '\n'] + rest);
    lemma_line_in_front(line.push('\r'), rest);
    assert(line.push('\r').drop_last() == line);
}

/// The line in front of a line feed is the first one.
pub(crate) proof fn lemma_line_in_front(line: Seq<char>, rest: Seq<char>)
    requires
        forall|i: int| 0 <= i < line.len() ==> #[trigger] line[i] != '\n',
    ensures
        lines_of(line + seq!['\n'] + rest) == seq![without_carriage_return(line)] + lines_of(rest),
{
    let s = line + seq!['\n'] + rest;
    let i = first_index(s, '\n') as int;
    lemma_first_index(s, '\n');
    assert(s[line.len() as int] == '\n');
    assert(i == line.len()) by {
        if i < line.len() {
            assert(s[i] == line[i]);
        }
    }
    assert(s.take(i) == line);
    assert(s.skip(i + 1) == rest);
}

/// The number that decimal digits stand for.
pub open spec fn value_of(digits: Seq<char>) -> int
    decreases digits.len(),
{
    if digits.len() == 0 {
        0
    } else {
        10 * value_of(digits.drop_last()) + (digits.last() as int - '0' as int)
    }
}

/// A number is written in digits that stand for it, without a zero in front unless it
/// is nought; in two digits at least, with no more than one zero put in front.
pub proof fn law_digits_stand_for_their_number(n: nat)
    ensures
        value_of(decimal(n)) == n,
        decimal(n).len() > 0,
        forall|i: int| 0 <= i < decimal(n).len() ==> '0' <= #[trigger] decimal(n)[i] <= '9',
        n > 0 ==> decimal(n)[0] != '0',
        n == 0 ==> decimal(n).len() == 1,
        n >= 10 ==> two_digits(n) == decimal(n),
        n < 10 ==> two_digits(n) == seq!['0', decimal(n)[0]],
        two_digits(n).len() >= 2,
        value_of(two_digits(n)) == n,
    decreases n,
{
    lemma_decimal_len(n);
    reveal_strlit("0");
    assert(decimal(n).drop_last() == if n < 10 {
        Seq::<char>::empty()
    } else {
        decimal(n / 10)
    });
    if n >= 10 {
        law_digits_stand_for_their_number(n / 10);
        assert(n == 10 * (n / 10) + n % 10);
        assert(decimal(n).len() == decimal(n / 10).len() + 1);
        assert forall|i: int| 0 <= i < decimal(n).len() implies '0' <= #[trigger] decimal(n)[i]
            <= '9' by {
            if i < decimal(n).len() - 1 {
                assert(decimal(n)[i] == decimal(n / 10)[i]);
            }
        }
    } else {
        assert(two_digits(n) == seq!['0', decimal(n)[0]]);
        assert(two_digits(n).drop_last() == seq!['0']);
        assert(seq!['0'].drop_last() == Seq::<char>::empty());
        assert(value_of(Seq::<char>::empty()) == 0);
        assert(value_of(seq!['0']) == 0);
    }
}

} // verus!
