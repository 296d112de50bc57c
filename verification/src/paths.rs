//! File paths: which of them name the same file, and what they are made of. Every path
//! is written as [`native`](crate::native) has it.

use vstd::prelude::*;
use vstd::string::*;
use crate::native;
use crate::native::Stray;
use crate::text;

verus! {

/// The two ways in which systems read a path.
#[derive(Clone, Copy, Debug, PartialEq, Eq, Structural)]
pub enum Platform {
    /// `/` parts the names, and the case of letters counts.
    Unix,
    /// The case of letters does not count.
    Windows,
}

/// The lower-case form of a text, as `str::to_lowercase` gives it.
pub uninterp spec fn lower_case(s: Seq<char>) -> Seq<char>;

/// What `Path::join` gives on Windows for a folder and what is joined to it.
pub uninterp spec fn windows_joined(folder: Seq<char>, name: Seq<char>) -> Seq<char>;

/// What `Path::parent` gives, by the rules of `platform`.
pub uninterp spec fn parent_path(platform: Platform, path: Seq<char>) -> Option<Seq<char>>;

/// What `Path::file_stem` gives, by the rules of `platform`.
pub uninterp spec fn stem_of_path(platform: Platform, path: Seq<char>) -> Option<Seq<char>>;

/// The system that the program runs on. The only way to one is [`Host::detect`],
/// so that the rules of `std::path` are those of the host's platform wherever
/// there is a host.
pub struct Host {
    separator: char,
}

/// The platform whose main separator is `separator`.
pub open spec fn platform_of(separator: char) -> Platform {
    if separator == '\\' {
        Platform::Windows
    } else {
        Platform::Unix
    }
}

impl Host {
    /// The rules by which this system reads a path.
    pub closed spec fn system(self) -> Platform {
        platform_of(self.separator)
    }

    /// The running system: the one whose main separator the standard library has.
    /// Which one that is depends on the machine.
    pub fn detect() -> (r: Host)
        ensures
            exists|separator: char| #[trigger]
                is_main_separator(separator) && r.system() == platform_of(separator),
    {
        let ask = main_separator;
        let separator = ask();
        assert(is_main_separator(separator));
        Host { separator }
    }

    /// The rules by which this system reads a path.
    pub fn platform(&self) -> (r: Platform)
        ensures
            r == self.system(),
    {
        platform_for(self.separator)
    }
}

/// The platform whose main separator is `separator`.
pub fn platform_for(separator: char) -> (r: Platform)
    ensures
        r == platform_of(separator),
{
    if separator == '\\' {
        Platform::Windows
    } else {
        Platform::Unix
    }
}

/// Whether `separator` is what the standard library can give as the main
/// separator of the running system.
pub closed spec fn is_main_separator(separator: char) -> bool {
    call_ensures(main_separator, (), separator)
}

/// Reads `std::path::MAIN_SEPARATOR`. What it is depends on the machine: nothing
/// is claimed of it.
#[verifier::external_body]
fn main_separator() -> (r: char) {
    std::path::MAIN_SEPARATOR
}

/// An ASCII letter in lower case; any other ASCII character as it is.
pub open spec fn ascii_lower(c: char) -> char {
    if 'A' <= c <= 'Z' {
        (c as u8 + 32) as char
    } else {
        c
    }
}

/// Whether every character of `s` is ASCII.
pub open spec fn all_ascii(s: Seq<char>) -> bool {
    forall|i: int| 0 <= i < s.len() ==> (#[trigger] s[i] as u32) < 128
}

/// `s` with every ASCII letter in lower case.
pub open spec fn ascii_lower_case(s: Seq<char>) -> Seq<char> {
    s.map_values(|c: char| ascii_lower(c))
}

/// Whether `value` is a bare command name, which the system looks up in its
/// search path: it has no separator of either kind and no drive letter.
pub open spec fn is_bare(value: Seq<char>) -> bool {
    !value.contains('/') && !value.contains('\\') && !value.contains(':')
}

/// The path of `name` in `folder`.
pub open spec fn joined_path(platform: Platform, folder: Seq<char>, name: Seq<char>) -> Seq<char> {
    match platform {
        Platform::Unix => unix_joined(folder, name),
        Platform::Windows => windows_joined(folder, name),
    }
}

/// The folder that holds `path`.
pub open spec fn folder_of_path(platform: Platform, path: Seq<char>) -> Option<Seq<char>> {
    if platform == Platform::Unix && is_tidy(path) {
        Some(unix_folder(path))
    } else {
        parent_path(platform, path)
    }
}

/// The name of the file at `path`, without its extension.
pub open spec fn name_stem_of_path(platform: Platform, path: Seq<char>) -> Option<Seq<char>> {
    if platform == Platform::Unix && is_ordinary_name(unix_file_name(path)) {
        Some(name_stem(unix_file_name(path)))
    } else {
        stem_of_path(platform, path)
    }
}

/// `folder` with `name` behind it, by the rules of Unix.
pub open spec fn unix_joined(folder: Seq<char>, name: Seq<char>) -> Seq<char> {
    if is_rooted(name) {
        name
    } else if folder.len() == 0 || folder.last() == '/' {
        folder + name
    } else {
        folder + seq!['/'] + name
    }
}

/// The text behind the last `c` in `s`, or all of `s` where there is none.
pub open spec fn behind_last(s: Seq<char>, c: char) -> Seq<char>
    decreases s.len(),
{
    if s.len() == 0 || s.last() == c {
        Seq::empty()
    } else {
        behind_last(s.drop_last(), c).push(s.last())
    }
}

/// The text in front of the last `c` in `s`, or none where there is no `c`.
pub open spec fn before_last(s: Seq<char>, c: char) -> Seq<char>
    decreases s.len(),
{
    if s.len() == 0 {
        s
    } else if s.last() == c {
        s.drop_last()
    } else {
        before_last(s.drop_last(), c)
    }
}

/// What stands behind the last slash of a Unix path.
pub open spec fn unix_file_name(path: Seq<char>) -> Seq<char> {
    behind_last(path, '/')
}

/// Whether `name` can be the name of a file: it is not empty, and neither `.`
/// nor `..`.
pub open spec fn is_ordinary_name(name: Seq<char>) -> bool {
    name.len() > 0 && name != seq!['.'] && name != seq!['.', '.']
}

/// A file name without its extension. A dot in front begins no extension.
pub open spec fn name_stem(name: Seq<char>) -> Seq<char> {
    if before_last(name, '.').len() > 0 {
        before_last(name, '.')
    } else {
        name
    }
}

/// The folder of a Unix path: what stands in front of its last slash, or the
/// root where that is nothing but the slash, or nothing without a slash.
pub open spec fn unix_folder(path: Seq<char>) -> Seq<char> {
    let before = before_last(path, '/');
    if is_rooted(path) && before.len() == 0 {
        seq!['/']
    } else {
        before
    }
}

/// Whether a Unix path ends with an ordinary file name, with neither a second
/// slash nor a `.` as the folder in front of it.
pub open spec fn is_tidy(path: Seq<char>) -> bool {
    let before = before_last(path, '/');
    &&& is_ordinary_name(unix_file_name(path))
    &&& before.len() > 0 ==> before.last() != '/' && unix_file_name(before) != seq!['.']
}

/// Whether `name` is a file name and no more: bare, not empty, and neither `.`
/// nor `..`.
pub open spec fn is_plain_name(name: Seq<char>) -> bool {
    is_bare(name) && is_ordinary_name(name)
}

/// Whether `s` ends with `end`.
pub open spec fn ends_with(s: Seq<char>, end: Seq<char>) -> bool {
    end.len() <= s.len() && s.skip(s.len() - end.len()) == end
}

/// Whether a piece between two slashes counts as a component. An empty one and
/// `.` do not.
pub open spec fn is_component(piece: Seq<char>) -> bool {
    piece.len() > 0 && piece != seq!['.']
}

/// Those of `pieces` that count as components.
pub open spec fn components_among(pieces: Seq<Seq<char>>) -> Seq<Seq<char>>
    decreases pieces.len(),
{
    if pieces.len() == 0 {
        Seq::empty()
    } else if is_component(pieces.last()) {
        components_among(pieces.drop_last()).push(pieces.last())
    } else {
        components_among(pieces.drop_last())
    }
}

/// The components of a Unix path.
pub open spec fn components(path: Seq<char>) -> Seq<Seq<char>> {
    components_among(text::pieces(path, '/'))
}

/// Whether a Unix path begins at the root.
pub open spec fn is_rooted(path: Seq<char>) -> bool {
    path.len() > 0 && path[0] == '/'
}

/// Whether a Unix path begins with `.`, which counts in that place alone.
pub open spec fn begins_here(path: Seq<char>) -> bool {
    text::pieces(path, '/')[0] == seq!['.']
}

/// Whether two paths name the same file on `platform`, as far as their text tells. On
/// Windows that is what is shown of them, on Unix all that is written.
pub open spec fn same_path(platform: Platform, a: Seq<char>, b: Seq<char>) -> bool {
    match platform {
        Platform::Windows => lower_case(native::shown(a)) == lower_case(native::shown(b)),
        Platform::Unix => {
            &&& is_rooted(a) == is_rooted(b)
            &&& begins_here(a) == begins_here(b)
            &&& components(a) == components(b)
        },
    }
}

/// Calls `str::to_lowercase`. Its result is `lower_case` of the text; of a text
/// that is ASCII throughout it changes the letters `A` to `Z` and nothing else.
#[verifier::external_body]
fn to_lower_case(s: &str) -> (r: String)
    ensures
        r@ == lower_case(s@),
        all_ascii(s@) ==> r@ == ascii_lower_case(s@),
{
    s.to_lowercase()
}

/// Calls `Path::join` on the two texts, by the rules of the running system, which
/// `host` stands for. On Unix a path that begins at the root replaces the folder,
/// and any other follows it behind one slash. On Windows the result is
/// `windows_joined` of the two. On either it ends with a plain file name that is
/// joined. What Windows makes of drive letters and other prefixes is left unsaid.
#[verifier::external_body]
pub(crate) fn join_path(host: &Host, folder: &str, name: &str) -> (r: String)
    ensures
        host.system() == Platform::Unix ==> r@ == unix_joined(folder@, name@),
        host.system() == Platform::Windows ==> r@ == windows_joined(folder@, name@),
        is_plain_name(name@) ==> ends_with(r@, name@),
{
    std::path::Path::new(folder).join(name).to_string_lossy().into_owned()
}

/// Calls `Path::parent` on the text, by the rules of the running system, which
/// `host` stands for. The result is `parent_path` of it. On Unix, where the path
/// is tidy and ends with an ordinary file name, it is what stands before that
/// name; of other paths nothing more is said.
#[verifier::external_body]
pub(crate) fn parent_of(host: &Host, path: &str) -> (r: Option<String>)
    ensures
        text::optional_text(r) == parent_path(host.system(), path@),
        host.system() == Platform::Unix && is_tidy(path@) ==> text::optional_text(r) == Some(
            unix_folder(path@),
        ),
{
    std::path::Path::new(path).parent().map(|p| p.to_string_lossy().into_owned())
}

/// Calls `Path::file_stem` on the text, by the rules of the running system, which
/// `host` stands for. The result is `stem_of_path` of it. On Unix, where the path
/// ends with an ordinary file name, it is that name up to its last dot, or all of
/// it where it has no dot but perhaps one in front; of other paths nothing more is
/// said.
#[verifier::external_body]
pub(crate) fn stem_of(host: &Host, path: &str) -> (r: Option<String>)
    ensures
        text::optional_text(r) == stem_of_path(host.system(), path@),
        host.system() == Platform::Unix && is_ordinary_name(unix_file_name(path@))
            ==> text::optional_text(r) == Some(name_stem(unix_file_name(path@))),
{
    std::path::Path::new(path).file_stem().map(|s| s.to_string_lossy().into_owned())
}

/// Whether `value` is a bare command name such as `ffmpeg` or `ffmpeg.exe`,
/// which is looked up in the search path when it is run. A text with a separator
/// (`/`, or `\` as on Windows) or a drive letter (`C:`) points at a place
/// instead, whatever system the library runs on.
pub fn is_bare_command(value: &str) -> (r: bool)
    ensures
        r == is_bare(value@),
{
    !text::has_char(value, '/') && !text::has_char(value, '\\') && !text::has_char(value, ':')
}

fn unix_components<'a>(pieces: &Vec<&'a str>) -> (r: Vec<&'a str>)
    ensures
        r@.map_values(|part: &'a str| part@) == components_among(
            pieces@.map_values(|piece: &'a str| piece@),
        ),
{
    let mut out: Vec<&'a str> = Vec::new();
    let ghost view = |piece: &'a str| piece@;
    let ghost all = pieces@.map_values(view);
    assert(all.take(0) == Seq::<Seq<char>>::empty());
    assert(out@.map_values(view) == Seq::<Seq<char>>::empty());
    for i in 0..pieces.len()
        invariant
            view == (|piece: &'a str| piece@),
            all == pieces@.map_values(view),
            out@.map_values(view) == components_among(all.take(i as int)),
    {
        let piece = pieces[i];
        proof {
            reveal_strlit(".");
            assert(all.take(i + 1).drop_last() == all.take(i as int));
            assert(all.take(i + 1).last() == piece@);
            assert("."@ == seq!['.']);
        }
        if !piece.is_empty() && !text::same_text(piece, ".") {
            let ghost before = out@;
            out.push(piece);
            assert(out@.map_values(view) == before.map_values(view).push(piece@));
        }
    }
    assert(all.take(pieces.len() as int) == all);
    out
}

fn same_texts(a: &Vec<&str>, b: &Vec<&str>) -> (r: bool)
    ensures
        r == (a@.map_values(|t: &str| t@) == b@.map_values(|t: &str| t@)),
{
    let ghost va = a@.map_values(|t: &str| t@);
    let ghost vb = b@.map_values(|t: &str| t@);
    if a.len() != b.len() {
        assert(va.len() != vb.len());
        return false;
    }
    for i in 0..a.len()
        invariant
            a.len() == b.len(),
            va == a@.map_values(|t: &str| t@),
            vb == b@.map_values(|t: &str| t@),
            forall|j: int| 0 <= j < i ==> va[j] == vb[j],
    {
        if !text::same_text(a[i], b[i]) {
            assert(va[i as int] != vb[i as int]);
            return false;
        }
    }
    assert(va == vb);
    true
}

fn same_unix_path(a: &str, b: &str) -> (r: bool)
    ensures
        r == same_path(Platform::Unix, a@, b@),
{
    let pieces_a = text::split(a, '/');
    let pieces_b = text::split(b, '/');
    proof {
        reveal_strlit(".");
        assert("."@ == seq!['.']);
        assert(text::pieces(a@, '/').len() > 0);
        assert(text::pieces(b@, '/').len() > 0);
        assert(pieces_a@[0]@ == text::pieces(a@, '/')[0]);
        assert(pieces_b@[0]@ == text::pieces(b@, '/')[0]);
    }
    rooted(a) == rooted(b) && text::same_text(pieces_a[0], ".") == text::same_text(
        pieces_b[0],
        ".",
    ) && same_texts(&unix_components(&pieces_a), &unix_components(&pieces_b))
}

fn rooted(path: &str) -> (r: bool)
    ensures
        r == is_rooted(path@),
{
    !path.is_empty() && path.get_char(0) == '/'
}

/// Whether `a` and `b` name the same file on `platform`.
///
/// The file systems of Windows do not tell upper from lower case: there a file
/// that is picked twice, in two spellings, is one file.
pub fn paths_equal(platform: Platform, a: &str, b: &str) -> (r: bool)
    ensures
        r == same_path(platform, a@, b@),
        a@ == b@ ==> r,
        platform == Platform::Windows && all_ascii(a@) && all_ascii(b@) ==> r == (
        ascii_lower_case(a@) == ascii_lower_case(b@)),
{
    match platform {
        Platform::Windows => {
            proof {
                if all_ascii(a@) && all_ascii(b@) {
                    assert(!a@.contains(native::MARK) && !b@.contains(native::MARK));
                    native::law_text_is_shown_as_it_is(a@);
                    native::law_text_is_shown_as_it_is(b@);
                }
            }
            to_lower_case(native::shown_text(a).as_str()) == to_lower_case(
                native::shown_text(b).as_str(),
            )
        },
        Platform::Unix => same_unix_path(a, b),
    }
}

/// Every path names the same file as itself; which of two paths comes first does
/// not matter; and two paths that name the same file as a third name the same file.
pub proof fn law_same_path_is_an_equivalence(
    platform: Platform,
    a: Seq<char>,
    b: Seq<char>,
    c: Seq<char>,
)
    ensures
        same_path(platform, a, a),
        same_path(platform, a, b) == same_path(platform, b, a),
        same_path(platform, a, b) && same_path(platform, b, c) ==> same_path(platform, a, c),
{
}

/// The pieces of a path of the system between its slashes.
pub open spec fn unit_pieces(units: Seq<Result<char, Stray>>) -> Seq<Seq<Result<char, Stray>>>
    decreases units.len(),
{
    if units.len() == 0 {
        seq![Seq::empty()]
    } else {
        let rest = unit_pieces(units.drop_first());
        if units[0] == Ok::<char, Stray>('/') {
            seq![Seq::empty()] + rest
        } else {
            seq![seq![units[0]] + rest[0]] + rest.drop_first()
        }
    }
}

/// Those of the pieces of a path of the system that count as components: not an
/// empty one, nor `.`.
pub open spec fn unit_components_among(
    pieces: Seq<Seq<Result<char, Stray>>>,
) -> Seq<Seq<Result<char, Stray>>>
    decreases pieces.len(),
{
    if pieces.len() == 0 {
        Seq::empty()
    } else if pieces.last().len() > 0 && pieces.last() != seq![Ok::<char, Stray>('.')] {
        unit_components_among(pieces.drop_last()).push(pieces.last())
    } else {
        unit_components_among(pieces.drop_last())
    }
}

/// On Unix two paths of the system name the same file if and only if both or none
/// begin at the root, both or none begin with `.`, and their components are the same,
/// unit for unit, whether they are text or not.
pub proof fn law_units_decide_on_unix(a: Seq<Result<char, Stray>>, b: Seq<Result<char, Stray>>)
    ensures
        same_path(Platform::Unix, native::written(a), native::written(b)) == {
            let slash = Ok::<char, Stray>('/');
            let dot = seq![Ok::<char, Stray>('.')];
            &&& (a.len() > 0 && a[0] == slash) == (b.len() > 0 && b[0] == slash)
            &&& (unit_pieces(a)[0] == dot) == (unit_pieces(b)[0] == dot)
            &&& unit_components_among(unit_pieces(a)) == unit_components_among(unit_pieces(b))
        },
{
    lemma_written_pieces(a);
    lemma_written_pieces(b);
    lemma_written_dot(unit_pieces(a)[0]);
    lemma_written_dot(unit_pieces(b)[0]);
    lemma_written_root(a);
    lemma_written_root(b);
    lemma_written_components(unit_pieces(a), text::pieces(native::written(a), '/'));
    lemma_written_components(unit_pieces(b), text::pieces(native::written(b), '/'));
    let x = unit_components_among(unit_pieces(a));
    let y = unit_components_among(unit_pieces(b));
    let p = components(native::written(a));
    let q = components(native::written(b));
    if p == q {
        assert forall|i: int| 0 <= i < x.len() implies x[i] == y[i] by {
            assert(p[i] == native::written(x[i]) && q[i] == native::written(y[i]));
            native::law_written_path_is_read_back(x[i]);
            native::law_written_path_is_read_back(y[i]);
        }
        assert(x == y);
    }
    if x == y {
        assert forall|i: int| 0 <= i < p.len() implies p[i] == q[i] by {
            assert(p[i] == native::written(x[i]) && q[i] == native::written(y[i]));
        }
        assert(p == q);
    }
}

/// Whether `texts` are the parts that are written for `parts`.
spec fn are_written(parts: Seq<Seq<Result<char, Stray>>>, texts: Seq<Seq<char>>) -> bool {
    &&& texts.len() == parts.len()
    &&& forall|i: int| 0 <= i < parts.len() ==> #[trigger] texts[i] == native::written(parts[i])
}

proof fn lemma_written_pieces(units: Seq<Result<char, Stray>>)
    ensures
        unit_pieces(units).len() > 0,
        are_written(unit_pieces(units), text::pieces(native::written(units), '/')),
    decreases units.len(),
{
    let s = native::written(units);
    if units.len() == 0 {
        assert(text::pieces(s, '/')[0] == s);
    } else {
        let rest = native::written(units.drop_first());
        let parts = unit_pieces(units.drop_first());
        let texts = text::pieces(rest, '/');
        lemma_written_pieces(units.drop_first());
        if units[0] == Ok::<char, Stray>('/') {
            text::lemma_pieces_of_preceded('/', rest, '/');
            assert(native::written(Seq::<Result<char, Stray>>::empty()) == Seq::<char>::empty());
        } else {
            let head = native::spelled(units[0]);
            lemma_no_slash(units[0]);
            text::lemma_pieces_of_joined(head, rest, '/');
            let part = seq![units[0]] + parts[0];
            assert(part.drop_first() == parts[0]);
            assert(native::written(part) == head + native::written(parts[0]));
            assert(texts[0] == native::written(parts[0]));
        }
        assert forall|i: int| 0 <= i < unit_pieces(units).len() implies #[trigger] text::pieces(
            s,
            '/',
        )[i] == native::written(unit_pieces(units)[i]) by {
            if units[0] == Ok::<char, Stray>('/') {
                if i > 0 {
                    assert(texts[i - 1] == native::written(parts[i - 1]));
                }
            } else if i > 0 {
                assert(texts[i] == native::written(parts[i]));
            }
        }
    }
}

proof fn lemma_no_slash(unit: Result<char, Stray>)
    requires
        unit != Ok::<char, Stray>('/'),
    ensures
        !native::spelled(unit).contains('/'),
{
    if unit is Err {
        native::lemma_spelled_letters(unit->Err_0);
    }
}

proof fn lemma_written_dot(part: Seq<Result<char, Stray>>)
    ensures
        (native::written(part) == seq!['.']) == (part == seq![Ok::<char, Stray>('.')]),
        (native::written(part).len() == 0) == (part.len() == 0),
{
    let dot = seq![Ok::<char, Stray>('.')];
    let rest = Seq::<Result<char, Stray>>::empty();
    assert(dot.drop_first() == rest);
    assert(native::written(rest) == Seq::<char>::empty());
    assert(native::written(dot) == seq!['.']);
    native::law_written_path_is_read_back(part);
    native::law_written_path_is_read_back(dot);
}

proof fn lemma_written_root(units: Seq<Result<char, Stray>>)
    ensures
        is_rooted(native::written(units)) == (units.len() > 0 && units[0] == Ok::<char, Stray>(
            '/',
        )),
{
    if units.len() > 0 {
        assert(native::written(units)[0] == native::spelled(units[0])[0]);
    }
}

proof fn lemma_written_components(
    parts: Seq<Seq<Result<char, Stray>>>,
    texts: Seq<Seq<char>>,
)
    requires
        are_written(parts, texts),
    ensures
        are_written(unit_components_among(parts), components_among(texts)),
    decreases parts.len(),
{
    if parts.len() > 0 {
        assert(texts[parts.len() - 1] == native::written(parts[parts.len() - 1]));
        lemma_written_dot(parts.last());
        lemma_written_components(parts.drop_last(), texts.drop_last());
    }
}

/// A bare command name is one in which no character is a separator or a colon.
pub proof fn law_bare_names_have_no_separator(value: Seq<char>)
    ensures
        is_bare(value) == (forall|i: int|
            0 <= i < value.len() ==> #[trigger] value[i] != '/' && value[i] != '\\' && value[i]
                != ':'),
{
    if exists|i: int|
        0 <= i < value.len() && (#[trigger] value[i] == '/' || value[i] == '\\' || value[i] == ':') {
        let i = choose|i: int|
            0 <= i < value.len() && (#[trigger] value[i] == '/' || value[i] == '\\' || value[i]
                == ':');
        assert(value.contains(value[i]));
    }
}

/// Windows is the platform with the backslash, and no other.
pub proof fn law_backslash_means_windows(separator: char)
    ensures
        platform_of(separator) == Platform::Windows <==> separator == '\\',
{
}

/// Two ASCII characters are the same in lower case if and only if they are the same, or
/// the upper and the lower case of one letter.
pub proof fn law_lower_case_joins_the_two_cases(a: char, b: char)
    requires
        (a as u32) < 128,
        (b as u32) < 128,
    ensures
        ascii_lower(a) == ascii_lower(b) <==> {
            ||| a == b
            ||| 'A' <= a <= 'Z' && b as u32 == a as u32 + 32
            ||| 'A' <= b <= 'Z' && a as u32 == b as u32 + 32
        },
{
}

/// A text in lower case has as many characters, each in lower case.
pub proof fn law_lower_case_goes_by_character(s: Seq<char>, i: int)
    requires
        0 <= i < s.len(),
    ensures
        ascii_lower_case(s).len() == s.len(),
        ascii_lower_case(s)[i] == ascii_lower(s[i]),
{
}

/// On Windows what is shown decides, in lower case; on Unix case counts, and in one
/// folder two names are the same file if and only if they are the same name.
pub proof fn law_same_name_same_file(
    folder: Seq<char>,
    a: Seq<char>,
    b: Seq<char>,
)
    requires
        a.len() > 0 && a != seq!['.'],
        b.len() > 0 && b != seq!['.'],
        forall|i: int| 0 <= i < a.len() ==> #[trigger] a[i] != '/',
        forall|i: int| 0 <= i < b.len() ==> #[trigger] b[i] != '/',
    ensures
        same_path(Platform::Unix, folder + seq!['/'] + a, folder + seq!['/'] + b) <==> a == b,
        same_path(Platform::Unix, folder + seq!['/'] + a, folder + seq!['/', '/'] + a),
        same_path(Platform::Windows, a, b) <==> lower_case(native::shown(a)) == lower_case(
            native::shown(b),
        ),
{
    lemma_components_of_joined(folder, a);
    lemma_components_of_joined(folder, b);
    let doubled = folder.push('/');
    lemma_components_of_joined(doubled, a);
    assert(doubled + seq!['/'] + a == folder + seq!['/', '/'] + a);
    let none = Seq::<char>::empty();
    lemma_pieces_of_folder(folder, none);
    assert(folder + seq!['/'] + none == doubled);
    assert(text::pieces(doubled, '/').drop_last() == text::pieces(folder, '/'));
    assert(components(doubled) == components(folder));
    assert(is_rooted(doubled) == is_rooted(folder + seq!['/'] + a));
    assert(components(folder).push(a).last() == a);
    assert(components(folder).push(b).last() == b);
}

proof fn lemma_pieces_of_folder(folder: Seq<char>, name: Seq<char>)
    requires
        forall|i: int| 0 <= i < name.len() ==> #[trigger] name[i] != '/',
    ensures
        text::pieces(folder, '/').len() > 0,
        text::pieces(folder + seq!['/'] + name, '/') == text::pieces(folder, '/').push(name),
    decreases folder.len(),
{
    text::law_pieces_stand_between_separators(name, Seq::empty(), '/');
    if folder.len() == 0 {
        text::law_pieces_stand_between_separators(folder, name, '/');
        assert(seq![folder] + seq![name] == seq![folder].push(name));
    } else {
        let rest = folder.drop_first();
        let whole = rest + seq!['/'] + name;
        lemma_pieces_of_folder(rest, name);
        text::lemma_pieces_of_preceded(folder[0], rest, '/');
        text::lemma_pieces_of_preceded(folder[0], whole, '/');
        assert(seq![folder[0]] + rest == folder);
        assert(seq![folder[0]] + whole == folder + seq!['/'] + name);
        let front = text::pieces(rest, '/');
        assert(front.push(name)[0] == front[0]);
        assert(front.push(name).drop_first() == front.drop_first().push(name));
        if folder[0] == '/' {
            assert(seq![Seq::<char>::empty()] + front.push(name) == (seq![Seq::<char>::empty()]
                + front).push(name));
        } else {
            let head = seq![seq![folder[0]] + front[0]];
            assert(head + front.drop_first().push(name) == (head + front.drop_first()).push(name));
        }
    }
}

proof fn lemma_components_of_joined(folder: Seq<char>, name: Seq<char>)
    requires
        name.len() > 0 && name != seq!['.'],
        forall|i: int| 0 <= i < name.len() ==> #[trigger] name[i] != '/',
    ensures
        components(folder + seq!['/'] + name) == components(folder).push(name),
        begins_here(folder + seq!['/'] + name) == begins_here(folder),
        is_rooted(folder + seq!['/'] + name) == (folder.len() == 0 || folder[0] == '/'),
{
    lemma_pieces_of_folder(folder, name);
    let all = text::pieces(folder, '/').push(name);
    assert(all.drop_last() == text::pieces(folder, '/'));
    assert(all[0] == text::pieces(folder, '/')[0]);
}

/// On Unix a relative name that is joined to a folder stands at the end, the folder in
/// front, and one slash between them, unless the folder is empty or brings the slash. A
/// name that begins at the root stands alone.
pub proof fn law_joined_on_unix(folder: Seq<char>, name: Seq<char>)
    requires
        name.len() > 0,
    ensures
        ({
            let joined = joined_path(Platform::Unix, folder, name);
            &&& name[0] == '/' ==> joined == name
            &&& name[0] != '/' && (folder.len() == 0 || folder.last() == '/') ==> joined == folder
                + name
            &&& name[0] != '/' && folder.len() > 0 && folder.last() != '/' ==> joined == folder
                + seq!['/'] + name
        }),
{
}

/// A Unix path is taken apart where it was put together: the folder is what stands in
/// front of the last slash, the stem the name up to its last dot.
pub proof fn law_taken_apart_on_unix(folder: Seq<char>, base: Seq<char>, extension: Seq<char>)
    requires
        base.len() > 0,
        forall|i: int| 0 <= i < base.len() ==> #[trigger] base[i] != '/',
        forall|i: int|
            0 <= i < extension.len() ==> #[trigger] extension[i] != '/' && extension[i] != '.',
        base != seq!['.'] || extension.len() > 0,
        folder.len() > 0,
        folder.last() != '/',
        folder != seq!['.'],
        folder.len() > 1 ==> folder.last() != '.' || folder[folder.len() - 2] != '/',
    ensures
        ({
            let name = base + seq!['.'] + extension;
            let path = folder + seq!['/'] + name;
            &&& folder_of_path(Platform::Unix, path) == Some(folder)
            &&& folder_of_path(Platform::Unix, seq!['/'] + name) == Some(seq!['/'])
            &&& folder_of_path(Platform::Unix, name) == Some(Seq::<char>::empty())
            &&& name_stem_of_path(Platform::Unix, path) == Some(base)
            &&& name_stem_of_path(Platform::Unix, name) == Some(base)
        }),
{
    let name = base + seq!['.'] + extension;
    let path = folder + seq!['/'] + name;
    lemma_no_slash_in_name(base, extension);
    lemma_last(folder, name, '/');
    lemma_last(Seq::empty(), name, '/');
    assert(Seq::<char>::empty() + seq!['/'] + name == seq!['/'] + name);
    lemma_last(base, extension, '.');
    lemma_last_of_none(name, '/');
    lemma_ordinary(base, extension);
    lemma_dot_at_end(folder);
    assert(is_rooted(path) == is_rooted(folder));
    assert(!is_rooted(name)) by {
        assert(name[0] == base[0]);
    }
}

/// A name without a dot, or with no dot but one in front, is its own stem.
pub proof fn law_name_without_extension_is_its_stem(folder: Seq<char>, rest: Seq<char>)
    requires
        rest.len() > 0,
        forall|i: int| 0 <= i < rest.len() ==> #[trigger] rest[i] != '/' && rest[i] != '.',
    ensures
        name_stem_of_path(Platform::Unix, folder + seq!['/'] + rest) == Some(rest),
        name_stem_of_path(Platform::Unix, rest) == Some(rest),
        name_stem_of_path(Platform::Unix, folder + seq!['/', '.'] + rest) == Some(
            seq!['.'] + rest,
        ),
{
    lemma_last(folder, rest, '/');
    lemma_last_of_none(rest, '/');
    lemma_last_of_none(rest, '.');
    assert(rest[0] != '.');
    let hidden = seq!['.'] + rest;
    assert forall|i: int| 0 <= i < hidden.len() implies #[trigger] hidden[i] != '/' by {
        if i > 0 {
            assert(hidden[i] == rest[i - 1]);
        }
    }
    lemma_last(folder, hidden, '/');
    assert(folder + seq!['/'] + hidden == folder + seq!['/', '.'] + rest);
    lemma_last(Seq::empty(), rest, '.');
    assert(Seq::<char>::empty() + seq!['.'] + rest == hidden);
    assert(hidden[1] == rest[0]);
}

proof fn lemma_no_slash_in_name(base: Seq<char>, extension: Seq<char>)
    requires
        forall|i: int| 0 <= i < base.len() ==> #[trigger] base[i] != '/',
        forall|i: int| 0 <= i < extension.len() ==> #[trigger] extension[i] != '/',
    ensures
        ({
            let name = base + seq!['.'] + extension;
            forall|i: int| 0 <= i < name.len() ==> #[trigger] name[i] != '/'
        }),
{
    let name = base + seq!['.'] + extension;
    assert forall|i: int| 0 <= i < name.len() implies #[trigger] name[i] != '/' by {
        if i < base.len() {
            assert(name[i] == base[i]);
        } else if i > base.len() {
            assert(name[i] == extension[i - base.len() - 1]);
        }
    }
}

proof fn lemma_ordinary(base: Seq<char>, extension: Seq<char>)
    requires
        base.len() > 0,
        base != seq!['.'] || extension.len() > 0,
    ensures
        is_ordinary_name(base + seq!['.'] + extension),
{
    let name = base + seq!['.'] + extension;
    assert(name[0] == base[0]);
    if name == seq!['.', '.'] {
        assert(name.len() == 2);
        assert(base == seq!['.']);
    }
}

proof fn lemma_dot_at_end(folder: Seq<char>)
    requires
        folder.len() > 0,
        folder.last() != '/',
        folder != seq!['.'],
        folder.len() > 1 ==> folder.last() != '.' || folder[folder.len() - 2] != '/',
    ensures
        unix_file_name(folder) != seq!['.'],
{
    let front = folder.drop_last();
    assert(behind_last(folder, '/') == behind_last(front, '/').push(folder.last()));
    if front.len() == 0 {
        assert(folder == seq![folder.last()]);
        assert(behind_last(front, '/') == Seq::<char>::empty());
        assert(behind_last(folder, '/') == folder);
    } else if front.last() != '/' {
        assert(behind_last(front, '/').len() > 0);
        assert(behind_last(folder, '/').len() > 1);
    } else {
        assert(front.last() == folder[folder.len() - 2]);
        assert(behind_last(folder, '/').last() == folder.last());
    }
}

proof fn lemma_last(front: Seq<char>, rest: Seq<char>, c: char)
    requires
        forall|i: int| 0 <= i < rest.len() ==> #[trigger] rest[i] != c,
    ensures
        behind_last(front + seq![c] + rest, c) == rest,
        before_last(front + seq![c] + rest, c) == front,
    decreases rest.len(),
{
    let s = front + seq![c] + rest;
    if rest.len() == 0 {
        assert(s.last() == c);
        assert(s.drop_last() == front);
        assert(rest == Seq::<char>::empty());
    } else {
        assert(s.last() == rest.last());
        assert(s.drop_last() == front + seq![c] + rest.drop_last());
        lemma_last(front, rest.drop_last(), c);
        assert(rest.drop_last().push(rest.last()) == rest);
    }
}

proof fn lemma_last_of_none(s: Seq<char>, c: char)
    requires
        forall|i: int| 0 <= i < s.len() ==> #[trigger] s[i] != c,
    ensures
        behind_last(s, c) == s,
        before_last(s, c) == Seq::<char>::empty(),
    decreases s.len(),
{
    if s.len() > 0 {
        lemma_last_of_none(s.drop_last(), c);
        assert(s.drop_last().push(s.last()) == s);
    }
}

/// On Windows, and for a Unix path that ends with no ordinary name, the standard library
/// alone decides.
pub proof fn law_standard_library_decides(path: Seq<char>, name: Seq<char>)
    ensures
        folder_of_path(Platform::Windows, path) == parent_path(Platform::Windows, path),
        name_stem_of_path(Platform::Windows, path) == stem_of_path(Platform::Windows, path),
        joined_path(Platform::Windows, path, name) == windows_joined(path, name),
        path.len() == 0 || path.last() == '/' ==> {
            &&& folder_of_path(Platform::Unix, path) == parent_path(Platform::Unix, path)
            &&& name_stem_of_path(Platform::Unix, path) == stem_of_path(Platform::Unix, path)
        },
{
}

/// A Unix path that ends with an ordinary name lies in the folder in front of its last
/// slash, in the root where that is all there is, and otherwise in no named one.
pub proof fn law_folder_holds_its_files(folder: Seq<char>, name: Seq<char>)
    requires
        name.len() > 0 && name != seq!['.'] && name != seq!['.', '.'],
        forall|i: int| 0 <= i < name.len() ==> #[trigger] name[i] != '/',
        folder.len() > 0,
        folder.last() != '/',
        folder != seq!['.'],
        folder.len() > 1 ==> folder.last() != '.' || folder[folder.len() - 2] != '/',
    ensures
        folder_of_path(Platform::Unix, folder + seq!['/'] + name) == Some(folder),
        folder_of_path(Platform::Unix, seq!['/'] + name) == Some(seq!['/']),
        folder_of_path(Platform::Unix, name) == Some(Seq::<char>::empty()),
        folder_of_path(Platform::Unix, joined_path(Platform::Unix, folder, name)) == Some(folder),
{
    lemma_last(folder, name, '/');
    lemma_last(Seq::empty(), name, '/');
    assert(Seq::<char>::empty() + seq!['/'] + name == seq!['/'] + name);
    lemma_last_of_none(name, '/');
    lemma_dot_at_end(folder);
    assert(is_rooted(folder + seq!['/'] + name) == is_rooted(folder));
    assert(name[0] != '/');
}

} // verus!
