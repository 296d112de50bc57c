//! Where a converted file goes: a name made from the input's name and the time,
//! and never the name of a file that is there already.

use vstd::prelude::*;
use vstd::string::*;
use crate::native;
use crate::paths;
use crate::paths::Host;
use crate::paths::Platform;
use crate::text;

verus! {

/// The highest number that a name can get. The number behind it still fits in
/// an `i32`.
pub const LAST_NUMBER: i32 = 2147483646;

/// The name of attempt `k`. The first attempt has no number; the attempts behind
/// it have the numbers from 2 on.
pub open spec fn output_name(
    stem: Seq<char>,
    timestamp: Seq<char>,
    ext: Seq<char>,
    k: nat,
) -> Seq<char> {
    let base = stem + "_"@ + timestamp;
    if k == 0 {
        base + "."@ + ext
    } else {
        base + " ("@ + text::decimal(k + 1) + ")."@ + ext
    }
}

/// The path of attempt `k`.
pub open spec fn output_path(
    platform: Platform,
    dir: Seq<char>,
    stem: Seq<char>,
    timestamp: Seq<char>,
    ext: Seq<char>,
    k: nat,
) -> Seq<char> {
    paths::joined_path(platform, dir, native::path_of(output_name(stem, timestamp, ext, k)))
}

/// Whether `exists_fn` can answer `answer` when it is asked about `path`.
pub open spec fn answers<F: Fn(&str) -> bool>(
    exists_fn: F,
    path: Seq<char>,
    answer: bool,
) -> bool {
    exists|p: &str| p@ == path && #[trigger] call_ensures(exists_fn, (p,), answer)
}

/// Whether `exists_fn` can be asked about every path.
pub open spec fn answers_all<F: Fn(&str) -> bool>(exists_fn: F) -> bool {
    forall|p: &str| call_requires(exists_fn, (p,))
}

/// Whether attempt `k` is the first whose path `exists_fn` called free.
pub open spec fn is_first_free<F: Fn(&str) -> bool>(
    platform: Platform,
    dir: Seq<char>,
    stem: Seq<char>,
    timestamp: Seq<char>,
    ext: Seq<char>,
    exists_fn: F,
    k: nat,
) -> bool {
    &&& k < LAST_NUMBER
    &&& answers(exists_fn, output_path(platform, dir, stem, timestamp, ext, k), false)
    &&& forall|j: nat| j < k ==> answers(
        exists_fn,
        #[trigger] output_path(platform, dir, stem, timestamp, ext, j),
        true,
    )
}

/// Whether `r` is what the search for a path comes to under the answers of
/// `exists_fn`: that of the first attempt that is free, or nothing where none is.
pub open spec fn is_free_choice<F: Fn(&str) -> bool>(
    platform: Platform,
    dir: Seq<char>,
    stem: Seq<char>,
    timestamp: Seq<char>,
    ext: Seq<char>,
    exists_fn: F,
    r: Option<Seq<char>>,
) -> bool {
    match r {
        Some(path) => exists|k: nat|
            {
                let name = native::path_of(output_name(stem, timestamp, ext, k));
                &&& path == #[trigger] output_path(platform, dir, stem, timestamp, ext, k)
                &&& is_first_free(platform, dir, stem, timestamp, ext, exists_fn, k)
                &&& paths::is_plain_name(name) ==> paths::ends_with(path, name)
            },
        None => forall|j: nat|
            j < LAST_NUMBER ==> answers(
                exists_fn,
                #[trigger] output_path(platform, dir, stem, timestamp, ext, j),
                true,
            ),
    }
}

/// The name of attempt `k`.
pub fn output_file_name(stem: &str, timestamp: &str, ext: &str, k: u32) -> (r: String)
    ensures
        r@ == output_name(stem@, timestamp@, ext@, k as nat),
{
    let base = stem.to_owned().concat("_").concat(timestamp);
    if k == 0 {
        base.concat(".").concat(ext)
    } else {
        base.concat(" (").concat(text::decimal_text(k as u64 + 1).as_str()).concat(").").concat(ext)
    }
}

/// The first path, of those that the attempts give in turn, of which `exists_fn`
/// says that no file is there; `None` where the numbers run out.
pub fn first_free_output_path<F: Fn(&str) -> bool>(
    host: &Host,
    dir: &str,
    stem: &str,
    timestamp: &str,
    ext: &str,
    exists_fn: F,
) -> (r: Option<String>)
    requires
        answers_all(exists_fn),
    ensures
        is_free_choice(
            host.system(),
            dir@,
            stem@,
            timestamp@,
            ext@,
            exists_fn,
            text::optional_text(r),
        ),
{
    let mut k: u32 = 0;
    while k < LAST_NUMBER as u32
        invariant
            k <= LAST_NUMBER,
            answers_all(exists_fn),
            forall|j: nat|
                j < k ==> answers(
                    exists_fn,
                    #[trigger] output_path(host.system(), dir@, stem@, timestamp@, ext@, j),
                    true,
                ),
        decreases LAST_NUMBER - k,
    {
        let name = output_file_name(stem, timestamp, ext, k);
        let candidate = paths::join_path(host, dir, native::text_path(name.as_str()).as_str());
        assert(candidate@ == output_path(host.system(), dir@, stem@, timestamp@, ext@, k as nat));
        let path = candidate.as_str();
        if !exists_fn(path) {
            assert(is_first_free(host.system(), dir@, stem@, timestamp@, ext@, exists_fn, k as nat));
            return Some(candidate);
        }
        k = k + 1;
    }
    None
}

/// A path in `dir` for the file made from `stem`, `timestamp` and `ext`. Where
/// `exists_fn` says that a file is there already, ` (2)`, ` (3)` and so on is put
/// behind the name, until there is none: `ffmpeg` is told to overwrite what it
/// finds.
pub fn unique_output_path_with<F: Fn(&str) -> bool>(
    host: &Host,
    dir: &str,
    stem: &str,
    timestamp: &str,
    ext: &str,
    exists_fn: F,
) -> (r: String)
    requires
        answers_all(exists_fn),
        exists|k: nat|
            k < LAST_NUMBER && !answers(
                exists_fn,
                #[trigger] output_path(host.system(), dir@, stem@, timestamp@, ext@, k),
                true,
            ),
    ensures
        is_free_choice(host.system(), dir@, stem@, timestamp@, ext@, exists_fn, Some(r@)),
        answers(exists_fn, r@, false),
{
    match first_free_output_path(host, dir, stem, timestamp, ext, exists_fn) {
        Some(path) => path,
        None => {
            assert(false);
            String::new()
        },
    }
}

/// Calls `Path::exists`. The answer depends on what is on disk: nothing is
/// claimed of it.
#[verifier::external_body]
fn file_exists(path: &str) -> (r: bool) {
    std::path::Path::new(path).exists()
}

/// Whether a look at the disk can give `answer` to the question whether there is
/// a file at the path that is `text`. Two looks at one path may differ.
pub closed spec fn disk_answers(text: Seq<char>, answer: bool) -> bool {
    answers(file_exists, text, answer)
}

/// Whether `answer` can be had to the question whether there is a file at `path`:
/// from the disk where the path is text, and otherwise from `ask`.
pub open spec fn place_answers<F: Fn(&str) -> bool>(
    ask: &F,
    path: Seq<char>,
    answer: bool,
) -> bool {
    if native::is_text(path) {
        disk_answers(native::shown(path), answer)
    } else {
        answers(*ask, path, answer)
    }
}

fn place_is_taken<F: Fn(&str) -> bool>(path: &str, ask: &F) -> (r: bool)
    requires
        answers_all(*ask),
    ensures
        place_answers(ask, path@, r),
{
    if native::is_text_path(path) {
        let look = file_exists;
        let text = native::shown_text(path);
        let shown = text.as_str();
        let answer = look(shown);
        assert(call_ensures(look, (shown,), answer));
        answer
    } else {
        ask(path)
    }
}

/// Whether `r` is what the search for a path comes to under the answers of the disk
/// and of `ask`: that of the first attempt that is free, or nothing where none is.
pub open spec fn is_disk_choice<F: Fn(&str) -> bool>(
    platform: Platform,
    dir: Seq<char>,
    stem: Seq<char>,
    timestamp: Seq<char>,
    ext: Seq<char>,
    ask: &F,
    r: Option<Seq<char>>,
) -> bool {
    match r {
        Some(path) => place_answers(ask, path, false) && exists|k: nat|
            {
                &&& k < LAST_NUMBER
                &&& path == #[trigger] output_path(platform, dir, stem, timestamp, ext, k)
                &&& forall|j: nat|
                    j < k ==> place_answers(
                        ask,
                        #[trigger] output_path(platform, dir, stem, timestamp, ext, j),
                        true,
                    )
            },
        None => forall|j: nat|
            j < LAST_NUMBER ==> place_answers(
                ask,
                #[trigger] output_path(platform, dir, stem, timestamp, ext, j),
                true,
            ),
    }
}

/// A path in `dir` for the file made from `stem`, `timestamp` and `ext`: the
/// first, of those that the attempts give in turn, at which no file was found on
/// disk. `None` where the numbers run out, with a file found at every one. A path
/// that is not text cannot be looked up from here: `ask` answers for it.
pub fn unique_output_path<F: Fn(&str) -> bool>(
    host: &Host,
    dir: &str,
    stem: &str,
    timestamp: &str,
    ext: &str,
    ask: &F,
) -> (r: Option<String>)
    requires
        answers_all(*ask),
    ensures
        is_disk_choice(
            host.system(),
            dir@,
            stem@,
            timestamp@,
            ext@,
            ask,
            text::optional_text(r),
        ),
{
    let exists_fn = |path: &str| -> (answer: bool)
        ensures
            place_answers(ask, path@, answer),
        { place_is_taken(path, ask) };
    first_free_output_path(host, dir, stem, timestamp, ext, exists_fn)
}

fn is_listed(list: &Vec<String>, path: &str) -> (r: bool)
    ensures
        r == text::texts(list@).contains(path@),
{
    for i in 0..list.len()
        invariant
            forall|j: int| 0 <= j < i ==> text::texts(list@)[j] != path@,
    {
        if text::same_text(list[i].as_str(), path) {
            assert(text::texts(list@)[i as int] == path@);
            return true;
        }
    }
    false
}

/// A path in `dir` for the file made from `stem`, `timestamp` and `ext` that is
/// not one of `taken`: the first that is not, of those that the attempts give in
/// turn. `None` where all of them are taken.
pub fn unique_output_path_among(
    host: &Host,
    dir: &str,
    stem: &str,
    timestamp: &str,
    ext: &str,
    taken: &Vec<String>,
) -> (r: Option<String>)
    ensures
        match r {
            Some(path) => !text::texts(taken@).contains(path@) && exists|k: nat|
                {
                    &&& k < LAST_NUMBER
                    &&& path@ == #[trigger] output_path(host.system(), dir@, stem@, timestamp@, ext@, k)
                    &&& forall|j: nat|
                        j < k ==> text::texts(taken@).contains(
                            #[trigger] output_path(host.system(), dir@, stem@, timestamp@, ext@, j),
                        )
                },
            None => forall|j: nat|
                j < LAST_NUMBER ==> text::texts(taken@).contains(
                    #[trigger] output_path(host.system(), dir@, stem@, timestamp@, ext@, j),
                ),
        },
{
    let mut k: u32 = 0;
    while k < LAST_NUMBER as u32
        invariant
            k <= LAST_NUMBER,
            forall|j: nat|
                j < k ==> text::texts(taken@).contains(
                    #[trigger] output_path(host.system(), dir@, stem@, timestamp@, ext@, j),
                ),
        decreases LAST_NUMBER - k,
    {
        let name = output_file_name(stem, timestamp, ext, k);
        let candidate = paths::join_path(host, dir, native::text_path(name.as_str()).as_str());
        let ghost path_k = output_path(host.system(), dir@, stem@, timestamp@, ext@, k as nat);
        assert(candidate@ == path_k);
        if !is_listed(taken, candidate.as_str()) {
            let exists_fn = |path: &str| -> (answer: bool)
                ensures
                    answer == text::texts(taken@).contains(path@),
                { is_listed(taken, path) };
            assert(!answers(exists_fn, path_k, true));
            return Some(unique_output_path_with(host, dir, stem, timestamp, ext, exists_fn));
        }
        k = k + 1;
    }
    None
}

/// No two attempts have the same name.
pub proof fn law_attempts_differ(
    stem: Seq<char>,
    timestamp: Seq<char>,
    ext: Seq<char>,
    j: nat,
    k: nat,
)
    requires
        j != k,
    ensures
        output_name(stem, timestamp, ext, j) != output_name(stem, timestamp, ext, k),
{
    reveal_strlit(".");
    reveal_strlit(" (");
    reveal_strlit(").");
    text::lemma_decimal_len(j + 1);
    text::lemma_decimal_len(k + 1);
    let base = stem + "_"@ + timestamp;
    let a = output_name(stem, timestamp, ext, j);
    let b = output_name(stem, timestamp, ext, k);
    if j == 0 || k == 0 {
        let plain = base + "."@ + ext;
        let n = if j == 0 {
            k
        } else {
            j
        };
        let numbered = base + " ("@ + text::decimal(n + 1) + ")."@ + ext;
        assert(plain.len() == base.len() + 1 + ext.len());
        assert(numbered.len() == base.len() + 4 + text::decimal(n + 1).len() + ext.len());
    } else if a == b {
        let n = base.len() + 2;
        let tail = 2 + ext.len();
        assert(a.subrange(n as int, a.len() - tail) == text::decimal(j + 1));
        assert(b.subrange(n as int, b.len() - tail) == text::decimal(k + 1));
        text::law_decimal_tells_numbers_apart(j + 1, k + 1);
    }
}

/// On Unix no two attempts have the same path.
pub proof fn law_attempt_paths_differ(
    dir: Seq<char>,
    stem: Seq<char>,
    timestamp: Seq<char>,
    ext: Seq<char>,
    j: nat,
    k: nat,
)
    requires
        j != k,
    ensures
        output_path(Platform::Unix, dir, stem, timestamp, ext, j) != output_path(
            Platform::Unix,
            dir,
            stem,
            timestamp,
            ext,
            k,
        ),
{
    law_attempts_differ(stem, timestamp, ext, j, k);
    reveal_strlit("_");
    let base = stem + "_"@ + timestamp;
    let name_j = output_name(stem, timestamp, ext, j);
    let name_k = output_name(stem, timestamp, ext, k);
    assert(name_j[0] == base[0] && name_k[0] == base[0]);
    native::lemma_path_begins_as_text(name_j);
    native::lemma_path_begins_as_text(name_k);
    native::law_text_is_shown_as_it_is(name_j);
    native::law_text_is_shown_as_it_is(name_k);
    let a = native::path_of(name_j);
    let b = native::path_of(name_k);
    let pa = paths::unix_joined(dir, a);
    let pb = paths::unix_joined(dir, b);
    assert(pa.skip(pa.len() - a.len()) == a);
    assert(pb.skip(pb.len() - b.len()) == b);
}

/// Where the answers say, each time alike, whether a file is there, the attempt
/// that is found is free, all attempts in front of it are taken, and no other
/// attempt could have been found.
pub proof fn law_found_attempt_is_free<F: Fn(&str) -> bool>(
    platform: Platform,
    dir: Seq<char>,
    stem: Seq<char>,
    timestamp: Seq<char>,
    ext: Seq<char>,
    exists_fn: F,
    taken: spec_fn(Seq<char>) -> bool,
    k: nat,
    other: nat,
)
    requires
        forall|p: &str, answer: bool| #[trigger]
            call_ensures(exists_fn, (p,), answer) ==> answer == taken(p@),
        is_first_free(platform, dir, stem, timestamp, ext, exists_fn, k),
    ensures
        !taken(output_path(platform, dir, stem, timestamp, ext, k)),
        forall|j: nat| j < k ==> taken(#[trigger] output_path(platform, dir, stem, timestamp, ext, j)),
        is_first_free(platform, dir, stem, timestamp, ext, exists_fn, other) ==> other == k,
{
    assert forall|j: nat| j < k implies taken(
        #[trigger] output_path(platform, dir, stem, timestamp, ext, j),
    ) by {}
    if is_first_free(platform, dir, stem, timestamp, ext, exists_fn, other) {
        if other < k {
            assert(taken(output_path(platform, dir, stem, timestamp, ext, other)));
        } else if k < other {
            assert(answers(
                exists_fn,
                output_path(platform, dir, stem, timestamp, ext, k),
                true,
            ));
        }
    }
}

/// Whether `mark` is what tells an attempt from the first one: nothing, or a number from
/// 2 on in brackets behind a space.
pub open spec fn is_number_mark(mark: Seq<char>) -> bool {
    ||| mark.len() == 0
    ||| exists|n: nat| n >= 2 && mark == " ("@ + #[trigger] text::decimal(n) + ")"@
}

/// The first attempt is named after stem and time; the second has the number 2 behind
/// them, and each further one the next number.
pub proof fn law_attempts_are_numbered(
    stem: Seq<char>,
    timestamp: Seq<char>,
    ext: Seq<char>,
    n: nat,
)
    requires
        n >= 2,
    ensures
        output_name(stem, timestamp, ext, 0) == stem + "_"@ + timestamp + "."@ + ext,
        output_name(stem, timestamp, ext, (n - 1) as nat) == stem + "_"@ + timestamp + " ("@
            + text::decimal(n) + ")."@ + ext,
{
}

/// The path of an attempt is its name, joined to the folder.
pub proof fn law_attempt_lies_in_the_folder(
    platform: Platform,
    dir: Seq<char>,
    stem: Seq<char>,
    timestamp: Seq<char>,
    ext: Seq<char>,
    k: nat,
) -> (mark: Seq<char>)
    ensures
        is_number_mark(mark),
        k == 0 <==> mark.len() == 0,
        output_path(platform, dir, stem, timestamp, ext, k) == paths::joined_path(
            platform,
            dir,
            native::path_of(stem + "_"@ + timestamp + mark + "."@ + ext),
        ),
{
    reveal_strlit(" (");
    reveal_strlit(").");
    reveal_strlit(")");
    reveal_strlit(".");
    let base = stem + "_"@ + timestamp;
    if k == 0 {
        assert(base + Seq::<char>::empty() == base);
        Seq::empty()
    } else {
        let mark = " ("@ + text::decimal(k + 1) + ")"@;
        assert(base + mark + "."@ + ext == base + " ("@ + text::decimal(k + 1) + ")."@ + ext);
        mark
    }
}

/// What is chosen is a path that was called free. It lies in the folder, and its name is
/// made of stem, time, perhaps a number, and extension.
pub proof fn law_choice_is_free_and_named<F: Fn(&str) -> bool>(
    platform: Platform,
    dir: Seq<char>,
    stem: Seq<char>,
    timestamp: Seq<char>,
    ext: Seq<char>,
    exists_fn: F,
    path: Seq<char>,
) -> (mark: Seq<char>)
    requires
        is_free_choice(platform, dir, stem, timestamp, ext, exists_fn, Some(path)),
    ensures
        exists|p: &str| p@ == path && #[trigger] call_ensures(exists_fn, (p,), false),
        is_number_mark(mark),
        path == paths::joined_path(
            platform,
            dir,
            native::path_of(stem + "_"@ + timestamp + mark + "."@ + ext),
        ),
{
    let k = choose|k: nat|
        {
            &&& path == #[trigger] output_path(platform, dir, stem, timestamp, ext, k)
            &&& is_first_free(platform, dir, stem, timestamp, ext, exists_fn, k)
        };
    law_attempt_lies_in_the_folder(platform, dir, stem, timestamp, ext, k)
}

/// A path that is chosen by what is on disk is one at which no file was found, by the
/// disk if it is text and otherwise by `ask`. It lies in the folder, and its name is made
/// of stem, time, perhaps a number, and extension.
pub proof fn law_disk_choice_is_free_and_named<F: Fn(&str) -> bool>(
    platform: Platform,
    dir: Seq<char>,
    stem: Seq<char>,
    timestamp: Seq<char>,
    ext: Seq<char>,
    ask: &F,
    path: Seq<char>,
) -> (mark: Seq<char>)
    requires
        is_disk_choice(platform, dir, stem, timestamp, ext, ask, Some(path)),
    ensures
        native::is_text(path) ==> disk_answers(native::shown(path), false),
        !native::is_text(path) ==> exists|p: &str|
            p@ == path && #[trigger] call_ensures(*ask, (p,), false),
        is_number_mark(mark),
        path == paths::joined_path(
            platform,
            dir,
            native::path_of(stem + "_"@ + timestamp + mark + "."@ + ext),
        ),
{
    let k = choose|k: nat|
        path == #[trigger] output_path(platform, dir, stem, timestamp, ext, k);
    law_attempt_lies_in_the_folder(platform, dir, stem, timestamp, ext, k)
}

/// Where the answers say, each time alike, whether a file is there, the numbers are used
/// in turn: without a file under the plain name it is chosen; a number is chosen only if
/// there are files under the plain name and under every number below; and nothing is
/// chosen only if there is a file under every name.
pub proof fn law_numbers_are_used_in_turn<F: Fn(&str) -> bool>(
    platform: Platform,
    dir: Seq<char>,
    stem: Seq<char>,
    timestamp: Seq<char>,
    ext: Seq<char>,
    exists_fn: F,
    taken: spec_fn(Seq<char>) -> bool,
    r: Option<Seq<char>>,
    n: nat,
)
    requires
        forall|p: &str, answer: bool| #[trigger]
            call_ensures(exists_fn, (p,), answer) ==> answer == taken(p@),
        is_free_choice(platform, dir, stem, timestamp, ext, exists_fn, r),
        2 <= n <= 2147483646,
    ensures
        ({
            let plain = paths::joined_path(
                platform,
                dir,
                native::path_of(stem + "_"@ + timestamp + "."@ + ext),
            );
            let numbered = |m: nat|
                paths::joined_path(
                    platform,
                    dir,
                    native::path_of(stem + "_"@ + timestamp + " ("@ + text::decimal(m) + ")."@ + ext),
                );
            &&& !taken(plain) ==> r == Some(plain)
            &&& r is Some ==> !taken(r->0)
            &&& r is None ==> taken(plain) && taken(numbered(n))
            &&& {
                &&& taken(plain)
                &&& forall|m: nat| 2 <= m < n ==> taken(#[trigger] numbered(m))
                &&& !taken(numbered(n))
            } ==> r == Some(numbered(n))
        }),
{
    let numbered = |m: nat|
        paths::joined_path(
            platform,
            dir,
            native::path_of(stem + "_"@ + timestamp + " ("@ + text::decimal(m) + ")."@ + ext),
        );
    let last = (n - 1) as nat;
    law_attempts_are_numbered(stem, timestamp, ext, n);
    assert(output_path(platform, dir, stem, timestamp, ext, last) == numbered(n));
    match r {
        Some(path) => {
            let k = choose|k: nat|
                {
                    &&& path == #[trigger] output_path(platform, dir, stem, timestamp, ext, k)
                    &&& is_first_free(platform, dir, stem, timestamp, ext, exists_fn, k)
                };
            law_found_attempt_is_free(platform, dir, stem, timestamp, ext, exists_fn, taken, k, k);
            if k > 0 {
                assert(taken(output_path(platform, dir, stem, timestamp, ext, 0)));
                law_attempts_are_numbered(stem, timestamp, ext, k + 1);
                assert((k + 1 - 1) as nat == k);
                assert(path == numbered(k + 1));
                if k < last {
                    assert(2 <= k + 1 < n);
                }
                if last < k {
                    assert(taken(output_path(platform, dir, stem, timestamp, ext, last)));
                }
            }
        },
        None => {
            assert(taken(output_path(platform, dir, stem, timestamp, ext, 0)));
            assert(taken(output_path(platform, dir, stem, timestamp, ext, last)));
        },
    }
}

/// The same of a choice by what is on disk, where the disk says, each time alike, whether
/// there is a file, and `ask` does for paths that are not text.
pub proof fn law_numbers_are_used_in_turn_on_disk<F: Fn(&str) -> bool>(
    platform: Platform,
    dir: Seq<char>,
    stem: Seq<char>,
    timestamp: Seq<char>,
    ext: Seq<char>,
    ask: &F,
    on_disk: spec_fn(Seq<char>) -> bool,
    asked: spec_fn(Seq<char>) -> bool,
    r: Option<Seq<char>>,
    n: nat,
)
    requires
        forall|t: Seq<char>, answer: bool| #[trigger]
            disk_answers(t, answer) ==> answer == on_disk(t),
        forall|p: &str, answer: bool| #[trigger]
            call_ensures(*ask, (p,), answer) ==> answer == asked(p@),
        is_disk_choice(platform, dir, stem, timestamp, ext, ask, r),
        2 <= n <= 2147483646,
    ensures
        ({
            let taken = |path: Seq<char>|
                if native::is_text(path) {
                    on_disk(native::shown(path))
                } else {
                    asked(path)
                };
            let plain = paths::joined_path(
                platform,
                dir,
                native::path_of(stem + "_"@ + timestamp + "."@ + ext),
            );
            let numbered = |m: nat|
                paths::joined_path(
                    platform,
                    dir,
                    native::path_of(stem + "_"@ + timestamp + " ("@ + text::decimal(m) + ")."@ + ext),
                );
            &&& !taken(plain) ==> r == Some(plain)
            &&& r is Some ==> !taken(r->0)
            &&& r is None ==> taken(plain) && taken(numbered(n))
            &&& {
                &&& taken(plain)
                &&& forall|m: nat| 2 <= m < n ==> taken(#[trigger] numbered(m))
                &&& !taken(numbered(n))
            } ==> r == Some(numbered(n))
        }),
{
    let taken = |path: Seq<char>|
        if native::is_text(path) {
            on_disk(native::shown(path))
        } else {
            asked(path)
        };
    let numbered = |m: nat|
        paths::joined_path(
            platform,
            dir,
            native::path_of(stem + "_"@ + timestamp + " ("@ + text::decimal(m) + ")."@ + ext),
        );
    assert forall|p: Seq<char>, answer: bool| #[trigger]
        place_answers(ask, p, answer) implies answer == taken(p) by {}
    let last = (n - 1) as nat;
    law_attempts_are_numbered(stem, timestamp, ext, n);
    assert(output_path(platform, dir, stem, timestamp, ext, last) == numbered(n));
    match r {
        Some(path) => {
            let k = choose|k: nat|
                {
                    &&& k < LAST_NUMBER
                    &&& path == #[trigger] output_path(platform, dir, stem, timestamp, ext, k)
                    &&& forall|j: nat|
                        j < k ==> place_answers(
                            ask,
                            #[trigger] output_path(platform, dir, stem, timestamp, ext, j),
                            true,
                        )
                };
            if k > 0 {
                assert(taken(output_path(platform, dir, stem, timestamp, ext, 0)));
                law_attempts_are_numbered(stem, timestamp, ext, k + 1);
                assert((k + 1 - 1) as nat == k);
                assert(path == numbered(k + 1));
                if k < last {
                    assert(2 <= k + 1 < n);
                }
                if last < k {
                    assert(taken(output_path(platform, dir, stem, timestamp, ext, last)));
                }
            }
        },
        None => {
            assert(taken(output_path(platform, dir, stem, timestamp, ext, 0)));
            assert(taken(output_path(platform, dir, stem, timestamp, ext, last)));
        },
    }
}

} // verus!
