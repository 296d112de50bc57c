//! Where the window looks for a font with Japanese characters.

use vstd::prelude::*;
use vstd::string::*;

verus! {

/// The files of the fonts, the preferred one first.
pub open spec fn font_files() -> Seq<Seq<char>> {
    seq![
        "C:\\Windows\\Fonts\\meiryo.ttc"@,
        "C:\\Windows\\Fonts\\YuGothR.ttc"@,
        "C:\\Windows\\Fonts\\YuGothM.ttc"@,
        "C:\\Windows\\Fonts\\yugothic.ttc"@,
        "C:\\Windows\\Fonts\\msgothic.ttc"@,
        "C:\\Windows\\Fonts\\msmincho.ttc"@,
    ]
}

/// The files of the fonts, the preferred one first. The first that can be read
/// is used.
pub fn font_candidates() -> (r: Vec<&'static str>)
    ensures
        r@.map_values(|file: &'static str| file@) == font_files(),
{
    let files = vec![
        "C:\\Windows\\Fonts\\meiryo.ttc",
        "C:\\Windows\\Fonts\\YuGothR.ttc",
        "C:\\Windows\\Fonts\\YuGothM.ttc",
        "C:\\Windows\\Fonts\\yugothic.ttc",
        "C:\\Windows\\Fonts\\msgothic.ttc",
        "C:\\Windows\\Fonts\\msmincho.ttc",
    ];
    assert(files@.map_values(|file: &'static str| file@) == font_files());
    files
}

/// Whether `read` can give `answer` when it is asked for the file at `path`.
pub open spec fn read_gives<F: Fn(&str) -> Option<Vec<u8>>>(
    read: F,
    path: Seq<char>,
    answer: Option<Vec<u8>>,
) -> bool {
    exists|p: &str| p@ == path && #[trigger] call_ensures(read, (p,), answer)
}

/// The contents of the first of the fonts that `read` can read.
pub fn first_readable_font<F: Fn(&str) -> Option<Vec<u8>>>(read: F) -> (r: Option<Vec<u8>>)
    requires
        forall|p: &str| call_requires(read, (p,)),
    ensures
        match r {
            Some(data) => exists|i: int|
                {
                    &&& 0 <= i < font_files().len()
                    &&& read_gives(read, #[trigger] font_files()[i], Some(data))
                    &&& forall|j: int|
                        0 <= j < i ==> read_gives(read, #[trigger] font_files()[j], None)
                },
            None => forall|j: int|
                0 <= j < font_files().len() ==> read_gives(read, #[trigger] font_files()[j], None),
        },
{
    let files = font_candidates();
    let ghost all = files@.map_values(|file: &'static str| file@);
    for i in 0..files.len()
        invariant
            all == files@.map_values(|file: &'static str| file@),
            all == font_files(),
            forall|p: &str| call_requires(read, (p,)),
            forall|j: int| 0 <= j < i ==> read_gives(read, #[trigger] font_files()[j], None),
    {
        let file = files[i];
        let answer = read(file);
        assert(font_files()[i as int] == file@);
        assert(read_gives(read, font_files()[i as int], answer));
        if answer.is_some() {
            return answer;
        }
    }
    None
}

/// The fonts stand in this order: Meiryo, Yu Gothic in three files, MS Gothic, MS Mincho.
pub proof fn law_fonts_in_their_order()
    ensures
        font_files().len() == 6,
        font_files()[0] == "C:\\Windows\\Fonts\\meiryo.ttc"@,
        font_files()[1] == "C:\\Windows\\Fonts\\YuGothR.ttc"@,
        font_files()[2] == "C:\\Windows\\Fonts\\YuGothM.ttc"@,
        font_files()[3] == "C:\\Windows\\Fonts\\yugothic.ttc"@,
        font_files()[4] == "C:\\Windows\\Fonts\\msgothic.ttc"@,
        font_files()[5] == "C:\\Windows\\Fonts\\msmincho.ttc"@,
{
}

} // verus!
