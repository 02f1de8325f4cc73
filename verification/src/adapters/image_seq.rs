//! Which files of a directory are read as the frames of an image sequence.
use vstd::prelude::*;

use crate::text::chars_of;

verus! {

/// `c` with ASCII upper case letters mapped to lower case.
pub open spec fn ascii_lower(c: char) -> char {
    if 'A' <= c <= 'Z' {
        ((c as int) + 32) as char
    } else {
        c
    }
}

/// `s` lower-cased letter by letter.
pub open spec fn lowercase(s: Seq<char>) -> Seq<char> {
    s.map_values(|c: char| ascii_lower(c))
}

/// The extensions of the image formats read as frames.
pub open spec fn is_image_extension_spec(ext: Seq<char>) -> bool {
    let e = lowercase(ext);
    ||| e == "png"@
    ||| e == "jpg"@
    ||| e == "jpeg"@
    ||| e == "tiff"@
    ||| e == "tif"@
    ||| e == "bmp"@
    ||| e == "webp"@
}

fn lower_char(c: char) -> (r: char)
    ensures
        r == ascii_lower(c),
{
    if 'A' <= c && c <= 'Z' {
        (((c as u32) + 32) as u8) as char
    } else {
        c
    }
}

/// Whether `chars`, lower-cased, spells `word`.
fn lowercase_equals(chars: &Vec<char>, word: &str) -> (r: bool)
    ensures
        r == (lowercase(chars@) == word@),
{
    let w = chars_of(word);
    if chars.len() != w.len() {
        assert(lowercase(chars@).len() != word@.len());
        return false;
    }
    let mut i: usize = 0;
    while i < chars.len()
        invariant
            chars@.len() == w@.len(),
            w@ == word@,
            i <= chars@.len(),
            forall|k: int| 0 <= k < i ==> lowercase(chars@)[k] == w@[k],
        decreases chars@.len() - i,
    {
        if lower_char(chars[i]) != w[i] {
            assert(lowercase(chars@)[i as int] != word@[i as int]);
            return false;
        }
        i = i + 1;
    }
    assert(lowercase(chars@) =~= word@);
    true
}

/// Whether a file with extension `ext` is an image frame: `png`, `jpg`,
/// `jpeg`, `tiff`, `tif`, `bmp` or `webp`, in any letter case.
pub fn is_image_extension(ext: &str) -> (r: bool)
    ensures
        r == is_image_extension_spec(ext@),
{
    let chars = chars_of(ext);
    lowercase_equals(&chars, "png") || lowercase_equals(&chars, "jpg") || lowercase_equals(
        &chars,
        "jpeg",
    ) || lowercase_equals(&chars, "tiff") || lowercase_equals(&chars, "tif") || lowercase_equals(
        &chars,
        "bmp",
    ) || lowercase_equals(&chars, "webp")
}


/// `s` equals `word` once its ASCII capitals `A`..`Z` are taken as the
/// matching small letters.
pub open spec fn same_ignoring_ascii_case(s: Seq<char>, word: Seq<char>) -> bool {
    &&& s.len() == word.len()
    &&& forall|i: int|
        0 <= i < s.len() ==> (if 'A' <= #[trigger] s[i] <= 'Z' {
            ((s[i] as int) + 32) as char
        } else {
            s[i]
        }) == word[i]
}

/// A file is read as a frame exactly when its extension is one of `png`,
/// `jpg`, `jpeg`, `tiff`, `tif`, `bmp` or `webp`, in any mix of ASCII
/// upper and lower case.
pub proof fn lemma_image_extension_ignores_case(ext: Seq<char>)
    ensures
        is_image_extension_spec(ext) <==> {
            ||| same_ignoring_ascii_case(ext, "png"@)
            ||| same_ignoring_ascii_case(ext, "jpg"@)
            ||| same_ignoring_ascii_case(ext, "jpeg"@)
            ||| same_ignoring_ascii_case(ext, "tiff"@)
            ||| same_ignoring_ascii_case(ext, "tif"@)
            ||| same_ignoring_ascii_case(ext, "bmp"@)
            ||| same_ignoring_ascii_case(ext, "webp"@)
        },
{
    let e = lowercase(ext);
    assert forall|w: Seq<char>| (e == w) <==> same_ignoring_ascii_case(ext, w) by {
        if same_ignoring_ascii_case(ext, w) {
            assert(e =~= w);
        }
        if e == w {
            assert forall|i: int| 0 <= i < ext.len() implies (if 'A' <= #[trigger] ext[i] <= 'Z' {
                ((ext[i] as int) + 32) as char
            } else {
                ext[i]
            }) == w[i] by {
                assert(e[i] == ascii_lower(ext[i]));
            }
        }
    }
}

} // verus!
