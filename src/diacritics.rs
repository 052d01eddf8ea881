//! Folding of accented Latin letters to their closest ASCII letter.
use vstd::prelude::*;
use crate::chars::{chars_of, string_of};

verus! {

/// The ASCII letter that an accented Latin-1 letter folds to; any other
/// character is its own image.
pub open spec fn fold_spec(c: char) -> char {
    match c {
        'À' | 'Á' | 'Â' | 'Ã' | 'Ä' | 'Å' => 'A',
        'Ç' => 'C',
        'È' | 'É' | 'Ê' | 'Ë' => 'E',
        'Ì' | 'Í' | 'Î' | 'Ï' => 'I',
        'Ñ' => 'N',
        'Ò' | 'Ó' | 'Ô' | 'Õ' | 'Ö' | 'Ø' => 'O',
        'Ù' | 'Ú' | 'Û' | 'Ü' => 'U',
        'Ý' => 'Y',
        'à' | 'á' | 'â' | 'ã' | 'ä' | 'å' => 'a',
        'ç' => 'c',
        'è' | 'é' | 'ê' | 'ë' => 'e',
        'ì' | 'í' | 'î' | 'ï' => 'i',
        'ñ' => 'n',
        'ò' | 'ó' | 'ô' | 'õ' | 'ö' | 'ø' => 'o',
        'ù' | 'ú' | 'û' | 'ü' => 'u',
        'ý' | 'ÿ' => 'y',
        _ => c,
    }
}

/// Folds one character (see `fold_spec`).
pub fn fold_char(c: char) -> (r: char)
    ensures
        r == fold_spec(c),
{
    let u = c as u32;
    if 0xC0 <= u && u <= 0xC5 {
        'A'
    } else if u == 0xC7 {
        'C'
    } else if 0xC8 <= u && u <= 0xCB {
        'E'
    } else if 0xCC <= u && u <= 0xCF {
        'I'
    } else if u == 0xD1 {
        'N'
    } else if (0xD2 <= u && u <= 0xD6) || u == 0xD8 {
        'O'
    } else if 0xD9 <= u && u <= 0xDC {
        'U'
    } else if u == 0xDD {
        'Y'
    } else if 0xE0 <= u && u <= 0xE5 {
        'a'
    } else if u == 0xE7 {
        'c'
    } else if 0xE8 <= u && u <= 0xEB {
        'e'
    } else if 0xEC <= u && u <= 0xEF {
        'i'
    } else if u == 0xF1 {
        'n'
    } else if (0xF2 <= u && u <= 0xF6) || u == 0xF8 {
        'o'
    } else if 0xF9 <= u && u <= 0xFC {
        'u'
    } else if u == 0xFD || u == 0xFF {
        'y'
    } else {
        c
    }
}

/// Replaces each accented Latin letter of `s` by its ASCII letter; every other
/// character is kept. The result has as many characters as `s`.
pub fn replace_extended_ascii(s: String) -> (r: String)
    ensures
        r@.len() == s@.len(),
        forall|i: int| 0 <= i < s@.len() ==> r@[i] == fold_spec(#[trigger] s@[i]),
{
    let cs = chars_of(s.as_str());
    let mut out: Vec<char> = Vec::new();
    let mut i: usize = 0;
    while i < cs.len()
        invariant
            0 <= i <= cs@.len(),
            cs@ == s@,
            out@.len() == i,
            forall|k: int| 0 <= k < i ==> out@[k] == fold_spec(#[trigger] s@[k]),
        decreases cs@.len() - i,
    {
        out.push(fold_char(cs[i]));
        i = i + 1;
    }
    string_of(&out)
}

} // verus!
