//! The path of the audio file, as it is asked of the user: a line of text,
//! stripped of the white space around it, that has to name a file.

use vstd::prelude::*;
use vstd::string::*;
use crate::error::PlayerError;

verus! {

/// Whether a character is white space: a character with the Unicode
/// property `White_Space`.
pub open spec fn is_white_space(c: char) -> bool {
    let code = c as u32;
    (0x09 <= code <= 0x0D) || code == 0x20 || code == 0x85 || code == 0xA0 || code == 0x1680 || (
    0x2000 <= code <= 0x200A) || code == 0x2028 || code == 0x2029 || code == 0x202F || code
        == 0x205F || code == 0x3000
}

/// Tells white space from other characters.
pub fn white_space(c: char) -> (b: bool)
    ensures
        b == is_white_space(c),
{
    let code: u32 = c as u32;
    (0x09 <= code && code <= 0x0D) || code == 0x20 || code == 0x85 || code == 0xA0 || code
        == 0x1680 || (0x2000 <= code && code <= 0x200A) || code == 0x2028 || code == 0x2029
        || code == 0x202F || code == 0x205F || code == 0x3000
}

/// The number of white-space characters that a text begins with.
pub open spec fn leading_white(text: Seq<char>) -> nat
    decreases text.len(),
{
    if text.len() > 0 && is_white_space(text[0]) {
        1 + leading_white(text.drop_first())
    } else {
        0
    }
}

/// The number of white-space characters that a text ends with.
pub open spec fn trailing_white(text: Seq<char>) -> nat
    decreases text.len(),
{
    if text.len() > 0 && is_white_space(text.last()) {
        1 + trailing_white(text.drop_last())
    } else {
        0
    }
}

/// A text without the white space that it begins and ends with. A text of
/// white space alone becomes the empty text.
pub open spec fn trimmed(text: Seq<char>) -> Seq<char> {
    let start = leading_white(text);
    if start == text.len() {
        Seq::<char>::empty()
    } else {
        text.subrange(start as int, text.len() - trailing_white(text))
    }
}

/// The leading white space ends at the first character that is none.
pub proof fn lemma_leading_white(text: Seq<char>, k: int)
    requires
        0 <= k <= text.len(),
        forall|j: int| 0 <= j < k ==> is_white_space(#[trigger] text[j]),
        k == text.len() || !is_white_space(text[k]),
    ensures
        leading_white(text) == k,
    decreases k,
{
    if k > 0 {
        let rest = text.drop_first();
        assert(is_white_space(text[0]));
        assert forall|j: int| 0 <= j < k - 1 implies is_white_space(#[trigger] rest[j]) by {
            assert(rest[j] == text[j + 1]);
        }
        lemma_leading_white(rest, k - 1);
    }
}

/// The trailing white space begins after the last character that is none.
pub proof fn lemma_trailing_white(text: Seq<char>, k: int)
    requires
        0 <= k <= text.len(),
        forall|j: int| text.len() - k <= j < text.len() ==> is_white_space(#[trigger] text[j]),
        k == text.len() || !is_white_space(text[text.len() - k - 1]),
    ensures
        trailing_white(text) == k,
    decreases k,
{
    if k > 0 {
        let rest = text.drop_last();
        assert(is_white_space(text[text.len() - 1]));
        assert forall|j: int| rest.len() - (k - 1) <= j < rest.len() implies is_white_space(
            #[trigger] rest[j],
        ) by {
            assert(rest[j] == text[j]);
        }
        lemma_trailing_white(rest, k - 1);
    }
}

/// The path that a line of input names: the line without the white space
/// around it, the end of the line included.
pub fn requested_path(line: &str) -> (path: String)
    ensures
        path@ == trimmed(line@),
{
    let n: usize = line.unicode_len();
    let mut start: usize = 0;
    while start < n && white_space(line.get_char(start))
        invariant
            start <= n,
            n == line@.len(),
            forall|j: int| 0 <= j < start ==> is_white_space(#[trigger] line@[j]),
        decreases n - start,
    {
        start = start + 1;
    }
    proof {
        lemma_leading_white(line@, start as int);
    }
    if start == n {
        let empty = line.substring_char(0, 0);
        assert(empty@ =~= Seq::<char>::empty());
        return empty.to_owned();
    }
    let mut end: usize = n;
    while end > start + 1 && white_space(line.get_char(end - 1))
        invariant
            start < end <= n,
            n == line@.len(),
            !is_white_space(line@[start as int]),
            forall|j: int| end <= j < n ==> is_white_space(#[trigger] line@[j]),
        decreases end,
    {
        end = end - 1;
    }
    proof {
        lemma_trailing_white(line@, n - end);
    }
    line.substring_char(start, end).to_owned()
}

/// The choice of the audio file: the requested path where a file exists
/// there, `NotFound` where none does.
pub fn select_audio_file(path: String, exists: bool) -> (r: Result<String, PlayerError>)
    ensures
        exists ==> (r matches Ok(chosen) && chosen@ == path@),
        !exists ==> (r matches Err(e) && e == PlayerError::NotFound),
{
    if exists {
        Ok(path)
    } else {
        Err(PlayerError::NotFound)
    }
}

/// Trimming a trimmed text changes nothing more where the text has no white
/// space at either end.
pub proof fn lemma_trimmed_of_clean(text: Seq<char>)
    requires
        text.len() > 0,
        !is_white_space(text[0]),
        !is_white_space(text.last()),
    ensures
        trimmed(text) == text,
{
    assert(trimmed(text) =~= text);
}

} // verus!
