//! What becomes of a transcription: trimming, and the command that types it.

use vstd::prelude::*;
use vstd::string::StringExecFns;

verus! {

/// `c` is white space as Unicode defines it (White_Space).
pub open spec fn is_space(c: char) -> bool {
    let code = c as u32;
    ||| 0x09 <= code <= 0x0d
    ||| code == 0x20
    ||| code == 0x85
    ||| code == 0xa0
    ||| code == 0x1680
    ||| 0x2000 <= code <= 0x200a
    ||| code == 0x2028
    ||| code == 0x2029
    ||| code == 0x202f
    ||| code == 0x205f
    ||| code == 0x3000
}

/// Every character of `text` is white space; the empty text is blank.
pub open spec fn is_blank(text: Seq<char>) -> bool {
    forall|i: int| 0 <= i < text.len() ==> is_space(#[trigger] text[i])
}

/// `from..to` is what is left of `text` once the white space at both ends
/// is taken off: only white space lies outside, and a character that is not
/// white space stands at each end inside. A blank text is left with nothing,
/// at its end.
pub open spec fn trims_at(text: Seq<char>, from: int, to: int) -> bool {
    &&& 0 <= from <= to <= text.len()
    &&& forall|i: int| 0 <= i < from ==> is_space(#[trigger] text[i])
    &&& forall|i: int| to <= i < text.len() ==> is_space(#[trigger] text[i])
    &&& from < to ==> !is_space(text[from]) && !is_space(text[to - 1])
    &&& from == to ==> from == text.len()
}

/// `text` without the white space at its ends.
pub open spec fn trimmed(text: Seq<char>) -> Seq<char> {
    let (from, to) = choose|from: int, to: int| trims_at(text, from, to);
    text.subrange(from, to)
}

/// The words of the command that types `text`.
pub open spec fn typing_words(text: Seq<char>) -> Seq<Seq<char>> {
    seq!["ydotool"@, "type"@, "--"@, text]
}

/// Tells whether `c` is white space.
pub fn is_whitespace(c: char) -> (space: bool)
    ensures
        space == is_space(c),
{
    let code = c as u32;
    (0x09 <= code && code <= 0x0d) || code == 0x20 || code == 0x85 || code == 0xa0 || code
        == 0x1680 || (0x2000 <= code && code <= 0x200a) || code == 0x2028 || code == 0x2029
        || code == 0x202f || code == 0x205f || code == 0x3000
}

/// Finds, in one pass, where the trimmed text starts and ends, counted in
/// characters.
pub fn trim_bounds(text: &str) -> (bounds: (usize, usize))
    ensures
        trims_at(text@, bounds.0 as int, bounds.1 as int),
{
    let count = text.unicode_len();
    let mut from: usize = 0;
    let mut to: usize = 0;
    let mut index: usize = 0;
    for c in it: text.chars()
        invariant
            it.seq() == text@,
            count == text@.len(),
            index == it.index(),
            from <= to <= index,
            forall|i: int| 0 <= i < from ==> is_space(#[trigger] text@[i]),
            forall|i: int| to <= i < index ==> is_space(#[trigger] text@[i]),
            from < to ==> !is_space(text@[from as int]) && !is_space(text@[to - 1]),
            from == to ==> from == index,
    {
        if !is_whitespace(c) {
            to = index + 1;
        } else if from == to {
            from = index + 1;
            to = index + 1;
        }
        index += 1;
    }
    (from, to)
}

/// Takes the white space off both ends of `text`.
pub fn trim(text: &str) -> (core: &str)
    ensures
        core@ == trimmed(text@),
{
    let (from, to) = trim_bounds(text);
    proof {
        lemma_trim_unique(text@, from as int, to as int);
    }
    text.substring_char(from, to)
}

/// What of a transcription is worth typing: the trimmed text, or nothing
/// where the transcription is blank.
pub fn injectable_text(raw: &str) -> (text: Option<String>)
    ensures
        match text {
            Some(words) => !is_blank(raw@) && words@ == trimmed(raw@),
            None => is_blank(raw@),
        },
{
    let (from, to) = trim_bounds(raw);
    proof {
        lemma_trim_unique(raw@, from as int, to as int);
    }
    if from == to {
        None
    } else {
        Some(String::from_str(raw.substring_char(from, to)))
    }
}

/// The command that types `text` into the focused window, program first;
/// nothing for a blank text.
pub fn typing_command(text: &str) -> (command: Option<Vec<String>>)
    ensures
        match command {
            Some(words) => !is_blank(text@) && words.deep_view() == typing_words(text@),
            None => is_blank(text@),
        },
{
    let (from, to) = trim_bounds(text);
    proof {
        lemma_trim_unique(text@, from as int, to as int);
    }
    if from == to {
        return None;
    }
    let mut words: Vec<String> = Vec::new();
    words.push(String::from_str("ydotool"));
    words.push(String::from_str("type"));
    words.push(String::from_str("--"));
    words.push(String::from_str(text));
    proof {
        assert(words.deep_view() =~= typing_words(text@));
    }
    Some(words)
}

/// A text has one trimming, and it is empty exactly for a blank text.
pub proof fn lemma_trim_unique(text: Seq<char>, from: int, to: int)
    requires
        trims_at(text, from, to),
    ensures
        forall|a: int, b: int| trims_at(text, a, b) ==> a == from && b == to,
        trimmed(text) == text.subrange(from, to),
        from == to <==> is_blank(text),
{
    assert forall|a: int, b: int| trims_at(text, a, b) implies a == from && b == to by {
        if from < to {
            assert(!is_space(text[from]) && !is_space(text[to - 1]));
            if a < b {
                assert(!is_space(text[a]) && !is_space(text[b - 1]));
            }
        } else if a < b {
            assert(!is_space(text[a]));
        }
    }
    if from < to {
        assert(!is_space(text[from]));
    }
}

} // verus!
