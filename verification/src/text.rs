//! White space, blank text and trimming, and what is assumed of the standard
//! library's character and string functions.

use vstd::prelude::*;

verus! {

/// Whether a character is white space, as `char::is_whitespace` sees it: the
/// characters with the Unicode property `White_Space`.
pub uninterp spec fn is_white_space(c: char) -> bool;

/// `char::is_whitespace` tells whether a character is white space. Its answer
/// depends on the character alone.
pub assume_specification[ char::is_whitespace ](c: char) -> (b: bool)
    ensures
        b == is_white_space(c),
;

/// `String::push` appends one character to the end of the string.
pub assume_specification[ String::push ](s: &mut String, ch: char)
    ensures
        final(s)@ == old(s)@.push(ch),
;

/// A text is blank when it holds nothing but white space.
pub open spec fn is_blank_text(text: Seq<char>) -> bool {
    forall|i: int| 0 <= i < text.len() ==> is_white_space(#[trigger] text[i])
}

/// The text without the white space at its start.
pub open spec fn trim_start(text: Seq<char>) -> Seq<char>
    decreases text.len(),
{
    if text.len() > 0 && is_white_space(text[0]) {
        trim_start(text.drop_first())
    } else {
        text
    }
}

/// The text without the white space at its end.
pub open spec fn trim_end(text: Seq<char>) -> Seq<char>
    decreases text.len(),
{
    if text.len() > 0 && is_white_space(text.last()) {
        trim_end(text.drop_last())
    } else {
        text
    }
}

/// The text without the white space at its start and at its end.
pub open spec fn trimmed(text: Seq<char>) -> Seq<char> {
    trim_end(trim_start(text))
}

/// Trimming at the start cuts in front of the first character that is not
/// white space.
pub proof fn lemma_trim_start_at(text: Seq<char>, start: int)
    requires
        0 <= start <= text.len(),
        forall|i: int| 0 <= i < start ==> is_white_space(#[trigger] text[i]),
        start == text.len() || !is_white_space(text[start]),
    ensures
        trim_start(text) == text.skip(start),
    decreases start,
{
    if start == 0 {
        assert(text.skip(0) =~= text);
    } else {
        let rest = text.drop_first();
        assert forall|i: int| 0 <= i < start - 1 implies is_white_space(#[trigger] rest[i]) by {
            assert(rest[i] == text[i + 1]);
        }
        lemma_trim_start_at(rest, start - 1);
        assert(rest.skip(start - 1) =~= text.skip(start));
    }
}

/// Trimming at the end cuts behind the last character that is not white
/// space.
pub proof fn lemma_trim_end_at(text: Seq<char>, end: int)
    requires
        0 <= end <= text.len(),
        forall|i: int| end <= i < text.len() ==> is_white_space(#[trigger] text[i]),
        end == 0 || !is_white_space(text[end - 1]),
    ensures
        trim_end(text) == text.take(end),
    decreases text.len() - end,
{
    if end == text.len() {
        assert(text.take(end) =~= text);
    } else {
        let rest = text.drop_last();
        assert(is_white_space(text[text.len() - 1]));
        lemma_trim_end_at(rest, end);
        assert(rest.take(end) =~= text.take(end));
    }
}

/// A text is blank exactly when trimming leaves nothing of it.
pub proof fn lemma_blank_trims_to_nothing(text: Seq<char>)
    ensures
        is_blank_text(text) <==> trimmed(text).len() == 0,
{
    let start = first_black(text, 0);
    lemma_first_black(text, 0);
    lemma_trim_start_at(text, start);
    let rest = text.skip(start);
    if start == text.len() {
        assert(trim_end(rest) =~= rest);
    } else {
        assert(!is_white_space(text[start]));
        lemma_trim_end_keeps_black(rest);
    }
}

/// Index of the first character at or behind `from` that is not white space,
/// or the length of the text if there is none.
pub open spec fn first_black(text: Seq<char>, from: int) -> int
    decreases text.len() - from,
{
    if 0 <= from < text.len() && is_white_space(text[from]) {
        first_black(text, from + 1)
    } else {
        from
    }
}

proof fn lemma_first_black(text: Seq<char>, from: int)
    requires
        0 <= from <= text.len(),
    ensures
        from <= first_black(text, from) <= text.len(),
        forall|i: int| from <= i < first_black(text, from) ==> is_white_space(#[trigger] text[i]),
        first_black(text, from) == text.len() || !is_white_space(text[first_black(text, from)]),
    decreases text.len() - from,
{
    if from < text.len() && is_white_space(text[from]) {
        lemma_first_black(text, from + 1);
    }
}

proof fn lemma_trim_end_keeps_black(text: Seq<char>)
    requires
        text.len() > 0,
        !is_white_space(text[0]),
    ensures
        trim_end(text).len() > 0,
    decreases text.len(),
{
    if is_white_space(text.last()) {
        lemma_trim_end_keeps_black(text.drop_last());
    }
}

/// Tells whether `text` holds nothing but white space.
pub fn is_blank(text: &str) -> (b: bool)
    ensures
        b == is_blank_text(text@),
{
    for c in it: text.chars()
        invariant
            it.seq() == text@,
            forall|i: int| 0 <= i < it.index() ==> is_white_space(#[trigger] text@[i]),
    {
        if !c.is_whitespace() {
            assert(!is_white_space(text@[it.index() as int]));
            return false;
        }
    }
    true
}

/// Finds where the trimmed part of `chars` starts and ends.
pub fn trim_bounds(chars: &Vec<char>) -> (bounds: (usize, usize))
    ensures
        bounds.0 <= bounds.1 <= chars.len(),
        trimmed(chars@) == chars@.subrange(bounds.0 as int, bounds.1 as int),
{
    let mut start: usize = 0;
    while start < chars.len() && chars[start].is_whitespace()
        invariant
            start <= chars.len(),
            forall|i: int| 0 <= i < start ==> is_white_space(#[trigger] chars@[i]),
        decreases chars.len() - start,
    {
        start = start + 1;
    }
    let mut end: usize = chars.len();
    while end > start && chars[end - 1].is_whitespace()
        invariant
            start <= end <= chars.len(),
            forall|i: int| end <= i < chars.len() ==> is_white_space(#[trigger] chars@[i]),
        decreases end,
    {
        end = end - 1;
    }
    proof {
        let rest = chars@.skip(start as int);
        lemma_trim_start_at(chars@, start as int);
        assert forall|i: int| end - start <= i < rest.len() implies is_white_space(
            #[trigger] rest[i],
        ) by {
            assert(rest[i] == chars@[i + start]);
        }
        if end > start {
            assert(rest[end - start - 1] == chars@[end - 1]);
        }
        lemma_trim_end_at(rest, end - start);
        assert(rest.take(end - start) =~= chars@.subrange(start as int, end as int));
    }
    (start, end)
}

} // verus!
