//! Text as sequences of characters: fields separated by whitespace.

use vstd::prelude::*;

verus! {

/// Whether `c` is ASCII whitespace: a space, a tab, a line feed, a form feed
/// or a carriage return.
pub open spec fn is_space(c: char) -> bool {
    c == ' ' || c == '\t' || c == '\n' || c == '\x0C' || c == '\r'
}

/// Whether `word` can be a field: it is not empty and holds no whitespace.
pub open spec fn is_word(word: Seq<char>) -> bool {
    word.len() > 0 && forall|i: int| 0 <= i < word.len() ==> !is_space(#[trigger] word[i])
}

/// The length of the longest prefix of `text` that holds no whitespace.
pub open spec fn word_len(text: Seq<char>) -> nat
    decreases text.len(),
{
    if text.len() == 0 || is_space(text[0]) {
        0
    } else {
        1 + word_len(text.skip(1))
    }
}

/// The fields of `text`: its longest runs of characters that are not
/// whitespace, from left to right.
pub open spec fn fields(text: Seq<char>) -> Seq<Seq<char>>
    decreases text.len(),
{
    if text.len() == 0 {
        Seq::empty()
    } else if is_space(text[0]) {
        fields(text.skip(1))
    } else {
        proof {
            lemma_word_len_bounded(text);
        }
        seq![text.take(word_len(text) as int)] + fields(text.skip(word_len(text) as int))
    }
}

/// The views of the vectors in `parts`.
pub open spec fn views(parts: Seq<Vec<char>>) -> Seq<Seq<char>> {
    parts.map_values(|part: Vec<char>| part@)
}

/// The prefix without whitespace is no longer than the text.
pub proof fn lemma_word_len_bounded(text: Seq<char>)
    ensures
        word_len(text) <= text.len(),
    decreases text.len(),
{
    if text.len() > 0 && !is_space(text[0]) {
        lemma_word_len_bounded(text.skip(1));
    }
}

/// A run of `len` characters without whitespace that ends the text, or that
/// whitespace follows, is the longest such prefix.
pub proof fn lemma_word_len_is(text: Seq<char>, len: int)
    requires
        0 <= len <= text.len(),
        forall|i: int| 0 <= i < len ==> !is_space(#[trigger] text[i]),
        len == text.len() || is_space(text[len]),
    ensures
        word_len(text) == len,
    decreases len,
{
    if len > 0 {
        let rest = text.skip(1);
        assert forall|i: int| 0 <= i < len - 1 implies !is_space(#[trigger] rest[i]) by {
            assert(rest[i] == text[i + 1]);
        }
        lemma_word_len_is(rest, len - 1);
    }
}

/// The prefix that `word_len` measures holds no whitespace.
proof fn lemma_word_has_no_space(text: Seq<char>)
    ensures
        forall|i: int| 0 <= i < word_len(text) ==> !is_space(#[trigger] text[i]),
    decreases text.len(),
{
    if text.len() > 0 && !is_space(text[0]) {
        let rest = text.skip(1);
        lemma_word_has_no_space(rest);
        lemma_word_len_bounded(rest);
        assert forall|i: int| 0 <= i < word_len(text) implies !is_space(#[trigger] text[i]) by {
            if i > 0 {
                assert(text[i] == rest[i - 1]);
            }
        }
    }
}

/// Every field is a word: it is not empty and holds no whitespace.
pub proof fn lemma_fields_are_words(text: Seq<char>)
    ensures
        forall|k: int| 0 <= k < fields(text).len() ==> is_word(#[trigger] fields(text)[k]),
    decreases text.len(),
{
    if text.len() == 0 {
    } else if is_space(text[0]) {
        lemma_fields_are_words(text.skip(1));
        assert(fields(text) == fields(text.skip(1)));
    } else {
        let len = word_len(text) as int;
        lemma_word_len_bounded(text);
        lemma_word_has_no_space(text);
        lemma_fields_are_words(text.skip(len));
        let word = text.take(len);
        assert(is_word(word)) by {
            assert forall|i: int| 0 <= i < word.len() implies !is_space(#[trigger] word[i]) by {
                assert(word[i] == text[i]);
            }
        }
        assert forall|k: int| 0 <= k < fields(text).len() implies is_word(
            #[trigger] fields(text)[k],
        ) by {
            if k == 0 {
                assert(fields(text)[k] == word);
            } else {
                assert(fields(text)[k] == fields(text.skip(len))[k - 1]);
            }
        }
    }
}

/// A word with whitespace or nothing behind it is the first field of the
/// text, and the other fields are those of what follows.
pub proof fn lemma_fields_after_word(word: Seq<char>, rest: Seq<char>)
    requires
        is_word(word),
        rest.len() == 0 || is_space(rest[0]),
    ensures
        fields(word + rest) == seq![word] + fields(rest),
{
    let text = word + rest;
    lemma_word_len_is(text, word.len() as int);
    assert(text.take(word.len() as int) == word);
    assert(text.skip(word.len() as int) == rest);
}

/// Whitespace in front of a text adds no field.
pub proof fn lemma_fields_after_space(space: char, rest: Seq<char>)
    requires
        is_space(space),
    ensures
        fields(seq![space] + rest) == fields(rest),
{
    assert((seq![space] + rest).skip(1) == rest);
}

/// Whether `c` is ASCII whitespace.
pub fn is_ascii_space(c: char) -> (space: bool)
    ensures
        space == is_space(c),
{
    c == ' ' || c == '\t' || c == '\n' || c == '\x0C' || c == '\r'
}

/// The characters of `text`, in order.
pub fn chars_of(text: &str) -> (chars: Vec<char>)
    ensures
        chars@ == text@,
{
    let mut chars: Vec<char> = Vec::new();
    for c in it: text.chars()
        invariant
            chars@ == text@.take(it.index() as int),
            it.seq() == text@,
    {
        chars.push(c);
    }
    chars
}

/// Whether `left` and `right` hold the same characters.
pub fn same_chars(left: &Vec<char>, right: &Vec<char>) -> (same: bool)
    ensures
        same == (left@ == right@),
{
    if left.len() != right.len() {
        return false;
    }
    let mut i: usize = 0;
    while i < left.len()
        invariant
            i <= left.len(),
            left.len() == right.len(),
            forall|k: int| 0 <= k < i ==> left@[k] == right@[k],
        decreases left.len() - i,
    {
        if left[i] != right[i] {
            return false;
        }
        i += 1;
    }
    assert(left@ =~= right@);
    true
}

/// Whether `text` begins with `prefix`.
pub fn has_prefix(text: &Vec<char>, prefix: &Vec<char>) -> (found: bool)
    ensures
        found == prefix@.is_prefix_of(text@),
{
    if prefix.len() > text.len() {
        return false;
    }
    let mut i: usize = 0;
    while i < prefix.len()
        invariant
            i <= prefix.len() <= text.len(),
            forall|k: int| 0 <= k < i ==> prefix@[k] == text@[k],
        decreases prefix.len() - i,
    {
        if prefix[i] != text[i] {
            assert(text@.subrange(0, prefix@.len() as int)[i as int] != prefix@[i as int]);
            return false;
        }
        i += 1;
    }
    assert(prefix@ =~= text@.subrange(0, prefix@.len() as int));
    true
}

/// Splits `line` into its fields.
pub fn split_fields(line: &Vec<char>) -> (parts: Vec<Vec<char>>)
    ensures
        views(parts@) == fields(line@),
{
    let mut parts: Vec<Vec<char>> = Vec::new();
    let mut i: usize = 0;
    assert(line@.skip(0) == line@);
    while i < line.len()
        invariant
            i <= line.len(),
            fields(line@) == views(parts@) + fields(line@.skip(i as int)),
        decreases line.len() - i,
    {
        let ghost rest = line@.skip(i as int);
        if is_ascii_space(line[i]) {
            assert(rest.skip(1) == line@.skip(i + 1));
            i += 1;
        } else {
            let start: usize = i;
            let mut word: Vec<char> = Vec::new();
            while i < line.len() && !is_ascii_space(line[i])
                invariant
                    start <= i <= line.len(),
                    word@ == line@.subrange(start as int, i as int),
                    forall|k: int| start <= k < i ==> !is_space(#[trigger] line@[k]),
                decreases line.len() - i,
            {
                word.push(line[i]);
                i += 1;
            }
            proof {
                lemma_word_len_is(rest, i - start);
                assert(rest.take(i - start) == word@);
                assert(rest.skip(i - start) == line@.skip(i as int));
                assert(views(parts@.push(word)) == views(parts@) + seq![word@]);
            }
            parts.push(word);
        }
    }
    parts
}

} // verus!
