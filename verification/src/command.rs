//! The words of a command line: the program and its arguments.

use vstd::prelude::*;

verus! {

/// Whether a character is white space.
pub open spec fn is_whitespace(c: char) -> bool {
    let code = c as u32;
    ||| 0x09 <= code <= 0x0D
    ||| code == 0x20
    ||| code == 0x85
    ||| code == 0xA0
    ||| code == 0x1680
    ||| 0x2000 <= code <= 0x200A
    ||| code == 0x2028
    ||| code == 0x2029
    ||| code == 0x202F
    ||| code == 0x205F
    ||| code == 0x3000
}

/// The number of characters before the first white space.
pub open spec fn word_length(s: Seq<char>) -> nat
    decreases s.len(),
{
    if s.len() == 0 || is_whitespace(s[0]) {
        0
    } else {
        1 + word_length(s.skip(1))
    }
}

/// The words of a text: its longest stretches without white space, in order.
pub open spec fn words(s: Seq<char>) -> Seq<Seq<char>>
    decreases s.len(),
    via words_terminates
{
    if s.len() == 0 {
        Seq::empty()
    } else if is_whitespace(s[0]) {
        words(s.skip(1))
    } else {
        seq![s.take(word_length(s) as int)] + words(s.skip(word_length(s) as int))
    }
}

#[via_fn]
proof fn words_terminates(s: Seq<char>) {
    if s.len() > 0 && !is_whitespace(s[0]) {
        lemma_word_length(s);
    }
}

/// The characters counted by `word_length` are in the text, and none of them is
/// white space.
pub proof fn lemma_word_length(s: Seq<char>)
    ensures
        word_length(s) <= s.len(),
        forall|k: int| 0 <= k < word_length(s) ==> !is_whitespace(#[trigger] s[k]),
        word_length(s) < s.len() ==> is_whitespace(s[word_length(s) as int]),
    decreases s.len(),
{
    if s.len() > 0 && !is_whitespace(s[0]) {
        let rest = s.skip(1);
        lemma_word_length(rest);
        assert forall|k: int| 0 <= k < word_length(s) implies !is_whitespace(#[trigger] s[k]) by {
            if k > 0 {
                assert(s[k] == rest[k - 1]);
            }
        }
        if word_length(s) < s.len() {
            assert(s[word_length(s) as int] == rest[word_length(rest) as int]);
        }
    }
}

/// A word: a text that is not empty and holds no white space.
pub open spec fn is_word(word: Seq<char>) -> bool {
    word.len() > 0 && forall|k: int| 0 <= k < word.len() ==> !is_whitespace(#[trigger] word[k])
}

/// Each of the words of a text is a word.
pub proof fn lemma_words_are_words(s: Seq<char>)
    ensures
        forall|i: int| 0 <= i < words(s).len() ==> is_word(#[trigger] words(s)[i]),
    decreases s.len(),
{
    if s.len() == 0 {
        assert(words(s).len() == 0);
    } else if is_whitespace(s[0]) {
        lemma_words_are_words(s.skip(1));
        assert(words(s) == words(s.skip(1)));
    } else {
        lemma_word_length(s);
        let n = word_length(s) as int;
        lemma_words_are_words(s.skip(n));
        let first = s.take(n);
        let rest = words(s.skip(n));
        assert(words(s) == seq![first] + rest);
        assert(is_word(first)) by {
            assert forall|k: int| 0 <= k < first.len() implies !is_whitespace(
                #[trigger] first[k],
            ) by {
                assert(first[k] == s[k]);
            }
        }
        assert forall|i: int| 0 <= i < words(s).len() implies is_word(#[trigger] words(s)[i]) by {
            if i == 0 {
                assert(words(s)[0] == first);
            } else {
                assert(words(s)[i] == rest[i - 1]);
            }
        }
    }
}

/// Whether a character is white space.
pub fn whitespace(c: char) -> (r: bool)
    ensures
        r == is_whitespace(c),
{
    let code: u32 = c as u32;
    (0x09 <= code && code <= 0x0D) || code == 0x20 || code == 0x85 || code == 0xA0 || code
        == 0x1680 || (0x2000 <= code && code <= 0x200A) || code == 0x2028 || code == 0x2029
        || code == 0x202F || code == 0x205F || code == 0x3000
}

/// The texts that the strings hold.
pub open spec fn texts(strings: Seq<String>) -> Seq<Seq<char>> {
    Seq::new(strings.len(), |k: int| strings[k]@)
}

/// Splits a command line into its words: the program first, then its
/// arguments. Any amount of white space parts two words; a line of white space
/// alone has none.
pub fn command_words(command: &str) -> (r: Vec<String>)
    ensures
        texts(r@) == words(command@),
{
    let ghost s = command@;
    let length: usize = command.unicode_len();
    let mut found: Vec<String> = Vec::new();
    let mut index: usize = 0;
    assert(s.skip(0) =~= s);
    assert(texts(found@) + words(s) =~= words(s));
    while index < length
        invariant
            index <= length,
            length == s.len(),
            s == command@,
            words(s) == texts(found@) + words(s.skip(index as int)),
        decreases length - index,
    {
        if whitespace(command.get_char(index)) {
            assert(s.skip(index as int).skip(1) =~= s.skip(index + 1));
            index += 1;
        } else {
            let start: usize = index;
            let mut end: usize = index + 1;
            assert(s.skip(start as int).skip(1) =~= s.skip(start + 1));
            while end < length && !whitespace(command.get_char(end))
                invariant
                    start < end <= length,
                    length == s.len(),
                    s == command@,
                    word_length(s.skip(start as int)) == (end - start) + word_length(
                        s.skip(end as int),
                    ),
                decreases length - end,
            {
                assert(s.skip(end as int).skip(1) =~= s.skip(end + 1));
                end += 1;
            }
            let ghost before = found@;
            found.push(command.substring_char(start, end).to_owned());
            proof {
                let rest = s.skip(start as int);
                let n = word_length(rest) as int;
                assert(n == end - start);
                assert(rest.take(n) =~= s.subrange(start as int, end as int));
                assert(rest.skip(n) =~= s.skip(end as int));
                assert(texts(found@) =~= texts(before) + seq![rest.take(n)]);
            }
            index = end;
        }
    }
    assert(words(s.skip(index as int)) =~= Seq::<Seq<char>>::empty());
    assert(texts(found@) + Seq::<Seq<char>>::empty() =~= texts(found@));
    found
}

} // verus!
