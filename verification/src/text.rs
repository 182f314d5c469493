//! Text as sequences of characters: the pieces that line parsing and
//! tokenizing are built from.

use vstd::prelude::*;

verus! {

/// What `str::to_lowercase` makes of a text. The mapping is Unicode's and is
/// not spelled out here; all that is used is that it is a function of the
/// text alone.
pub uninterp spec fn lowercased(text: Seq<char>) -> Seq<char>;

/// Whether Unicode counts `c` as white space (`White_Space`).
pub open spec fn is_white_space(c: char) -> bool {
    let code = c as u32;
    ||| 0x09 <= code <= 0x0D
    ||| code == 0x20
    ||| code == 0x85
    ||| code == 0xA0
    ||| code == 0x1680
    ||| 0x2000 <= code <= 0x200A
    ||| code == 0x2028
    ||| code == 0x2029
    ||| code == 0x202F
    ||| code == 0x205F
    ||| code == 0x3000
}

/// The pieces of `s` between separators. A text with `n` separators has
/// `n + 1` pieces; a piece is empty where two separators touch and where one
/// begins or ends the text.
pub open spec fn split_when(s: Seq<char>, separates: spec_fn(char) -> bool) -> Seq<Seq<char>>
    decreases s.len(),
{
    if s.len() == 0 {
        seq![Seq::<char>::empty()]
    } else {
        let before = split_when(s.drop_last(), separates);
        if separates(s.last()) {
            before.push(Seq::<char>::empty())
        } else {
            before.drop_last().push(before.last().push(s.last()))
        }
    }
}

/// The pieces of `s` between single spaces.
pub open spec fn space_separated(s: Seq<char>) -> Seq<Seq<char>> {
    split_when(s, |c: char| c == ' ')
}

/// The words of `s`: its maximal runs of characters that are not white space.
pub open spec fn words_of(s: Seq<char>) -> Seq<Seq<char>> {
    split_when(s, |c: char| is_white_space(c)).filter(|piece: Seq<char>| piece.len() > 0)
}

/// The texts that a list of strings holds.
pub open spec fn texts(strings: Seq<String>) -> Seq<Seq<char>> {
    Seq::new(strings.len(), |i: int| strings[i]@)
}

/// The texts that a list of character vectors holds.
pub open spec fn char_texts(pieces: Seq<Vec<char>>) -> Seq<Seq<char>> {
    Seq::new(pieces.len(), |i: int| pieces[i]@)
}

/// `String::from_iter` over the characters of `chars`: a string that holds
/// exactly those characters, in order.
#[verifier::external_body]
pub(crate) fn string_of(chars: &Vec<char>) -> (s: String)
    ensures
        s@ == chars@,
{
    String::from_iter(chars.iter())
}

/// `str::to_lowercase`: the lowercase form of `s`, which depends on the
/// characters of `s` and on nothing else.
#[verifier::external_body]
pub(crate) fn lowercase(s: &str) -> (lower: String)
    ensures
        lower@ == lowercased(s@),
{
    s.to_lowercase()
}

/// The characters of `s`, in order.
pub fn chars_of(s: &str) -> (chars: Vec<char>)
    ensures
        chars@ == s@,
{
    let mut chars: Vec<char> = Vec::new();
    for c in it: s.chars()
        invariant
            chars@ == it.seq().take(it.index() as int),
            it.seq() == s@,
    {
        chars.push(c);
    }
    chars
}

/// Whether `c` is white space.
pub fn white_space(c: char) -> (white: bool)
    ensures
        white == is_white_space(c),
{
    let code: u32 = c as u32;
    (0x09 <= code && code <= 0x0D) || code == 0x20 || code == 0x85 || code == 0xA0 || code
        == 0x1680 || (0x2000 <= code && code <= 0x200A) || code == 0x2028 || code == 0x2029 || code
        == 0x202F || code == 0x205F || code == 0x3000
}

/// The separator test that the two ways of splitting share.
pub open spec fn separator(any_white_space: bool) -> spec_fn(char) -> bool {
    if any_white_space {
        |c: char| is_white_space(c)
    } else {
        |c: char| c == ' '
    }
}

/// Splits `chars` at every single space, or at every white-space character.
fn split_chars(chars: &Vec<char>, any_white_space: bool) -> (pieces: Vec<Vec<char>>)
    ensures
        char_texts(pieces@) == split_when(chars@, separator(any_white_space)),
{
    let ghost separates = separator(any_white_space);
    let mut done: Vec<Vec<char>> = Vec::new();
    let mut current: Vec<char> = Vec::new();
    let mut i: usize = 0;
    while i < chars.len()
        invariant
            i <= chars.len(),
            separates == separator(any_white_space),
            char_texts(done@).push(current@) == split_when(chars@.take(i as int), separates),
        decreases chars.len() - i,
    {
        let c = chars[i];
        let cut = if any_white_space {
            white_space(c)
        } else {
            c == ' '
        };
        proof {
            let prefix = chars@.take(i + 1);
            assert(prefix.drop_last() == chars@.take(i as int));
            assert(prefix.last() == c);
            assert(cut == separates(c));
            assert(char_texts(done@).push(current@).drop_last() == char_texts(done@));
        }
        if cut {
            let ghost before = char_texts(done@).push(current@);
            done.push(current);
            current = Vec::new();
            proof {
                assert(char_texts(done@) == before);
            }
        } else {
            let ghost before = char_texts(done@).push(current@);
            current.push(c);
            proof {
                assert(char_texts(done@).push(current@) == before.drop_last().push(
                    before.last().push(c),
                ));
            }
        }
        i += 1;
    }
    proof {
        assert(chars@.take(i as int) == chars@);
    }
    let ghost before = char_texts(done@).push(current@);
    done.push(current);
    proof {
        assert(char_texts(done@) == before);
    }
    done
}

/// The pieces of `line` between single spaces, as strings.
pub fn split_spaces(line: &str) -> (pieces: Vec<String>)
    ensures
        texts(pieces@) == space_separated(line@),
{
    let chars = chars_of(line);
    let split = split_chars(&chars, false);
    let mut pieces: Vec<String> = Vec::new();
    let mut i: usize = 0;
    while i < split.len()
        invariant
            i <= split.len(),
            texts(pieces@) == char_texts(split@).take(i as int),
        decreases split.len() - i,
    {
        let ghost before = texts(pieces@);
        let piece = string_of(&split[i]);
        pieces.push(piece);
        proof {
            assert(texts(pieces@) == before.push(split@[i as int]@));
            assert(char_texts(split@).take(i + 1) == char_texts(split@).take(i as int).push(
                split@[i as int]@,
            ));
        }
        i += 1;
    }
    proof {
        assert(char_texts(split@).take(i as int) == char_texts(split@));
    }
    pieces
}

/// The words of `utterance`, as strings.
pub fn words(utterance: &str) -> (found: Vec<String>)
    ensures
        texts(found@) == words_of(utterance@),
{
    let chars = chars_of(utterance);
    let split = split_chars(&chars, true);
    let ghost filled = |piece: Seq<char>| piece.len() > 0;
    let mut found: Vec<String> = Vec::new();
    let mut i: usize = 0;
    while i < split.len()
        invariant
            i <= split.len(),
            filled == (|piece: Seq<char>| piece.len() > 0),
            texts(found@) == char_texts(split@).take(i as int).filter(filled),
        decreases split.len() - i,
    {
        proof {
            let upto = char_texts(split@).take(i + 1);
            assert(upto.drop_last() == char_texts(split@).take(i as int));
            assert(upto.last() == split@[i as int]@);
            reveal(Seq::filter);
        }
        if split[i].len() > 0 {
            let ghost kept = texts(found@);
            let piece = string_of(&split[i]);
            found.push(piece);
            proof {
                assert(texts(found@) == kept.push(split@[i as int]@));
            }
        }
        i += 1;
    }
    proof {
        assert(char_texts(split@).take(i as int) == char_texts(split@));
    }
    found
}

/// The pieces put together again, with `between` between each two.
pub open spec fn joined(pieces: Seq<Seq<char>>, between: char) -> Seq<char>
    decreases pieces.len(),
{
    if pieces.len() == 0 {
        Seq::<char>::empty()
    } else if pieces.len() == 1 {
        pieces[0]
    } else {
        joined(pieces.drop_last(), between).push(between) + pieces.last()
    }
}

/// Splitting always yields at least one piece.
pub proof fn lemma_split_when_len(s: Seq<char>, separates: spec_fn(char) -> bool)
    ensures
        split_when(s, separates).len() >= 1,
    decreases s.len(),
{
    if s.len() > 0 {
        lemma_split_when_len(s.drop_last(), separates);
    }
}

/// No piece holds a separator.
pub proof fn lemma_pieces_hold_no_separator(s: Seq<char>, separates: spec_fn(char) -> bool)
    ensures
        forall|i: int, j: int|
            0 <= i < split_when(s, separates).len() && 0 <= j < split_when(s, separates)[i].len()
                ==> !separates(#[trigger] split_when(s, separates)[i][j]),
    decreases s.len(),
{
    if s.len() > 0 {
        lemma_pieces_hold_no_separator(s.drop_last(), separates);
        lemma_split_when_len(s.drop_last(), separates);
        let before = split_when(s.drop_last(), separates);
        let pieces = split_when(s, separates);
        assert forall|i: int, j: int|
            0 <= i < pieces.len() && 0 <= j < pieces[i].len() implies !separates(
            #[trigger] pieces[i][j],
        ) by {
            if separates(s.last()) {
                assert(pieces[i] == before[i]);
            } else if i < before.len() - 1 {
                assert(pieces[i] == before[i]);
            } else if j < before.last().len() {
                assert(pieces[i][j] == before[i][j]);
            }
        }
    }
}

/// Splitting at spaces loses nothing: the pieces, put together with a space
/// between each two, are the line.
pub proof fn lemma_space_separated_joins_back(s: Seq<char>)
    ensures
        joined(space_separated(s), ' ') == s,
    decreases s.len(),
{
    let separates = |c: char| c == ' ';
    if s.len() > 0 {
        lemma_space_separated_joins_back(s.drop_last());
        lemma_split_when_len(s.drop_last(), separates);
        let before = split_when(s.drop_last(), separates);
        let pieces = split_when(s, separates);
        assert(s == s.drop_last().push(s.last()));
        if separates(s.last()) {
            assert(pieces.drop_last() == before);
            assert(joined(pieces, ' ') == joined(before, ' ').push(' ') + Seq::<char>::empty());
        } else if before.len() == 1 {
            assert(pieces == seq![before[0].push(s.last())]);
        } else {
            assert(pieces.drop_last() == before.drop_last());
            assert(joined(pieces, ' ') == joined(before.drop_last(), ' ').push(' ')
                + before.last().push(s.last()));
            assert(joined(before, ' ') == joined(before.drop_last(), ' ').push(' ')
                + before.last());
        }
    } else {
        assert(space_separated(s) == seq![Seq::<char>::empty()]);
    }
}

/// A word has at least one character, and none that is white space.
pub proof fn lemma_words_are_filled_and_clean(s: Seq<char>)
    ensures
        forall|i: int| 0 <= i < words_of(s).len() ==> (#[trigger] words_of(s)[i]).len() > 0,
        forall|i: int, j: int|
            0 <= i < words_of(s).len() && 0 <= j < words_of(s)[i].len() ==> !is_white_space(
                #[trigger] words_of(s)[i][j],
            ),
{
    let separates = |c: char| is_white_space(c);
    let filled = |piece: Seq<char>| piece.len() > 0;
    let pieces = split_when(s, separates);
    lemma_pieces_hold_no_separator(s, separates);
    assert forall|i: int| 0 <= i < words_of(s).len() implies (#[trigger] words_of(s)[i]).len() > 0
        && forall|j: int|
        0 <= j < words_of(s)[i].len() ==> !is_white_space(#[trigger] words_of(s)[i][j]) by {
        let word = pieces.filter(filled)[i];
        pieces.lemma_filter_contains_rev(filled, word);
        let at = choose|at: int| 0 <= at < pieces.len() && pieces[at] == word;
        assert forall|j: int| 0 <= j < word.len() implies !is_white_space(#[trigger] word[j]) by {
            assert(!separates(pieces[at][j]));
        }
    }
}

} // verus!
