//! The embedding table: how its text form is read, what it holds once
//! loaded, and which of its vectors an utterance selects.
//!
//! A vector element is kept as the bit pattern of an IEEE-754 double, so two
//! vectors are the same exactly when their elements agree bit for bit.

use crate::text::{
    chars_of, is_white_space, lemma_split_when_len, lowercase, lowercased, space_separated,
    split_spaces, split_when, texts, words, words_of,
};
use vstd::hash_map::StringHashMap;
use vstd::prelude::*;

verus! {

/// `std::num::ParseFloatError`, carried through untouched.
#[verifier::external_type_specification]
#[verifier::external_body]
pub struct ExParseFloatError(std::num::ParseFloatError);

/// `std::io::Error`, carried through untouched.
#[verifier::external_type_specification]
#[verifier::external_body]
pub struct ExIoError(std::io::Error);

/// Why a token is not a decimal number that fits a `usize`.
#[derive(Clone, Copy, Debug, PartialEq, Eq, Structural)]
pub enum IntErrorKind {
    /// The token has no characters.
    Empty,
    /// The token has a character that is not a digit, or is a lone sign.
    InvalidDigit,
    /// The digits denote a number above `usize::MAX`.
    PosOverflow,
}

/// Why an embedding resource could not be loaded.
#[derive(Debug)]
pub enum VectorLoadError {
    /// The resource has no first line.
    MissingHeader,
    /// The header does not have exactly two elements.
    WrongHeader,
    /// A header element is not a number.
    ParseIntError(IntErrorKind),
    /// A line does not begin with a word.
    MissingWord,
    /// A vector element is not a number.
    ParseFloatError(std::num::ParseFloatError),
    /// A vector has `.1` elements where the header announced `.0`.
    WrongDimensionality(usize, usize),
    /// The resource defines `.1` words where the header announced `.0`.
    MissingVectors(usize, usize),
    /// The resource could not be read.
    IOError(std::io::Error),
}

/// The elements of one embedding, each the bit pattern of a double.
pub type Vector = Vec<u64>;

/// The value of the digit `c`, if it is one.
pub open spec fn digit_of(c: char) -> Option<nat> {
    let code = c as u32;
    if 0x30 <= code <= 0x39 {
        Some((code - 0x30) as nat)
    } else {
        None
    }
}

/// The number that `digits` denote, read from the left: the first character
/// that is no digit, or the first digit at which the number leaves `usize`,
/// decides the error.
pub open spec fn digits_value(digits: Seq<char>) -> Result<nat, IntErrorKind>
    decreases digits.len(),
{
    if digits.len() == 0 {
        Ok(0)
    } else {
        match digits_value(digits.drop_last()) {
            Err(kind) => Err(kind),
            Ok(high) => match digit_of(digits.last()) {
                None => Err(IntErrorKind::InvalidDigit),
                Some(low) => if high * 10 + low > usize::MAX {
                    Err(IntErrorKind::PosOverflow)
                } else {
                    Ok(high * 10 + low)
                },
            },
        }
    }
}

/// The number that `token` denotes: decimal digits, with at most one `+`
/// before them.
pub open spec fn decimal_of(token: Seq<char>) -> Result<usize, IntErrorKind> {
    if token.len() == 0 {
        Err(IntErrorKind::Empty)
    } else {
        let digits = if token[0] == '+' {
            token.drop_first()
        } else {
            token
        };
        if digits.len() == 0 {
            Err(IntErrorKind::InvalidDigit)
        } else {
            match digits_value(digits) {
                Ok(value) => Ok(value as usize),
                Err(kind) => Err(kind),
            }
        }
    }
}

/// The elements of a line: its first element and those after it. The
/// elements are the pieces between single spaces. A line that holds nothing,
/// or that begins with a space, has no first element. Every piece after the
/// first is an element, also an empty one, as two spaces in a row or a
/// space at the end of the line give it.
pub open spec fn elements_of(line: Seq<char>) -> Option<(Seq<char>, Seq<Seq<char>>)> {
    let pieces = space_separated(line);
    if pieces[0].len() == 0 {
        None
    } else {
        Some((pieces[0], pieces.skip(1)))
    }
}

/// What a header line announces: the number of rows, then the
/// dimensionality. A line without a first element is no header. The
/// elements are then read in order: one that is no number is reported where
/// it stands, a missing second element once the first was read, and a third
/// element once the second was read. An empty element is no number.
pub open spec fn header_of(line: Seq<char>) -> Result<(usize, usize), VectorLoadError> {
    match elements_of(line) {
        None => Err(VectorLoadError::WrongHeader),
        Some((first, rest)) => match decimal_of(first) {
            Err(kind) => Err(VectorLoadError::ParseIntError(kind)),
            Ok(rows) => if rest.len() < 1 {
                Err(VectorLoadError::WrongHeader)
            } else {
                match decimal_of(rest[0]) {
                    Err(kind) => Err(VectorLoadError::ParseIntError(kind)),
                    Ok(dimensionality) => if rest.len() > 1 {
                        Err(VectorLoadError::WrongHeader)
                    } else {
                        Ok((rows, dimensionality))
                    },
                }
            },
        },
    }
}

/// A value that `digits_value` accepts fits a `usize`.
pub proof fn lemma_digits_value_fits(digits: Seq<char>)
    ensures
        digits_value(digits) matches Ok(value) ==> value <= usize::MAX,
    decreases digits.len(),
{
    if digits.len() > 0 {
        lemma_digits_value_fits(digits.drop_last());
    }
}

/// Reads `text` as a decimal number: digits, with at most one `+` before
/// them, that denote a number within `usize`.
pub fn parse_usize(text: &str) -> (parsed: Result<usize, IntErrorKind>)
    ensures
        parsed == decimal_of(text@),
{
    let token = chars_of(text);
    if token.len() == 0 {
        return Err(IntErrorKind::Empty);
    }
    let start: usize = if token[0] == '+' {
        1
    } else {
        0
    };
    if start == token.len() {
        return Err(IntErrorKind::InvalidDigit);
    }
    let ghost digits = token@.subrange(start as int, token.len() as int);
    proof {
        if start == 1 {
            assert(digits == token@.drop_first());
        } else {
            assert(digits == token@);
        }
        lemma_digits_value_fits(digits);
    }
    let mut value: usize = 0;
    let mut i: usize = start;
    while i < token.len()
        invariant
            start <= i <= token.len(),
            token@ == text@,
            digits == token@.subrange(start as int, token.len() as int),
            decimal_of(token@) == match digits_value(digits) {
                Ok(value) => Ok::<usize, IntErrorKind>(value as usize),
                Err(kind) => Err(kind),
            },
            digits_value(digits.take(i - start)) == Ok::<nat, IntErrorKind>(value as nat),
        decreases token.len() - i,
    {
        let code: u32 = token[i] as u32;
        proof {
            let upto = digits.take(i - start + 1);
            assert(upto.drop_last() == digits.take(i - start));
            assert(upto.last() == token@[i as int]);
            lemma_error_stays(digits, i - start + 1);
        }
        if code < 0x30 || code > 0x39 {
            return Err(IntErrorKind::InvalidDigit);
        }
        let low: usize = (code - 0x30) as usize;
        let shifted = match value.checked_mul(10) {
            Some(shifted) => shifted,
            None => {
                return Err(IntErrorKind::PosOverflow);
            },
        };
        value = match shifted.checked_add(low) {
            Some(sum) => sum,
            None => {
                return Err(IntErrorKind::PosOverflow);
            },
        };
        i += 1;
    }
    proof {
        assert(digits.take(i - start) == digits);
    }
    Ok(value)
}

/// An error met in a prefix of `digits` is the error of the whole.
pub proof fn lemma_error_stays(digits: Seq<char>, upto: int)
    requires
        0 <= upto <= digits.len(),
    ensures
        digits_value(digits.take(upto)) matches Err(kind) ==> digits_value(digits) == Err::<
            nat,
            IntErrorKind,
        >(kind),
    decreases digits.len() - upto,
{
    if upto < digits.len() {
        let next = digits.take(upto + 1);
        assert(next.drop_last() == digits.take(upto));
        lemma_error_stays(digits, upto + 1);
    } else {
        assert(digits.take(upto) == digits);
    }
}

/// Splits a line into its first element and the elements after it, where
/// it has a first element.
pub fn split_line(line: &str) -> (split: Option<(String, Vec<String>)>)
    ensures
        match elements_of(line@) {
            Some((first, rest)) => split matches Some(found) && found.0@ == first && texts(
                found.1@,
            ) == rest,
            None => split is None,
        },
{
    let mut pieces = split_spaces(line);
    proof {
        lemma_split_when_len(line@, |c: char| c == ' ');
        assert(texts(pieces@).len() == pieces@.len());
        assert(texts(pieces@)[0] == pieces@[0]@);
    }
    if pieces[0].as_str().is_empty() {
        return None;
    }
    let ghost all = texts(pieces@);
    let first = pieces.remove(0);
    proof {
        assert(texts(pieces@) == all.skip(1));
    }
    Some((first, pieces))
}

/// Reads the header line of an embedding resource: the number of rows and
/// the dimensionality, separated by one space.
pub fn parse_header(line: &str) -> (header: Result<(usize, usize), VectorLoadError>)
    ensures
        header == header_of(line@),
{
    let (first, rest) = match split_line(line) {
        Some(found) => found,
        None => {
            return Err(VectorLoadError::WrongHeader);
        },
    };
    proof {
        assert(texts(rest@).len() == rest@.len());
    }
    let rows = match parse_usize(first.as_str()) {
        Ok(rows) => rows,
        Err(kind) => {
            return Err(VectorLoadError::ParseIntError(kind));
        },
    };
    if rest.len() < 1 {
        return Err(VectorLoadError::WrongHeader);
    }
    proof {
        assert(texts(rest@)[0] == rest@[0]@);
    }
    let dimensionality = match parse_usize(rest[0].as_str()) {
        Ok(dimensionality) => dimensionality,
        Err(kind) => {
            return Err(VectorLoadError::ParseIntError(kind));
        },
    };
    if rest.len() > 1 {
        return Err(VectorLoadError::WrongHeader);
    }
    Ok((rows, dimensionality))
}

/// What a data line holds before its elements are read as numbers: the word,
/// which is its first element, then the elements as they are written. A
/// line without a first element has no word.
pub open spec fn vector_line_of(line: Seq<char>) -> Result<
    (Seq<char>, Seq<Seq<char>>),
    VectorLoadError,
> {
    match elements_of(line) {
        Some((word, elements)) => Ok((word, elements)),
        None => Err(VectorLoadError::MissingWord),
    }
}

/// Splits a data line into its word and its elements, each element still
/// text. The elements come in the order of the line; two spaces in a row
/// give an empty element.
pub fn split_vector(line: &str) -> (split: Result<(String, Vec<String>), VectorLoadError>)
    ensures
        match vector_line_of(line@) {
            Ok((word, elements)) => split matches Ok(found) && found.0@ == word && texts(
                found.1@,
            ) == elements,
            Err(error) => split == Err::<(String, Vec<String>), VectorLoadError>(error),
        },
{
    match split_line(line) {
        Some(found) => Ok(found),
        None => Err(VectorLoadError::MissingWord),
    }
}

/// The element sequences that a list of vectors holds.
pub open spec fn vector_views(vectors: Seq<Vector>) -> Seq<Seq<u64>> {
    Seq::new(vectors.len(), |i: int| vectors[i]@)
}

/// An embedding table: a vector for each word that it knows, all of one
/// dimensionality.
pub struct Vectors {
    dimensionality: usize,
    words: StringHashMap<Vector>,
}

impl View for Vectors {
    type V = Map<Seq<char>, Seq<u64>>;

    closed spec fn view(&self) -> Map<Seq<char>, Seq<u64>> {
        self.words@.map_values(|vector: Vector| vector@)
    }
}

impl Vectors {
    /// The number of elements that every vector of the table has.
    pub closed spec fn dimension(&self) -> usize {
        self.dimensionality
    }

    /// Every vector of the table has the table's dimensionality.
    pub open spec fn wf(&self) -> bool {
        forall|word: Seq<char>| #[trigger]
            self@.contains_key(word) ==> self@[word].len() == self.dimension()
    }

    #[verifier::type_invariant]
    spec fn valid(&self) -> bool {
        self.wf()
    }

    /// The number of elements that every vector of the table has.
    pub fn dimensionality(&self) -> (dimensionality: usize)
        ensures
            dimensionality == self.dimension(),
    {
        self.dimensionality
    }

    /// The number of words that the table knows.
    pub fn len(&self) -> (count: usize)
        ensures
            count == self@.len(),
    {
        proof {
            assert(self@.dom() == self.words@.dom());
        }
        self.words.len()
    }

    /// The vector of `word`, if the table knows the word as it is written.
    pub fn get(&self, word: &str) -> (found: Option<&Vector>)
        ensures
            match found {
                Some(vector) => self@.contains_key(word@) && vector@ == self@[word@]
                    && vector@.len() == self.dimension(),
                None => !self@.contains_key(word@),
            },
            self.wf(),
    {
        proof {
            use_type_invariant(self);
            assert(self@.dom() == self.words@.dom());
        }
        self.words.get(word)
    }
}

/// An embedding table as it is read: the header has been seen, the data
/// lines follow one by one.
pub struct VectorLoader {
    rows: usize,
    dimensionality: usize,
    words: StringHashMap<Vector>,
}

impl VectorLoader {
    /// The number of words that the header announced.
    pub closed spec fn announced(&self) -> usize {
        self.rows
    }

    /// The dimensionality that the header announced.
    pub closed spec fn dimension(&self) -> usize {
        self.dimensionality
    }

    /// The words read so far, each with the vector of its last line.
    pub closed spec fn loaded(&self) -> Map<Seq<char>, Seq<u64>> {
        self.words@.map_values(|vector: Vector| vector@)
    }

    /// Every vector read so far has the announced dimensionality.
    pub open spec fn wf(&self) -> bool {
        forall|word: Seq<char>| #[trigger]
            self.loaded().contains_key(word) ==> self.loaded()[word].len() == self.dimension()
    }

    #[verifier::type_invariant]
    spec fn valid(&self) -> bool {
        self.wf()
    }

    /// Starts a load from the first line of the resource, if it has one.
    pub fn new(header: Option<&str>) -> (started: Result<VectorLoader, VectorLoadError>)
        ensures
            match header {
                None => started == Err::<VectorLoader, VectorLoadError>(
                    VectorLoadError::MissingHeader,
                ),
                Some(line) => match header_of(line@) {
                    Ok((rows, dimensionality)) => started matches Ok(loader) && loader.announced()
                        == rows && loader.dimension() == dimensionality && loader.loaded()
                        == Map::<Seq<char>, Seq<u64>>::empty() && loader.wf(),
                    Err(error) => started == Err::<VectorLoader, VectorLoadError>(error),
                },
            },
    {
        let line = match header {
            Some(line) => line,
            None => {
                return Err(VectorLoadError::MissingHeader);
            },
        };
        match parse_header(line) {
            Ok((rows, dimensionality)) => {
                let words: StringHashMap<Vector> = StringHashMap::new();
                proof {
                    assert(words@.map_values(|vector: Vector| vector@) == Map::<
                        Seq<char>,
                        Seq<u64>,
                    >::empty());
                }
                Ok(VectorLoader { rows, dimensionality, words })
            },
            Err(error) => Err(error),
        }
    }

    /// The dimensionality that the header announced.
    pub fn dimensionality(&self) -> (dimensionality: usize)
        ensures
            dimensionality == self.dimension(),
    {
        self.dimensionality
    }

    /// Takes the vector of one data line and hands the loader back. A vector
    /// of another dimensionality than announced is refused; a word seen
    /// before gets the new vector in place of the old.
    pub fn insert(self, word: String, vector: Vector) -> (taken: Result<
        VectorLoader,
        VectorLoadError,
    >)
        ensures
            vector@.len() == self.dimension() ==> (taken matches Ok(loader) && loader.announced()
                == self.announced() && loader.dimension() == self.dimension() && loader.loaded()
                == self.loaded().insert(word@, vector@) && loader.wf()),
            vector@.len() != self.dimension() ==> taken == Err::<VectorLoader, VectorLoadError>(
                VectorLoadError::WrongDimensionality(self.dimension(), vector.len()),
            ),
    {
        proof {
            use_type_invariant(&self);
        }
        if vector.len() != self.dimensionality {
            return Err(VectorLoadError::WrongDimensionality(self.dimensionality, vector.len()));
        }
        let mut words = self.words;
        words.insert(word, vector);
        proof {
            let after = words@.map_values(|vector: Vector| vector@);
            assert(after == self.loaded().insert(word@, vector@));
            assert forall|known: Seq<char>| #[trigger]
                after.contains_key(known) implies after[known].len() == self.dimensionality by {
                if known != word@ {
                    assert(self.loaded().contains_key(known));
                }
            }
        }
        Ok(VectorLoader { rows: self.rows, dimensionality: self.dimensionality, words })
    }

    /// Ends the load: the table, if it holds as many words as the header
    /// announced.
    pub fn finish(self) -> (finished: Result<Vectors, VectorLoadError>)
        ensures
            self.loaded().len() == self.announced() ==> (finished matches Ok(vectors) && vectors@
                == self.loaded() && vectors.dimension() == self.dimension() && vectors.wf()),
            self.loaded().len() != self.announced() ==> finished == Err::<
                Vectors,
                VectorLoadError,
            >(
                VectorLoadError::MissingVectors(
                    self.announced(),
                    self.loaded().len() as usize,
                ),
            ),
    {
        proof {
            use_type_invariant(&self);
            assert(self.loaded().dom() == self.words@.dom());
        }
        let count = self.words.len();
        if count == self.rows {
            Ok(Vectors { dimensionality: self.dimensionality, words: self.words })
        } else {
            Err(VectorLoadError::MissingVectors(self.rows, count))
        }
    }
}

/// The vectors that `table` gives to those of `words` that it knows as
/// they are written, in the order of the words, one for each occurrence.
pub open spec fn written_vectors(table: Map<Seq<char>, Seq<u64>>, words: Seq<Seq<char>>) -> Seq<
    Seq<u64>,
> {
    words.filter(|word: Seq<char>| table.contains_key(word)).map_values(
        |word: Seq<char>| table[word],
    )
}

/// The vectors that `table` gives to those of `words` that it knows in
/// lowercase, in the order of the words, one for each occurrence.
pub open spec fn vectors_of_words(table: Map<Seq<char>, Seq<u64>>, words: Seq<Seq<char>>) -> Seq<
    Seq<u64>,
> {
    written_vectors(table, words.map_values(|word: Seq<char>| lowercased(word)))
}

/// The vectors that `table` gives the known words of `utterance`.
pub open spec fn known_vectors(table: Map<Seq<char>, Seq<u64>>, utterance: Seq<char>) -> Seq<
    Seq<u64>,
> {
    vectors_of_words(table, words_of(utterance))
}

/// Whether `found` is what `vectors` selects for `utterance`: nothing where
/// no word is known, else the vectors of the known words.
pub open spec fn selected_by(
    vectors: Vectors,
    utterance: Seq<char>,
    found: Option<Vec<Vector>>,
) -> bool {
    match found {
        None => known_vectors(vectors@, utterance).len() == 0,
        Some(results) => results@.len() > 0 && vector_views(results@) == known_vectors(
            vectors@,
            utterance,
        ),
    }
}

/// The elements of what was selected, if anything was.
pub open spec fn selection_view(found: Option<Vec<Vector>>) -> Option<Seq<Seq<u64>>> {
    match found {
        None => None,
        Some(results) => Some(vector_views(results@)),
    }
}

/// Encoding is determined by the table and the utterance: whatever is
/// selected for one utterance from one table, twice, agrees bit for bit.
pub proof fn lemma_selection_is_determined(
    vectors: Vectors,
    utterance: Seq<char>,
    first: Option<Vec<Vector>>,
    second: Option<Vec<Vector>>,
)
    requires
        selected_by(vectors, utterance, first),
        selected_by(vectors, utterance, second),
    ensures
        selection_view(first) == selection_view(second),
{
    if first is Some {
        assert(vector_views(first->0@).len() == first->0@.len());
    }
    if second is Some {
        assert(vector_views(second->0@).len() == second->0@.len());
    }
}

/// The vectors of two runs of words, one after the other, are those of the
/// first run followed by those of the second.
pub proof fn lemma_vectors_of_words_concat(
    table: Map<Seq<char>, Seq<u64>>,
    first: Seq<Seq<char>>,
    second: Seq<Seq<char>>,
)
    ensures
        vectors_of_words(table, first + second) == vectors_of_words(table, first)
            + vectors_of_words(table, second),
{
    let lower = |word: Seq<char>| lowercased(word);
    let known = |word: Seq<char>| table.contains_key(word);
    let value = |word: Seq<char>| table[word];
    assert((first + second).map_values(lower) == first.map_values(lower) + second.map_values(
        lower,
    ));
    Seq::filter_distributes_over_add(first.map_values(lower), second.map_values(lower), known);
    let kept_first = first.map_values(lower).filter(known);
    let kept_second = second.map_values(lower).filter(known);
    assert((kept_first + kept_second).map_values(value) == kept_first.map_values(value)
        + kept_second.map_values(value));
}

/// A word that the table knows, alone, selects exactly its vector.
pub proof fn lemma_known_word_gives_its_vector(table: Map<Seq<char>, Seq<u64>>, word: Seq<char>)
    requires
        table.contains_key(lowercased(word)),
    ensures
        vectors_of_words(table, seq![word]) == seq![table[lowercased(word)]],
{
    let lower = |word: Seq<char>| lowercased(word);
    let known = |word: Seq<char>| table.contains_key(word);
    let lowered = seq![word].map_values(lower);
    assert(lowered == seq![lowercased(word)]);
    reveal(Seq::filter);
    assert(lowered.drop_last() == Seq::<Seq<char>>::empty());
    assert(lowered.filter(known) == seq![lowercased(word)]);
}

/// Words that the table does not know select nothing.
pub proof fn lemma_unknown_words_give_nothing(
    table: Map<Seq<char>, Seq<u64>>,
    words: Seq<Seq<char>>,
)
    requires
        forall|i: int|
            0 <= i < words.len() ==> !table.contains_key(#[trigger] lowercased(words[i])),
    ensures
        vectors_of_words(table, words) == Seq::<Seq<u64>>::empty(),
    decreases words.len(),
{
    let lower = |word: Seq<char>| lowercased(word);
    let known = |word: Seq<char>| table.contains_key(word);
    let lowered = words.map_values(lower);
    reveal(Seq::filter);
    if words.len() > 0 {
        lemma_unknown_words_give_nothing(table, words.drop_last());
        assert(lowered.drop_last() == words.drop_last().map_values(lower));
        assert(lowered.last() == lowercased(words.last()));
        assert(!known(lowered.last()));
        assert(lowered.filter(known) == lowered.drop_last().filter(known));
        assert(lowered.drop_last().filter(known).map_values(|word: Seq<char>| table[word]).len()
            == 0);
        assert(lowered.drop_last().filter(known).len() == 0);
    } else {
        assert(lowered.filter(known).len() == 0);
    }
}

/// Unknown words are left out: a word that the table does not know changes
/// nothing of what the words around it select, wherever it stands.
pub proof fn lemma_unknown_word_is_passed_over(
    table: Map<Seq<char>, Seq<u64>>,
    before: Seq<Seq<char>>,
    word: Seq<char>,
    after: Seq<Seq<char>>,
)
    requires
        !table.contains_key(lowercased(word)),
    ensures
        vectors_of_words(table, before + seq![word] + after) == vectors_of_words(
            table,
            before + after,
        ),
{
    lemma_vectors_of_words_concat(table, before + seq![word], after);
    lemma_vectors_of_words_concat(table, before, seq![word]);
    lemma_unknown_words_give_nothing(table, seq![word]);
    lemma_vectors_of_words_concat(table, before, after);
    assert(vectors_of_words(table, before) + Seq::<Seq<u64>>::empty() == vectors_of_words(
        table,
        before,
    ));
}

/// An utterance without characters has no words, so it selects nothing.
pub proof fn lemma_empty_utterance_gives_nothing(table: Map<Seq<char>, Seq<u64>>)
    ensures
        known_vectors(table, Seq::<char>::empty()) == Seq::<Seq<u64>>::empty(),
{
    let pieces = split_when(Seq::<char>::empty(), |c: char| is_white_space(c));
    let filled = |piece: Seq<char>| piece.len() > 0;
    assert(pieces == seq![Seq::<char>::empty()]);
    reveal(Seq::filter);
    assert(pieces.drop_last() == Seq::<Seq<char>>::empty());
    assert(!filled(pieces.last()));
    assert(pieces.drop_last().filter(filled) == Seq::<Seq<char>>::empty());
    assert(pieces.filter(filled) == Seq::<Seq<char>>::empty());
    assert(words_of(Seq::<char>::empty()) == Seq::<Seq<char>>::empty());
    lemma_unknown_words_give_nothing(table, Seq::<Seq<char>>::empty());
}

/// Each of `words` in lowercase, in the same order.
pub fn lowercase_all(words: &Vec<String>) -> (lowered: Vec<String>)
    ensures
        texts(lowered@) == texts(words@).map_values(|word: Seq<char>| lowercased(word)),
{
    let ghost lower = |word: Seq<char>| lowercased(word);
    let mut lowered: Vec<String> = Vec::new();
    let mut i: usize = 0;
    while i < words.len()
        invariant
            i <= words.len(),
            lower == (|word: Seq<char>| lowercased(word)),
            texts(lowered@) == texts(words@).take(i as int).map_values(lower),
        decreases words.len() - i,
    {
        let ghost before = texts(lowered@);
        let word = lowercase(words[i].as_str());
        lowered.push(word);
        proof {
            assert(texts(lowered@) == before.push(lowercased(words@[i as int]@)));
            assert(texts(words@).take(i + 1).map_values(lower) == texts(words@).take(
                i as int,
            ).map_values(lower).push(lowercased(words@[i as int]@)));
        }
        i += 1;
    }
    proof {
        assert(texts(words@).take(i as int) == texts(words@));
    }
    lowered
}

/// The vectors of those of `words` that `vectors` knows as they are
/// written, in the order of the words. A word that the table lacks is
/// passed over.
pub fn vectors_of(vectors: &Vectors, words: &Vec<String>) -> (found: Vec<Vector>)
    ensures
        vector_views(found@) == written_vectors(vectors@, texts(words@)),
        forall|i: int|
            0 <= i < found@.len() ==> (#[trigger] found@[i])@.len() == vectors.dimension(),
{
    let ghost table = vectors@;
    let ghost known = |word: Seq<char>| table.contains_key(word);
    let ghost value = |word: Seq<char>| table[word];
    let mut found: Vec<Vector> = Vec::new();
    let mut i: usize = 0;
    while i < words.len()
        invariant
            i <= words.len(),
            table == vectors@,
            known == (|word: Seq<char>| table.contains_key(word)),
            value == (|word: Seq<char>| table[word]),
            vector_views(found@) == texts(words@).take(i as int).filter(known).map_values(value),
            forall|k: int|
                0 <= k < found@.len() ==> (#[trigger] found@[k])@.len() == vectors.dimension(),
        decreases words.len() - i,
    {
        proof {
            let upto = texts(words@).take(i + 1);
            let before = texts(words@).take(i as int);
            assert(upto.drop_last() == before);
            assert(upto.last() == words@[i as int]@);
            reveal(Seq::filter);
            assert(upto.filter(known) == if known(words@[i as int]@) {
                before.filter(known).push(words@[i as int]@)
            } else {
                before.filter(known)
            });
        }
        match vectors.get(words[i].as_str()) {
            Some(vector) => {
                let ghost kept = vector_views(found@);
                found.push(vector.clone());
                proof {
                    let word = words@[i as int]@;
                    assert(vector_views(found@) == kept.push(table[word]));
                    let before = texts(words@).take(i as int).filter(known);
                    assert(before.push(word).map_values(value) == before.map_values(value).push(
                        table[word],
                    ));
                }
            },
            None => {},
        }
        i += 1;
    }
    proof {
        assert(texts(words@).take(i as int) == texts(words@));
    }
    found
}

/// The vectors of the words of `utterance` that `vectors` knows: the words
/// are the runs between white space, each looked up in lowercase, and a
/// word that the table lacks is passed over. `None` where it knows none of
/// them. The vector of the utterance is the mean of these.
pub fn utterance_to_vectors(vectors: &Vectors, utterance: &str) -> (found: Option<Vec<Vector>>)
    ensures
        selected_by(*vectors, utterance@, found),
        found matches Some(results) ==> forall|i: int|
            0 <= i < results@.len() ==> (#[trigger] results@[i])@.len() == vectors.dimension(),
{
    let tokens = words(utterance);
    let lowered = lowercase_all(&tokens);
    let results = vectors_of(vectors, &lowered);
    proof {
        assert(vector_views(results@).len() == results@.len());
    }
    if results.len() == 0 {
        None
    } else {
        Some(results)
    }
}

} // verus!
