//! The response store's rules: which prompts can be stored and answered,
//! how a bucket of responses grows, and which response answers a prompt.
//!
//! The store works with three things it does not hold itself: a
//! nearest-neighbour index over prompt vectors, a durable table from vector
//! to bucket, and the arithmetic that averages vectors. The caller owns
//! those and performs each step in turn.
//!
//! Decided here: whether a prompt can be read, what is written back for a
//! bucket, what an untouched result slot of the index means, and which
//! response of a bucket answers. Decided by the caller, since it concerns
//! what only the caller holds: the order of the steps, that the index gets
//! a node for every insertion, and what follows a write to the table that
//! failed, a stored bucket that cannot be read, or a poisoned lock.

use crate::matrix_body::{body_texts, Body, BodyText};
use crate::vectors::{
    known_vectors, utterance_to_vectors, vector_views, Vector, VectorLoadError, Vectors,
};
use rand::seq::SliceRandom;
use vstd::prelude::*;

verus! {

/// `sled::Error`, carried through untouched.
#[verifier::external_type_specification]
#[verifier::external_body]
pub struct ExDatabaseError(sled::Error);

/// `serde_cbor::Error`, carried through untouched.
#[verifier::external_type_specification]
#[verifier::external_body]
pub struct ExSerdeError(serde_cbor::Error);

/// Why a call to the store failed.
#[derive(Debug)]
pub enum StoreError {
    /// The durable table failed.
    DatabaseError(sled::Error),
    /// A key or a bucket could not be written as bytes or read back.
    SerdeError(serde_cbor::Error),
    /// The embedding table could not be loaded.
    VectorLoadError(VectorLoadError),
    /// The index holds no vector at all.
    NoResponses,
    /// The index holds a vector for which the table has no response.
    MissingResponses,
    /// The prompt has no word that the embedding table knows.
    NoPromptVector,
    /// The guard of the index was poisoned by a panic in another call.
    LockPoisoned,
}

impl From<sled::Error> for StoreError {
    fn from(error: sled::Error) -> (wrapped: StoreError) {
        StoreError::DatabaseError(error)
    }
}

impl vstd::std_specs::convert::FromSpecImpl<sled::Error> for StoreError {
    open spec fn obeys_from_spec() -> bool {
        true
    }

    open spec fn from_spec(error: sled::Error) -> StoreError {
        StoreError::DatabaseError(error)
    }
}

impl From<serde_cbor::Error> for StoreError {
    fn from(error: serde_cbor::Error) -> (wrapped: StoreError) {
        StoreError::SerdeError(error)
    }
}

impl vstd::std_specs::convert::FromSpecImpl<serde_cbor::Error> for StoreError {
    open spec fn obeys_from_spec() -> bool {
        true
    }

    open spec fn from_spec(error: serde_cbor::Error) -> StoreError {
        StoreError::SerdeError(error)
    }
}

impl From<VectorLoadError> for StoreError {
    fn from(error: VectorLoadError) -> (wrapped: StoreError) {
        StoreError::VectorLoadError(error)
    }
}

impl vstd::std_specs::convert::FromSpecImpl<VectorLoadError> for StoreError {
    open spec fn obeys_from_spec() -> bool {
        true
    }

    open spec fn from_spec(error: VectorLoadError) -> StoreError {
        StoreError::VectorLoadError(error)
    }
}

/// The node id that stands for "no neighbour": what a query leaves in its
/// result slot when the index is empty.
pub open spec fn no_neighbour() -> usize {
    usize::MAX
}

/// A bucket after one more response: the responses stored so far, in their
/// order, then the new one.
pub open spec fn appended(stored: Option<Seq<BodyText>>, response: BodyText) -> Seq<BodyText> {
    match stored {
        Some(bucket) => bucket.push(response),
        None => seq![response],
    }
}

/// A bucket after each of `responses` was appended in turn.
pub open spec fn appended_all(stored: Option<Seq<BodyText>>, responses: Seq<BodyText>) -> Seq<
    BodyText,
>
    decreases responses.len(),
{
    if responses.len() == 0 {
        match stored {
            Some(bucket) => bucket,
            None => Seq::<BodyText>::empty(),
        }
    } else {
        appended(Some(appended_all(stored, responses.drop_last())), responses.last())
    }
}

/// The responses of a bucket, none where there is no bucket.
pub open spec fn bucket_or_empty(stored: Option<Seq<BodyText>>) -> Seq<BodyText> {
    match stored {
        Some(bucket) => bucket,
        None => Seq::<BodyText>::empty(),
    }
}

/// No update is lost: after any number of responses were appended to a
/// bucket one at a time, the bucket holds what it held before, then every
/// one of them, in the order in which they were appended.
pub proof fn lemma_every_response_is_kept(stored: Option<Seq<BodyText>>, responses: Seq<BodyText>)
    ensures
        appended_all(stored, responses) == bucket_or_empty(stored) + responses,
        appended_all(stored, responses).len() == bucket_or_empty(stored).len() + responses.len(),
        forall|i: int|
            0 <= i < responses.len() ==> appended_all(stored, responses).contains(
                #[trigger] responses[i],
            ),
    decreases responses.len(),
{
    if responses.len() > 0 {
        lemma_every_response_is_kept(stored, responses.drop_last());
        assert(responses == responses.drop_last().push(responses.last()));
    }
    let all = bucket_or_empty(stored) + responses;
    assert(appended_all(stored, responses) == all);
    assert forall|i: int| 0 <= i < responses.len() implies all.contains(
        #[trigger] responses[i],
    ) by {
        assert(all[bucket_or_empty(stored).len() + i] == responses[i]);
    }
}

/// What table and index hold, as the rules of the store see them.
pub ghost struct Contents {
    /// The bucket that the table holds for each vector that is a key.
    pub table: Map<Seq<u64>, Seq<BodyText>>,
    /// The vectors of the nodes of the index, by node id.
    pub index: Seq<Seq<u64>>,
}

/// Table and index agree: a vector is a key of the table exactly if a node
/// of the index has its coordinates, and no bucket is empty.
pub open spec fn agree(contents: Contents) -> bool {
    &&& forall|vector: Seq<u64>|
        contents.table.contains_key(vector) <==> contents.index.contains(vector)
    &&& forall|vector: Seq<u64>| #[trigger]
        contents.table.contains_key(vector) ==> contents.table[vector].len() > 0
}

/// The bucket that the table holds for `vector`, if it is a key.
pub open spec fn stored_under(contents: Contents, vector: Seq<u64>) -> Option<Seq<BodyText>> {
    if contents.table.contains_key(vector) {
        Some(contents.table[vector])
    } else {
        None
    }
}

/// What table and index hold after `response` was stored under `vector`:
/// the bucket of the vector has one response more, and the index one node
/// more, whether or not it had a node of these coordinates before.
pub open spec fn after_insert(contents: Contents, vector: Seq<u64>, response: BodyText) -> Contents {
    Contents {
        table: contents.table.insert(vector, appended(stored_under(contents, vector), response)),
        index: contents.index.push(vector),
    }
}

/// Storing a response keeps table and index in agreement.
pub proof fn lemma_insert_keeps_agreement(contents: Contents, vector: Seq<u64>, response: BodyText)
    requires
        agree(contents),
    ensures
        agree(after_insert(contents, vector, response)),
{
    let after = after_insert(contents, vector, response);
    assert forall|other: Seq<u64>| after.table.contains_key(other) <==> after.index.contains(
        other,
    ) by {
        if after.index.contains(other) {
            let i = choose|i: int| 0 <= i < after.index.len() && after.index[i] == other;
            if i < contents.index.len() {
                assert(contents.index[i] == other);
                assert(contents.index.contains(other));
            }
        }
        if after.table.contains_key(other) && other != vector {
            assert(contents.index.contains(other));
            let i = choose|i: int| 0 <= i < contents.index.len() && contents.index[i] == other;
            assert(after.index[i] == other);
        }
        if other == vector {
            assert(after.index[contents.index.len() as int] == vector);
        }
    }
}

/// Where table and index agree, every node of the index has a bucket with
/// a response in it: a prompt whose neighbour was found has an answer.
pub proof fn lemma_agreement_gives_an_answer(contents: Contents, node: int)
    requires
        agree(contents),
        0 <= node < contents.index.len(),
    ensures
        stored_under(contents, contents.index[node]) matches Some(bucket) && bucket.len() > 0,
{
    assert(contents.index.contains(contents.index[node]));
}

/// The texts of a bucket that may be absent.
pub open spec fn stored_texts(stored: Option<Vec<Body>>) -> Option<Seq<BodyText>> {
    match stored {
        Some(bucket) => Some(body_texts(bucket@)),
        None => None,
    }
}

/// `rand::seq::SliceRandom::choose` on the responses, with the generator
/// that `rand::thread_rng` gives the current thread: nothing where there
/// are no responses, else one of them. Which one is not determined. The
/// generator is seeded from the operating system when a thread first uses
/// it, and again from time to time; either panics where the system has no
/// entropy to give.
#[verifier::external_body]
fn choose_one(responses: &Vec<Body>) -> (chosen: Option<&Body>)
    ensures
        chosen is None <==> responses@.len() == 0,
        chosen matches Some(body) ==> responses@.contains(*body),
{
    responses.choose(&mut rand::thread_rng())
}

/// What a call answers once a response was drawn from the bucket: a copy of
/// the response, or `MissingResponses` where there was none to draw.
pub fn chosen_response(chosen: Option<&Body>) -> (answer: Result<Body, StoreError>)
    ensures
        match chosen {
            Some(body) => answer == Ok::<Body, StoreError>(*body),
            None => answer == Err::<Body, StoreError>(StoreError::MissingResponses),
        },
{
    match chosen {
        Some(body) => Ok(body.clone()),
        None => Err(StoreError::MissingResponses),
    }
}

/// Answers from the bucket that the table holds for the neighbour found:
/// one of its responses, any of them. A neighbour without a bucket, or with
/// an empty one, means that index and table have drifted apart.
pub fn choose_response(stored: Option<Vec<Body>>) -> (answer: Result<Body, StoreError>)
    ensures
        match stored {
            Some(bucket) if bucket@.len() > 0 => answer matches Ok(body) && bucket@.contains(body),
            _ => answer == Err::<Body, StoreError>(StoreError::MissingResponses),
        },
{
    match stored {
        Some(bucket) => {
            let chosen = choose_one(&bucket);
            chosen_response(chosen)
        },
        None => Err(StoreError::MissingResponses),
    }
}

/// Whether `vectors` have a mean: there is at least one, and all have as
/// many elements as the first.
pub open spec fn uniform(vectors: Seq<Seq<u64>>) -> bool {
    &&& vectors.len() > 0
    &&& forall|i: int| 0 <= i < vectors.len() ==> (#[trigger] vectors[i]).len() == vectors[0].len()
}

/// What a prompt selects from the embedding table: the vectors of its known
/// words, of which it has at least one.
pub struct Selection {
    vectors: Vec<Vector>,
}

impl Selection {
    /// The vectors of the prompt's known words.
    pub closed spec fn selected(&self) -> Seq<Seq<u64>> {
        vector_views(self.vectors@)
    }

    #[verifier::type_invariant]
    spec fn valid(&self) -> bool {
        uniform(self.selected())
    }

    /// The vectors of the prompt's known words: at least one, and all of
    /// one dimensionality. Their mean is the vector of the prompt.
    pub fn vectors(&self) -> (vectors: &Vec<Vector>)
        ensures
            vector_views(vectors@) == self.selected(),
            uniform(self.selected()),
    {
        proof {
            use_type_invariant(self);
        }
        &self.vectors
    }
}

/// A prompt that is being stored with its response.
pub struct Insertion {
    /// What the prompt selects. The response is stored and indexed under
    /// the mean of these vectors.
    pub selection: Selection,
    /// The response that is being stored.
    pub response: Body,
}

impl Insertion {
    /// The bucket to write back for the prompt's vector, given the bucket
    /// that the table holds for it now, if any: the same responses in the
    /// same order, and the new one after them. Read and write are to be one
    /// atomic step of the table, so that of two insertions under one vector
    /// neither undoes the other.
    pub fn bucket(&self, stored: Option<Vec<Body>>) -> (bucket: Vec<Body>)
        ensures
            body_texts(bucket@) == appended(stored_texts(stored), self.response@),
            bucket@.len() > 0,
    {
        let mut bucket = match stored {
            Some(bucket) => bucket,
            None => Vec::new(),
        };
        let ghost before = body_texts(bucket@);
        bucket.push(self.response.clone());
        proof {
            assert(body_texts(bucket@) == before.push(self.response@));
            if stored is None {
                assert(before == Seq::<BodyText>::empty());
                assert(before.push(self.response@) == seq![self.response@]);
            }
        }
        bucket
    }
}

/// A prompt for which a response is being sought.
pub struct Search {
    /// What the prompt selects. The index is asked for the one nearest
    /// neighbour of the mean of these vectors.
    pub selection: Selection,
}

impl Search {
    /// The node whose bucket answers the prompt, given what the query left
    /// in its result slot. An untouched slot means an empty index.
    pub fn neighbour(&self, index: usize) -> (node: Result<usize, StoreError>)
        ensures
            index == no_neighbour() ==> node == Err::<usize, StoreError>(StoreError::NoResponses),
            index != no_neighbour() ==> node == Ok::<usize, StoreError>(index),
    {
        if index == usize::MAX {
            Err(StoreError::NoResponses)
        } else {
            Ok(index)
        }
    }
}

/// The response store, as far as it is held here: the embedding table by
/// which prompts are read.
pub struct ResponseStore {
    vectors: Vectors,
}

impl ResponseStore {
    /// The embedding table of the store.
    pub closed spec fn table(&self) -> Vectors {
        self.vectors
    }

    /// Whether `read` is what reading `prompt` by the store's table gives:
    /// `NoPromptVector` where the prompt has no known word, else the
    /// vectors of its known words, each of the table's dimensionality.
    pub open spec fn reads(&self, prompt: Seq<char>, read: Result<Selection, StoreError>) -> bool {
        if known_vectors(self.table()@, prompt).len() == 0 {
            read == Err::<Selection, StoreError>(StoreError::NoPromptVector)
        } else {
            &&& read matches Ok(selection)
            &&& selection.selected() == known_vectors(self.table()@, prompt)
            &&& forall|i: int|
                0 <= i < selection.selected().len() ==> (#[trigger] selection.selected()[i]).len()
                    == self.table().dimension()
        }
    }

    /// Makes the store from what loading the embedding table gave. A table
    /// that could not be loaded fails the store with the loader's error.
    pub fn load(loaded: Result<Vectors, VectorLoadError>) -> (store: Result<
        ResponseStore,
        StoreError,
    >)
        ensures
            match loaded {
                Ok(vectors) => store matches Ok(opened) && opened.table() == vectors,
                Err(error) => store == Err::<ResponseStore, StoreError>(
                    StoreError::VectorLoadError(error),
                ),
            },
    {
        match loaded {
            Ok(vectors) => Ok(ResponseStore { vectors }),
            Err(error) => Err(StoreError::from(error)),
        }
    }

    /// The embedding table of the store.
    pub fn vectors(&self) -> (vectors: &Vectors)
        ensures
            *vectors == self.table(),
    {
        &self.vectors
    }

    /// Reads `prompt` by the store's table.
    fn select(&self, prompt: &str) -> (read: Result<Selection, StoreError>)
        ensures
            self.reads(prompt@, read),
    {
        match utterance_to_vectors(&self.vectors, prompt) {
            Some(vectors) => {
                proof {
                    assert(vector_views(vectors@).len() == vectors@.len());
                    assert forall|i: int| 0 <= i < vectors@.len() implies (#[trigger] vector_views(
                        vectors@,
                    )[i]).len() == self.vectors.dimension() by {
                        assert(vector_views(vectors@)[i] == vectors@[i]@);
                    }
                }
                Ok(Selection { vectors })
            },
            None => Err(StoreError::NoPromptVector),
        }
    }

    /// Begins to store `response` under `prompt`. A prompt without a known
    /// word is refused, and nothing is to be written for it.
    pub fn insert(&self, prompt: &str, response: Body) -> (begun: Result<Insertion, StoreError>)
        ensures
            match begun {
                Ok(insertion) => self.reads(prompt@, Ok(insertion.selection))
                    && insertion.response == response,
                Err(error) => self.reads(prompt@, Err(error)),
            },
    {
        match self.select(prompt) {
            Ok(selection) => Ok(Insertion { selection, response }),
            Err(error) => Err(error),
        }
    }

    /// Begins to answer `prompt`. A prompt without a known word has no
    /// answer.
    pub fn respond(&self, prompt: &str) -> (begun: Result<Search, StoreError>)
        ensures
            match begun {
                Ok(search) => self.reads(prompt@, Ok(search.selection)),
                Err(error) => self.reads(prompt@, Err(error)),
            },
    {
        match self.select(prompt) {
            Ok(selection) => Ok(Search { selection }),
            Err(error) => Err(error),
        }
    }
}

} // verus!
