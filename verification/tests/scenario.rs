use axyn::matrix_body::Body;
use axyn::store::{choose_response, ResponseStore, StoreError};
use axyn::vectors::{Vector, VectorLoader, Vectors};
use hnsw::{Hnsw, Searcher};
use rand::rngs::StdRng;
use space::{Metric, Neighbor};

struct Euclidean;

impl Metric<Vec<f64>> for Euclidean {
    type Unit = u64;

    fn distance(&self, a: &Vec<f64>, b: &Vec<f64>) -> u64 {
        a.iter().zip(b.iter()).map(|(&a, &b)| (a - b).powi(2)).sum::<f64>().sqrt().to_bits()
    }
}

type Stored = Vec<(String, Option<String>)>;

struct Bot {
    store: ResponseStore,
    table: sled::Db,
    index: Hnsw<Euclidean, Vec<f64>, StdRng, 12, 24>,
    searcher: Searcher<u64>,
}

fn bits(elements: &[f64]) -> Vector {
    elements.iter().map(|element| element.to_bits()).collect()
}

fn mean(vectors: &Vec<Vector>) -> Vec<f64> {
    let mut total: Vec<f64> = vectors[0].iter().map(|&element| f64::from_bits(element)).collect();
    for vector in &vectors[1..] {
        for (sum, &element) in total.iter_mut().zip(vector) {
            *sum += f64::from_bits(element);
        }
    }
    let count = vectors.len() as f64;
    for sum in total.iter_mut() {
        *sum /= count;
    }
    total
}

fn bodies(stored: Stored) -> Vec<Body> {
    stored.into_iter().map(|(plain, html)| Body { plain, html }).collect()
}

fn pairs(bucket: Vec<Body>) -> Stored {
    bucket.into_iter().map(|body| (body.plain, body.html)).collect()
}

fn fish_and_chips() -> Vectors {
    let loader = VectorLoader::new(Some("2 2")).unwrap();
    let loader = loader.insert("fish".to_string(), bits(&[1.0, 0.0])).ok().unwrap();
    let loader = loader.insert("chips".to_string(), bits(&[0.9, 0.1])).ok().unwrap();
    loader.finish().ok().unwrap()
}

fn bot() -> Bot {
    Bot {
        store: ResponseStore::load(Ok(fish_and_chips())).ok().unwrap(),
        table: sled::Config::new().temporary(true).open().unwrap(),
        index: Hnsw::new(Euclidean),
        searcher: Searcher::default(),
    }
}

fn insert(bot: &mut Bot, prompt: &str, response: &str) -> Result<(), StoreError> {
    let insertion = bot.store.insert(prompt, Body { plain: response.to_string(), html: None })?;
    let vector = mean(insertion.selection.vectors());
    let key = serde_cbor::to_vec(&vector)?;
    bot.table.fetch_and_update(key, |stored| {
        let stored = stored.map(|bytes| bodies(serde_cbor::from_slice::<Stored>(bytes).unwrap()));
        Some(serde_cbor::to_vec(&pairs(insertion.bucket(stored))).unwrap())
    })?;
    bot.index.insert(vector, &mut bot.searcher);
    Ok(())
}

fn respond(bot: &mut Bot, prompt: &str) -> Result<Body, StoreError> {
    let search = bot.store.respond(prompt)?;
    let vector = mean(search.selection.vectors());
    let mut neighbours = [Neighbor { index: !0, distance: !0 }];
    bot.index.nearest(&vector, 24, &mut bot.searcher, &mut neighbours);
    let node = search.neighbour(neighbours[0].index)?;
    let key = serde_cbor::to_vec(bot.index.feature(node))?;
    let stored = match bot.table.get(&key)? {
        Some(bytes) => Some(bodies(serde_cbor::from_slice::<Stored>(&bytes)?)),
        None => None,
    };
    choose_response(stored)
}

#[test]
fn fish_is_answered_with_the_response_stored_for_fish() {
    let mut bot = bot();
    insert(&mut bot, "fish", "Today's fish is trout").unwrap();
    assert_eq!(respond(&mut bot, "fish").unwrap().plain, "Today's fish is trout");
}

#[test]
fn chips_is_answered_with_the_response_of_its_neighbour() {
    let mut bot = bot();
    insert(&mut bot, "fish", "Today's fish is trout").unwrap();
    assert_eq!(respond(&mut bot, "chips").unwrap().plain, "Today's fish is trout");
}

#[test]
fn unknown_words_do_not_move_the_prompt() {
    let mut bot = bot();
    insert(&mut bot, "zzqx fish", "Today's fish is trout").unwrap();
    let key = serde_cbor::to_vec(&vec![1.0f64, 0.0]).unwrap();
    assert!(bot.table.get(&key).unwrap().is_some());
    assert_eq!(respond(&mut bot, "FISH qqq").unwrap().plain, "Today's fish is trout");
}

#[test]
fn the_nearer_of_two_prompts_answers() {
    let mut bot = bot();
    insert(&mut bot, "fish", "trout").unwrap();
    insert(&mut bot, "chips", "fried").unwrap();
    assert_eq!(respond(&mut bot, "fish").unwrap().plain, "trout");
    assert_eq!(respond(&mut bot, "chips").unwrap().plain, "fried");
}

#[test]
fn two_responses_for_one_prompt_both_come_up() {
    let mut bot = bot();
    insert(&mut bot, "fish", "A").unwrap();
    insert(&mut bot, "fish", "B").unwrap();
    let mut seen_a = false;
    let mut seen_b = false;
    for _ in 0..400 {
        match respond(&mut bot, "fish").unwrap().plain.as_str() {
            "A" => seen_a = true,
            "B" => seen_b = true,
            other => panic!("{:?} was never stored", other),
        }
    }
    assert!(seen_a && seen_b);
}

#[test]
fn two_responses_for_one_prompt_share_one_bucket() {
    let mut bot = bot();
    insert(&mut bot, "fish", "A").unwrap();
    insert(&mut bot, "fish", "B").unwrap();
    assert_eq!(bot.table.len(), 1);
    let key = serde_cbor::to_vec(&vec![1.0f64, 0.0]).unwrap();
    let stored = serde_cbor::from_slice::<Stored>(&bot.table.get(&key).unwrap().unwrap()).unwrap();
    assert_eq!(stored, vec![("A".to_string(), None), ("B".to_string(), None)]);
}

#[test]
fn an_empty_store_has_no_responses() {
    let mut bot = bot();
    assert!(matches!(respond(&mut bot, "fish"), Err(StoreError::NoResponses)));
    assert!(matches!(respond(&mut bot, "chips and fish"), Err(StoreError::NoResponses)));
}

#[test]
fn a_prompt_without_known_words_has_no_vector() {
    let mut bot = bot();
    assert!(matches!(respond(&mut bot, ""), Err(StoreError::NoPromptVector)));
    assert!(matches!(respond(&mut bot, "zzqx"), Err(StoreError::NoPromptVector)));
    insert(&mut bot, "fish", "A").unwrap();
    assert!(matches!(respond(&mut bot, ""), Err(StoreError::NoPromptVector)));
    assert!(matches!(respond(&mut bot, "zzqx"), Err(StoreError::NoPromptVector)));
}

#[test]
fn a_refused_insert_writes_nothing() {
    let mut bot = bot();
    assert!(matches!(insert(&mut bot, "zzqx", "A"), Err(StoreError::NoPromptVector)));
    assert_eq!(bot.table.len(), 0);
    assert!(bot.index.is_empty());
}

#[test]
fn a_node_without_bucket_is_missing_its_responses() {
    let mut bot = bot();
    bot.index.insert(vec![1.0, 0.0], &mut bot.searcher);
    assert!(matches!(respond(&mut bot, "fish"), Err(StoreError::MissingResponses)));
}

#[test]
fn a_key_read_back_is_the_vector_bit_for_bit() {
    let store = ResponseStore::load(Ok(fish_and_chips())).ok().unwrap();
    let search = store.respond("fish chips chips").ok().unwrap();
    let vector = mean(search.selection.vectors());
    let key = serde_cbor::to_vec(&vector).unwrap();
    let back: Vec<f64> = serde_cbor::from_slice(&key).unwrap();
    let before: Vec<u64> = vector.iter().map(|element| element.to_bits()).collect();
    let after: Vec<u64> = back.iter().map(|element| element.to_bits()).collect();
    assert_eq!(before, after);
}

#[test]
fn inserts_that_had_to_run_again_lose_nothing() {
    let store = ResponseStore::load(Ok(fish_and_chips())).ok().unwrap();
    let table = sled::Config::new().temporary(true).open().unwrap();
    let key = serde_cbor::to_vec(&vec![1.0f64, 0.0]).unwrap();
    for i in 0..8 {
        let response = Body { plain: format!("r{}", i), html: None };
        let insertion = store.insert("fish", response).ok().unwrap();
        let mut calls = 0;
        table
            .fetch_and_update(&key, |stored| {
                calls += 1;
                if calls == 1 {
                    let other = Body { plain: format!("other{}", i), html: None };
                    let racing = store.insert("fish", other).ok().unwrap();
                    let seen = table.get(&key).unwrap();
                    let seen = seen.map(|bytes| bodies(serde_cbor::from_slice::<Stored>(&bytes).unwrap()));
                    table.insert(&key, serde_cbor::to_vec(&pairs(racing.bucket(seen))).unwrap()).unwrap();
                }
                let stored =
                    stored.map(|bytes| bodies(serde_cbor::from_slice::<Stored>(bytes).unwrap()));
                Some(serde_cbor::to_vec(&pairs(insertion.bucket(stored))).unwrap())
            })
            .unwrap();
        assert_eq!(calls, 2);
    }
    let stored = serde_cbor::from_slice::<Stored>(&table.get(&key).unwrap().unwrap()).unwrap();
    let mut said: Vec<String> = stored.into_iter().map(|(plain, _)| plain).collect();
    said.sort();
    let mut expected: Vec<String> = (0..8).map(|i| format!("r{}", i)).collect();
    expected.extend((0..8).map(|i| format!("other{}", i)));
    expected.sort();
    assert_eq!(said, expected);
}
