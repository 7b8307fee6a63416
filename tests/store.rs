use text_predict::{BigramRepo, StoreError};

fn pairs(repo: &BigramRepo) -> Vec<(String, String, u64)> {
    repo.find_all(Some(1000), None)
        .into_iter()
        .map(|b| (b.first, b.second, b.count))
        .collect()
}

#[test]
fn repeated_upsert_keeps_one_record() {
    let mut repo = BigramRepo::init();
    for _ in 0..5 {
        assert_eq!(repo.upsert("hello", "world"), Ok::<(), StoreError>(()));
    }
    assert_eq!(pairs(&repo), vec![("hello".to_string(), "world".to_string(), 5)]);
    assert_eq!(repo.len(), 1);
}

#[test]
fn reversed_pair_is_a_different_record() {
    let mut repo = BigramRepo::init();
    repo.upsert("a", "b").unwrap();
    repo.upsert("b", "a").unwrap();
    assert_eq!(repo.len(), 2);
    let p = pairs(&repo);
    assert!(p.contains(&("a".to_string(), "b".to_string(), 1)));
    assert!(p.contains(&("b".to_string(), "a".to_string(), 1)));
}

#[test]
fn find_all_orders_by_count_and_pages() {
    let mut repo = BigramRepo::init();
    repo.upsert("x", "one").unwrap();
    for _ in 0..3 {
        repo.upsert("x", "three").unwrap();
    }
    for _ in 0..2 {
        repo.upsert("x", "two").unwrap();
    }
    repo.upsert("x", "also_one").unwrap();
    let all: Vec<String> = repo.find_all(None, None).into_iter().map(|b| b.second).collect();
    assert_eq!(all, vec!["three", "two", "one", "also_one"]);
    let page: Vec<String> = repo
        .find_all(Some(2), Some(1))
        .into_iter()
        .map(|b| b.second)
        .collect();
    assert_eq!(page, vec!["two", "one"]);
    assert!(repo.find_all(Some(3), Some(10)).is_empty());
    assert!(repo.find_all(Some(0), None).is_empty());
}

#[test]
fn find_all_default_limit_is_ten() {
    let mut repo = BigramRepo::init();
    for i in 0..15 {
        repo.upsert("w", &format!("n{}", i)).unwrap();
    }
    assert_eq!(repo.find_all(None, None).len(), 10);
    assert_eq!(repo.find_all(None, Some(10)).len(), 5);
}

#[test]
fn ingest_records_adjacent_pairs() {
    let mut repo = BigramRepo::init();
    assert_eq!(repo.ingest("Hello world and hello everyone"), Ok(4));
    let p = pairs(&repo);
    assert_eq!(p.len(), 4);
    for (a, b) in [("hello", "world"), ("world", "and"), ("and", "hello"), ("hello", "everyone")] {
        assert!(p.contains(&(a.to_string(), b.to_string(), 1)), "{} {}", a, b);
    }
}

#[test]
fn test_process_text() {
    let mut repo = BigramRepo::init();
    let r = repo.ingest("Hello world and hello everyone, this is a test of the process_text endpoint");
    assert!(r.is_ok());
    // "process_text" loses its underscore and becomes one word.
    assert_eq!(r, Ok(12));
}

#[test]
fn ingest_of_one_word_records_nothing() {
    let mut repo = BigramRepo::init();
    assert_eq!(repo.ingest("alone"), Ok(0));
    assert_eq!(repo.ingest(""), Ok(0));
    assert_eq!(repo.len(), 0);
}

#[test]
fn ingest_words_takes_normalized_words() {
    let mut repo = BigramRepo::init();
    let words = vec!["a".to_string(), "b".to_string(), "a".to_string(), "b".to_string()];
    assert_eq!(repo.ingest_words(&words), Ok(3));
    assert_eq!(pairs(&repo)[0], ("a".to_string(), "b".to_string(), 2));
}
