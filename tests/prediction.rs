use text_predict::{BigramRepo, Ranking, WordPattern};

fn qwerty() -> Vec<String> {
    vec!["qwertyuiop".to_string(), "asdfghjkl;".to_string(), "zxcvbnm,./".to_string()]
}

fn probabilities(r: &Ranking) -> Vec<(String, f64)> {
    r.predictions
        .iter()
        .map(|p| (p.word.clone(), p.weight as f64 / r.total as f64))
        .collect()
}

fn store(pairs: &[(&str, &str, usize)]) -> BigramRepo {
    let mut repo = BigramRepo::init();
    for (a, b, n) in pairs {
        for _ in 0..*n {
            repo.upsert(a, b).unwrap();
        }
    }
    repo
}

#[test]
fn predicts_from_context_and_typed_prefix() {
    let repo = store(&[("the", "cat", 5), ("the", "car", 3)]);
    let r = repo.predict("the c", &qwerty());
    assert_eq!(r.total, 8);
    assert_eq!(
        probabilities(&r),
        vec![("cat".to_string(), 0.625), ("car".to_string(), 0.375)]
    );
}

#[test]
fn typo_on_neighbouring_key_still_matches() {
    let repo = store(&[("the", "cat", 2), ("the", "dog", 1)]);
    // 'e', 'd' and 'c' share a column on this layout.
    let r = repo.predict("the e", &qwerty());
    let words: Vec<String> = r.predictions.iter().map(|p| p.word.clone()).collect();
    assert_eq!(words, vec!["cat", "dog"]);
    let r = repo.predict("the x", &qwerty());
    assert!(r.predictions.is_empty());
}

#[test]
fn unknown_context_falls_back_to_the_typed_word_alone() {
    let repo = store(&[("a", "cat", 1), ("b", "cat", 2), ("b", "cow", 1)]);
    let with_context = repo.predict("zebra c", &qwerty());
    let without = repo.predict("c", &qwerty());
    assert_eq!(with_context.total, without.total);
    assert_eq!(probabilities(&with_context), probabilities(&without));
    assert_eq!(probabilities(&without), vec![("cat".to_string(), 0.75), ("cow".to_string(), 0.25)]);
}

#[test]
fn trailing_space_predicts_any_next_word() {
    let repo = store(&[("the", "cat", 1), ("the", "dog", 3), ("a", "cat", 7)]);
    let r = repo.predict("the ", &qwerty());
    assert_eq!(probabilities(&r), vec![("dog".to_string(), 0.75), ("cat".to_string(), 0.25)]);
}

#[test]
fn empty_text_ranks_every_second_word() {
    let repo = store(&[("the", "cat", 1), ("a", "cat", 1), ("the", "dog", 1)]);
    let r = repo.predict("", &qwerty());
    assert_eq!(r.total, 3);
    let words: Vec<String> = r.predictions.iter().map(|p| p.word.clone()).collect();
    assert_eq!(words, vec!["cat", "dog"]);
    let empty = BigramRepo::init().predict("", &qwerty());
    assert_eq!(empty.total, 0);
    assert!(empty.predictions.is_empty());
}

#[test]
fn probabilities_add_up_to_one() {
    let repo = store(&[("x", "a", 3), ("x", "b", 1), ("y", "a", 2), ("y", "c", 5), ("z", "d", 4)]);
    let r = repo.match_and_rank(&WordPattern::Any, &WordPattern::Any);
    assert_eq!(r.total, 15);
    let sum: f64 = probabilities(&r).iter().map(|(_, p)| p).sum();
    assert!((sum - 1.0).abs() < 1e-9);
    let weights: Vec<(String, u128)> = r.predictions.iter().map(|p| (p.word.clone(), p.weight)).collect();
    assert_eq!(
        weights,
        vec![
            ("a".to_string(), 5),
            ("c".to_string(), 5),
            ("d".to_string(), 4),
            ("b".to_string(), 1)
        ]
    );
}

#[test]
fn exact_first_word_pattern() {
    let repo = store(&[("x", "a", 3), ("xy", "b", 1)]);
    let r = repo.match_and_rank(&WordPattern::Exact(vec!['x']), &WordPattern::Any);
    assert_eq!(r.total, 3);
    assert_eq!(r.predictions.len(), 1);
    assert_eq!(r.predictions[0].word, "a");
    let r = repo.find_predictions(Some("x"), None, &qwerty());
    assert_eq!(r.total, 3);
    let r = repo.find_predictions(Some("nothing"), None, &qwerty());
    assert_eq!(r.total, 0);
    assert!(r.predictions.is_empty());
}

#[test]
fn predict_words_uses_the_given_words() {
    let repo = store(&[("hola", "niño", 2), ("hola", "nube", 1)]);
    let words = vec!["hola".to_string(), "ni".to_string()];
    let r = repo.predict_words(&words, false, &qwerty());
    let names: Vec<String> = r.predictions.iter().map(|p| p.word.clone()).collect();
    assert_eq!(names, vec!["niño"]);
}
