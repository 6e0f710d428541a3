use social_network::word_db::{Word, WordCatalogStore};

#[test]
fn same_word_two_languages_scenario() {
    let mut store = WordCatalogStore::new();
    assert_eq!(store.add_word("casa", "es"), Ok(()));
    assert_eq!(store.add_word("casa", "en"), Ok(()));
    let words = store.fetch_words_from_db().unwrap();
    assert_eq!(words.len(), 2);
    assert!(words.contains(&Word {
        word: String::from("casa"),
        language: String::from("es"),
    }));
    assert!(words.contains(&Word {
        word: String::from("casa"),
        language: String::from("en"),
    }));
}

#[test]
fn adding_twice_keeps_one_entry() {
    let mut store = WordCatalogStore::new();
    assert_eq!(store.add_word("casa", "es"), Ok(()));
    assert_eq!(store.add_word("casa", "es"), Ok(()));
    let words = store.fetch_words_from_db().unwrap();
    let matching = words
        .iter()
        .filter(|w| w.word == "casa" && w.language == "es")
        .count();
    assert_eq!(matching, 1);
    assert_eq!(words.len(), 1);
}

#[test]
fn exists_false_before_add_true_after() {
    let mut store = WordCatalogStore::new();
    assert!(!store.word_exists("casa", "es"));
    assert_eq!(store.add_word("casa", "es"), Ok(()));
    assert!(store.word_exists("casa", "es"));
}

#[test]
fn exists_matches_exactly_without_normalization() {
    let mut store = WordCatalogStore::new();
    assert_eq!(store.add_word("Casa", "es"), Ok(()));
    assert!(!store.word_exists("casa", "es"));
    assert!(!store.word_exists("Casa", "ES"));
    assert!(store.word_exists("Casa", "es"));
}

#[test]
fn fresh_catalog_lists_nothing() {
    let store = WordCatalogStore::new();
    assert_eq!(store.fetch_words_from_db().unwrap().len(), 0);
}

#[test]
fn listing_reflects_every_entry() {
    let mut store = WordCatalogStore::new();
    assert_eq!(store.add_word("perro", "es"), Ok(()));
    assert_eq!(store.add_word("dog", "en"), Ok(()));
    assert_eq!(store.add_word("chien", "fr"), Ok(()));
    let words = store.fetch_words_from_db().unwrap();
    assert_eq!(words.len(), 3);
    for (word, language) in [("perro", "es"), ("dog", "en"), ("chien", "fr")] {
        assert!(store.word_exists(word, language));
        assert!(words.contains(&Word {
            word: String::from(word),
            language: String::from(language),
        }));
    }
}
