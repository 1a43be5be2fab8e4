use repeatlint::cache::{calculate_hash, CacheAction, ResourceCache};
use repeatlint::filter::{contains_text, is_ignored, leading_component};
use repeatlint::index::build_index;
use repeatlint::lexicon::user_lexicon;
use repeatlint::model::{Config, LexKind, Span, Token, WordKey};
use repeatlint::pipeline::is_well_formed;
use repeatlint::score::{nearest_gap, score, span_gap};

fn word(id: u32) -> WordKey {
    WordKey { kind: LexKind::System, word_id: id }
}

fn token(surface: &str, start: usize, end: usize, feature: &str, id: u32) -> Token {
    Token {
        surface: surface.to_string(),
        span: Span { start, end },
        feature: feature.to_string(),
        word: word(id),
    }
}

fn config(threshold: usize, ignore_pos: &[&str], ignore_words: &[&str]) -> Config {
    Config {
        distance_threshold: threshold,
        proper_nouns: Vec::new(),
        ignore_pos: ignore_pos.iter().map(|s| s.to_string()).collect(),
        ignore_words: ignore_words.iter().map(|s| s.to_string()).collect(),
    }
}

#[test]
fn leading_component_stops_at_first_comma() {
    assert_eq!(leading_component("名詞,普通名詞,一般"), "名詞");
    assert_eq!(leading_component("助詞,格助詞"), "助詞");
}

#[test]
fn leading_component_without_comma_is_whole_text() {
    assert_eq!(leading_component("名詞"), "名詞");
    assert_eq!(leading_component(""), "");
}

#[test]
fn leading_component_of_leading_comma_is_empty() {
    assert_eq!(leading_component(",x"), "");
}

#[test]
fn contains_text_matches_exactly() {
    let list: Vec<String> = vec!["助詞".to_string(), "記号".to_string()];
    assert!(contains_text(&list, &"記号".to_string()));
    assert!(!contains_text(&list, &"記".to_string()));
    assert!(!contains_text(&Vec::new(), &"記号".to_string()));
}

#[test]
fn token_ignored_by_part_of_speech() {
    let cfg = config(5, &["助詞"], &[]);
    assert!(is_ignored(&token("が", 1, 2, "助詞,格助詞", 2), &cfg));
    assert!(!is_ignored(&token("猫", 0, 1, "名詞,普通名詞", 1), &cfg));
}

#[test]
fn token_ignored_by_surface() {
    let cfg = config(5, &[], &["猫"]);
    assert!(is_ignored(&token("猫", 0, 1, "名詞,普通名詞", 1), &cfg));
    assert!(!is_ignored(&token("猫たち", 0, 3, "名詞,普通名詞", 3), &cfg));
}

#[test]
fn part_of_speech_match_is_not_partial() {
    let cfg = config(5, &["名"], &[]);
    assert!(!is_ignored(&token("猫", 0, 1, "名詞,普通名詞", 1), &cfg));
    let cfg2 = config(5, &["名詞,普通名詞"], &[]);
    assert!(!is_ignored(&token("猫", 0, 1, "名詞,普通名詞", 1), &cfg2));
}

#[test]
fn span_gap_is_symmetric_distance_between_ranges() {
    let a = Span { start: 0, end: 1 };
    let b = Span { start: 6, end: 7 };
    assert_eq!(span_gap(a, b), 5);
    assert_eq!(span_gap(b, a), 5);
    let c = Span { start: 1, end: 2 };
    assert_eq!(span_gap(a, c), 0);
    assert_eq!(span_gap(c, a), 0);
}

#[test]
fn nearest_gap_takes_the_closest_sibling() {
    let spans = vec![
        Span { start: 0, end: 2 },
        Span { start: 10, end: 12 },
        Span { start: 15, end: 17 },
    ];
    assert_eq!(nearest_gap(&spans, 0), Some(8));
    assert_eq!(nearest_gap(&spans, 1), Some(3));
    assert_eq!(nearest_gap(&spans, 2), Some(3));
}

#[test]
fn nearest_gap_of_lone_range_is_none() {
    let spans = vec![Span { start: 4, end: 9 }];
    assert_eq!(nearest_gap(&spans, 0), None);
}

#[test]
fn index_groups_ranges_by_word_in_document_order() {
    let tokens = vec![
        token("猫", 0, 1, "名詞", 1),
        token("が", 1, 2, "助詞", 2),
        token("猫", 2, 3, "名詞", 1),
        token("犬", 3, 4, "名詞", 3),
        token("猫", 4, 5, "名詞", 1),
    ];
    let index = build_index(&tokens, &config(5, &[], &[]));
    assert_eq!(index.groups.len(), 3);
    assert_eq!(index.groups[0].word, word(1));
    assert_eq!(
        index.groups[0].spans,
        vec![Span { start: 0, end: 1 }, Span { start: 2, end: 3 }, Span { start: 4, end: 5 }]
    );
    assert_eq!(index.groups[1].word, word(2));
    assert_eq!(index.groups[1].spans, vec![Span { start: 1, end: 2 }]);
    assert_eq!(index.groups[2].word, word(3));
    assert_eq!(index.groups[2].spans, vec![Span { start: 3, end: 4 }]);
}

#[test]
fn index_leaves_out_ignored_tokens() {
    let tokens = vec![
        token("猫", 0, 1, "名詞", 1),
        token("が", 1, 2, "助詞,格助詞", 2),
        token("犬", 2, 3, "名詞", 3),
        token("が", 3, 4, "助詞,格助詞", 2),
    ];
    let index = build_index(&tokens, &config(5, &["助詞"], &["犬"]));
    assert_eq!(index.groups.len(), 1);
    assert_eq!(index.groups[0].word, word(1));
    assert_eq!(index.groups[0].spans, vec![Span { start: 0, end: 1 }]);
}

#[test]
fn index_tells_words_apart_by_lexicon_kind() {
    let mut user = token("猫", 1, 2, "名詞", 1);
    user.word = WordKey { kind: LexKind::User, word_id: 1 };
    let tokens = vec![token("猫", 0, 1, "名詞", 1), user];
    let index = build_index(&tokens, &config(5, &[], &[]));
    assert_eq!(index.groups.len(), 2);
}

#[test]
fn score_annotates_repeated_words_only() {
    let tokens = vec![
        token("猫", 0, 1, "名詞", 1),
        token("が", 1, 2, "助詞", 2),
        token("犬", 2, 3, "名詞", 3),
        token("猫", 6, 7, "名詞", 1),
        token("猫", 9, 10, "名詞", 1),
    ];
    let index = build_index(&tokens, &config(5, &[], &[]));
    let annotations = score(&index);
    assert_eq!(annotations.len(), 3);
    assert_eq!(annotations.get(&0), Some(&5));
    assert_eq!(annotations.get(&6), Some(&2));
    assert_eq!(annotations.get(&9), Some(&2));
    assert_eq!(annotations.get(&1), None);
    assert_eq!(annotations.get(&2), None);
}

#[test]
fn score_of_empty_index_is_empty() {
    let index = build_index(&Vec::new(), &config(5, &[], &[]));
    assert!(index.groups.is_empty());
    assert!(score(&index).is_empty());
}

#[test]
fn well_formed_stream_is_accepted() {
    let tokens = vec![token("猫", 0, 1, "名詞", 1), token("が", 1, 2, "助詞", 2), token("犬", 4, 5, "名詞", 3)];
    assert!(is_well_formed(&tokens));
    assert!(is_well_formed(&Vec::new()));
}

#[test]
fn malformed_streams_are_refused() {
    assert!(!is_well_formed(&vec![token("猫", 3, 1, "名詞", 1)]));
    assert!(!is_well_formed(&vec![token("猫", 0, 2, "名詞", 1), token("犬", 1, 3, "名詞", 3)]));
    assert!(!is_well_formed(&vec![token("猫", 0, 0, "名詞", 1), token("犬", 0, 1, "名詞", 3)]));
    assert!(!is_well_formed(&vec![token("猫", 2, 3, "名詞", 1), token("犬", 0, 1, "名詞", 3)]));
}

#[test]
fn user_lexicon_lists_one_entry_a_line() {
    let mut cfg = config(5, &[], &[]);
    cfg.proper_nouns = vec!["太郎".to_string(), "花子".to_string()];
    assert_eq!(user_lexicon(&cfg), "太郎,1293,1293,0,固有名詞\n花子,1293,1293,0,固有名詞");
}

#[test]
fn user_lexicon_of_one_noun_has_no_line_end() {
    let mut cfg = config(5, &[], &[]);
    cfg.proper_nouns = vec!["太郎".to_string()];
    assert_eq!(user_lexicon(&cfg), "太郎,1293,1293,0,固有名詞");
}

#[test]
fn user_lexicon_without_nouns_is_empty() {
    assert_eq!(user_lexicon(&config(5, &[], &[])), "");
}

#[test]
fn equal_configs_hash_alike() {
    let a = config(5, &["助詞"], &["猫"]);
    let b = config(5, &["助詞"], &["猫"]);
    assert_eq!(calculate_hash(&a), calculate_hash(&b));
    assert_eq!(calculate_hash(&a), calculate_hash(&a));
}

#[test]
fn changed_configs_hash_apart() {
    let base = calculate_hash(&config(5, &["助詞"], &["猫"]));
    assert_ne!(base, calculate_hash(&config(6, &["助詞"], &["猫"])));
    assert_ne!(base, calculate_hash(&config(5, &["助詞", "記号"], &["猫"])));
    assert_ne!(base, calculate_hash(&config(5, &["助詞"], &[])));
    assert_ne!(base, calculate_hash(&config(5, &[], &["助詞", "猫"])));
    let mut nouns = config(5, &["助詞"], &["猫"]);
    nouns.proper_nouns = vec!["太郎".to_string()];
    assert_ne!(base, calculate_hash(&nouns));
}

fn serve(cache: &mut ResourceCache<String>, cfg: &Config, builds: &mut u32) -> String {
    let hash: u64 = calculate_hash(cfg);
    let served: Result<(), String> = cache.serve(hash, || {
        *builds += 1;
        Ok(format!("built for {}", cfg.distance_threshold))
    });
    assert_eq!(served, Ok(()));
    cache.resource().unwrap().clone()
}

#[test]
fn failed_build_is_reported_and_changes_nothing() {
    let mut cache: ResourceCache<String> = ResourceCache::new();
    let mut builds: u32 = 0;
    let old = config(5, &[], &[]);
    serve(&mut cache, &old, &mut builds);
    let broken: Result<(), String> =
        cache.serve(calculate_hash(&config(6, &[], &[])), || Err("no dictionary".to_string()));
    assert_eq!(broken, Err("no dictionary".to_string()));
    assert_eq!(cache.resource(), Some(&"built for 5".to_string()));
    assert_eq!(serve(&mut cache, &old, &mut builds), "built for 5");
    assert_eq!(builds, 1);
}

#[test]
fn failed_first_build_leaves_the_cache_empty() {
    let mut cache: ResourceCache<u32> = ResourceCache::new();
    let broken: Result<(), u8> = cache.serve(4, || Err(7));
    assert_eq!(broken, Err(7));
    assert!(cache.resource().is_none());
    let mended: Result<(), u8> = cache.serve(4, || Ok(9));
    assert_eq!(mended, Ok(()));
    assert_eq!(cache.resource(), Some(&9));
}

#[test]
fn ignore_lists_hash_as_sets() {
    let base = calculate_hash(&config(5, &["助詞", "記号"], &["猫", "犬"]));
    assert_eq!(base, calculate_hash(&config(5, &["記号", "助詞"], &["犬", "猫"])));
    assert_eq!(base, calculate_hash(&config(5, &["助詞", "記号", "助詞"], &["猫", "犬", "犬"])));
    assert_ne!(base, calculate_hash(&config(5, &["猫", "犬"], &["助詞", "記号"])));
    assert_ne!(base, calculate_hash(&config(5, &["助詞"], &["猫", "犬"])));
}

#[test]
fn proper_nouns_hash_in_order_and_apart() {
    let mut a = config(5, &[], &[]);
    a.proper_nouns = vec!["ab".to_string(), "c".to_string()];
    let mut b = config(5, &[], &[]);
    b.proper_nouns = vec!["a".to_string(), "bc".to_string()];
    let mut c = config(5, &[], &[]);
    c.proper_nouns = vec!["c".to_string(), "ab".to_string()];
    assert_ne!(calculate_hash(&a), calculate_hash(&b));
    assert_ne!(calculate_hash(&a), calculate_hash(&c));
}

#[test]
fn index_finds_groups_of_many_words() {
    let mut tokens: Vec<Token> = Vec::new();
    for i in 0..200usize {
        tokens.push(token("語", i, i + 1, "名詞", (i % 50) as u32));
    }
    let index = build_index(&tokens, &config(5, &[], &[]));
    assert_eq!(index.groups.len(), 50);
    for g in 0..50usize {
        assert_eq!(index.groups[g].word, word(g as u32));
        assert_eq!(index.groups[g].spans.len(), 4);
        assert_eq!(index.groups[g].spans[1], Span { start: g + 50, end: g + 51 });
    }
}

#[test]
fn cache_builds_once_for_one_config() {
    let mut cache: ResourceCache<String> = ResourceCache::new();
    let mut builds: u32 = 0;
    let cfg = config(5, &["助詞"], &[]);
    assert_eq!(serve(&mut cache, &cfg, &mut builds), "built for 5");
    assert_eq!(builds, 1);
    assert_eq!(serve(&mut cache, &config(5, &["助詞"], &[]), &mut builds), "built for 5");
    assert_eq!(builds, 1);
}

#[test]
fn cache_rebuilds_once_for_changed_config() {
    let mut cache: ResourceCache<String> = ResourceCache::new();
    let mut builds: u32 = 0;
    serve(&mut cache, &config(5, &[], &[]), &mut builds);
    assert_eq!(serve(&mut cache, &config(7, &[], &[]), &mut builds), "built for 7");
    assert_eq!(builds, 2);
    assert_eq!(serve(&mut cache, &config(7, &[], &[]), &mut builds), "built for 7");
    assert_eq!(builds, 2);
}

#[test]
fn empty_cache_asks_for_a_build_and_holds_nothing() {
    let cache: ResourceCache<u32> = ResourceCache::new();
    assert_eq!(cache.request(0), CacheAction::Rebuild);
    assert!(cache.resource().is_none());
}

#[test]
fn failed_build_leaves_the_slot_as_it_was() {
    let mut cache: ResourceCache<u32> = ResourceCache::new();
    cache.publish(11, 1);
    assert_eq!(cache.request(12), CacheAction::Rebuild);
    assert!(!cache.complete(12, None));
    assert_eq!(cache.resource(), Some(&1));
    assert_eq!(cache.request(11), CacheAction::Reuse);
    assert_eq!(cache.request(12), CacheAction::Rebuild);
}

#[test]
fn failed_build_leaves_an_empty_slot_empty() {
    let mut cache: ResourceCache<u32> = ResourceCache::new();
    assert!(!cache.complete(3, None));
    assert!(cache.resource().is_none());
    assert_eq!(cache.request(3), CacheAction::Rebuild);
}

#[test]
fn finished_build_replaces_the_resource() {
    let mut cache: ResourceCache<u32> = ResourceCache::new();
    assert!(cache.complete(11, Some(1)));
    assert!(cache.complete(12, Some(2)));
    assert_eq!(cache.resource(), Some(&2));
    assert_eq!(cache.request(12), CacheAction::Reuse);
    assert_eq!(cache.request(11), CacheAction::Rebuild);
}
