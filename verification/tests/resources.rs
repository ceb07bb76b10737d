use queries_resources::cache::{
    clusters_cached, gazetteer_cached, gazetteer_catalogue, stems_cached, Lang, ResourceCache,
    ResourceName,
};
use queries_resources::gazetteer::parse_gazetteer;
use queries_resources::records::parse_delimited;
use queries_resources::stems::{de, en, no_stem, stem_table};
use queries_resources::text::{join_with_space, split_str, tokenize_light};
use queries_resources::word_clusters::{brown_clusters, parse_clusters};
use queries_resources::word_map::WordMap;
use queries_resources::{normalize, Error};

fn get<'a>(m: &'a WordMap, key: &str) -> Option<&'a String> {
    m.get(&key.to_string())
}

#[test]
fn normalize_case_folds() {
    assert_eq!(normalize("AbC"), "abc");
    assert_eq!(normalize("New York"), "new york");
    assert_eq!(normalize("42 Streets!"), "42 streets!");
}

#[test]
fn normalize_is_idempotent() {
    for raw in ["HeLLo WorLD", "already lower", "MIXED 42!", ""] {
        let once = normalize(raw);
        let twice = normalize(&once);
        assert_eq!(twice, once);
    }
}

#[test]
fn tokenize_splits_on_whitespace() {
    assert_eq!(tokenize_light("new york"), vec!["new", "york"]);
    assert_eq!(tokenize_light("  a\t b  "), vec!["a", "b"]);
    assert_eq!(tokenize_light(""), Vec::<String>::new());
    assert_eq!(tokenize_light("   "), Vec::<String>::new());
}

#[test]
fn join_puts_single_spaces() {
    let tokens = vec!["new".to_string(), "york".to_string()];
    assert_eq!(join_with_space(&tokens), "new york");
    assert_eq!(join_with_space(&vec!["solo".to_string()]), "solo");
    assert_eq!(join_with_space(&Vec::new()), "");
}

#[test]
fn split_keeps_empty_parts() {
    assert_eq!(split_str("a,,b", ','), vec!["a", "", "b"]);
    assert_eq!(split_str("", ','), vec![""]);
    assert_eq!(split_str("a,", ','), vec!["a", ""]);
}

#[test]
fn parser_rejects_one_column() {
    match parse_delimited(b"a\n", 59) {
        Err(Error::InvalidRow { columns }) => assert_eq!(columns, 1),
        other => panic!("expected a row-shape failure, got {:?}", other),
    }
}

#[test]
fn parser_rejects_three_columns() {
    match parse_delimited(b"a;b;c\n", 59) {
        Err(Error::InvalidRow { columns }) => assert_eq!(columns, 3),
        other => panic!("expected a row-shape failure, got {:?}", other),
    }
}

#[test]
fn parser_accepts_two_columns() {
    let pairs = parse_delimited(b"a;b\n", 59).unwrap();
    assert_eq!(pairs, vec![("a".to_string(), "b".to_string())]);
}

#[test]
fn parser_accepts_quoted_delimiter() {
    let pairs = parse_delimited(b"\"a;x\";b\n", 59).unwrap();
    assert_eq!(pairs, vec![("a;x".to_string(), "b".to_string())]);
}

#[test]
fn stems_from_inflections_with_fallback() {
    let m = en(b"ran;run\n", b"").unwrap();
    assert_eq!(get(&m, "ran").unwrap(), "run");
    assert!(get(&m, "running").is_none());
    assert_eq!(m.stem_of("running".to_string()), "running");
}

#[test]
fn stems_from_lexemes() {
    let m = de(b"be;am,is,are\n").unwrap();
    assert_eq!(get(&m, "am").unwrap(), "be");
    assert_eq!(get(&m, "is").unwrap(), "be");
    assert_eq!(get(&m, "are").unwrap(), "be");
    assert_eq!(m.stem_of("was".to_string()), "was");
}

#[test]
fn stems_are_normalized_both_sides() {
    let m = en(b"RAN;RuN\n", b"").unwrap();
    assert_eq!(get(&m, "ran").unwrap(), "run");
    assert!(get(&m, "RAN").is_none());
}

#[test]
fn lexeme_entry_wins_on_collision() {
    let m = stem_table(b"ran;run\n", b"go;ran\n").unwrap();
    assert_eq!(get(&m, "ran").unwrap(), "go");
}

#[test]
fn later_inflection_row_wins() {
    let m = en(b"ran;run\nran;walk\n", b"").unwrap();
    assert_eq!(get(&m, "ran").unwrap(), "walk");
}

#[test]
fn stem_build_is_idempotent() {
    let m1 = en(b"ran;run\nsaw;see\n", b"be;am,is\n").unwrap();
    let m2 = en(b"ran;run\nsaw;see\n", b"be;am,is\n").unwrap();
    for key in ["ran", "saw", "am", "is", "missing"] {
        assert_eq!(
            get(&m1, key).map(|s| s.as_str()),
            get(&m2, key).map(|s| s.as_str())
        );
    }
}

#[test]
fn stem_build_rejects_malformed_source() {
    match en(b"ran;run;extra\n", b"") {
        Err(Error::InvalidRow { columns }) => assert_eq!(columns, 3),
        other => panic!("expected a row-shape failure, got {:?}", other),
    }
}

#[test]
fn no_stem_returns_input() {
    assert_eq!(no_stem("Word".to_string()), "Word");
}

#[test]
fn brown_clusters_verbatim() {
    let m = brown_clusters(b"dog\t001\ncat\t002\n").unwrap();
    assert_eq!(get(&m, "dog").unwrap(), "001");
    assert_eq!(get(&m, "cat").unwrap(), "002");
}

#[test]
fn clusters_are_not_normalized() {
    let m = parse_clusters(b"Dog\tX\n").unwrap();
    assert_eq!(get(&m, "Dog").unwrap(), "X");
    assert!(get(&m, "dog").is_none());
}

#[test]
fn clusters_reject_one_column() {
    match parse_clusters(b"dog\n") {
        Err(Error::InvalidRow { columns }) => assert_eq!(columns, 1),
        other => panic!("expected a row-shape failure, got {:?}", other),
    }
}

#[test]
fn gazetteer_ignores_blank_lines() {
    let g = parse_gazetteer(b"New York\n\nParis\n", None).unwrap();
    assert_eq!(g.len(), 2);
    assert!(g.contains(&"new york".to_string()));
    assert!(g.contains(&"paris".to_string()));
    assert!(!g.contains(&"New York".to_string()));
}

#[test]
fn gazetteer_tolerates_carriage_returns() {
    let g = parse_gazetteer(b"Paris\r\nRome\r\n", None).unwrap();
    assert_eq!(g.len(), 2);
    assert!(g.contains(&"paris".to_string()));
    assert!(g.contains(&"rome".to_string()));
}

#[test]
fn gazetteer_collapses_extra_spaces() {
    let g = parse_gazetteer(b"New   York\n", None).unwrap();
    assert_eq!(g.len(), 1);
    assert!(g.contains(&"new york".to_string()));
}

#[test]
fn gazetteer_deduplicates_entries() {
    let g = parse_gazetteer(b"Paris\nPARIS\nparis\n", None).unwrap();
    assert_eq!(g.len(), 1);
    assert!(g.contains(&"paris".to_string()));
}

#[test]
fn gazetteer_rejects_bytes_that_are_not_text() {
    match parse_gazetteer(&[0xff, 0xfe, b'\n'], None) {
        Err(Error::Source(_)) => {}
        other => panic!("expected a stream failure, got {:?}", other),
    }
}

#[test]
fn stemmed_gazetteer_rewrites_each_token() {
    let stems = en(b"ran;run\n", b"").unwrap();
    let unstemmed = parse_gazetteer(b"He ran\n", None).unwrap();
    let stemmed = parse_gazetteer(b"He ran\n", Some(&stems)).unwrap();
    assert!(unstemmed.contains(&"he ran".to_string()));
    assert!(stemmed.contains(&"he run".to_string()));

    let tokens = tokenize_light(&normalize("He ran"));
    let restemmed: Vec<String> = tokens.into_iter().map(|t| stems.stem_of(t)).collect();
    assert!(stemmed.contains(&join_with_space(&restemmed)));
}

#[test]
fn gazetteer_build_is_idempotent() {
    let g1 = parse_gazetteer(b"New York\nParis\n", None).unwrap();
    let g2 = parse_gazetteer(b"New York\nParis\n", None).unwrap();
    assert_eq!(g1.len(), g2.len());
    for entry in ["new york", "paris"] {
        assert_eq!(
            g1.contains(&entry.to_string()),
            g2.contains(&entry.to_string())
        );
    }
}

#[test]
fn cached_stems_serve_repeated_requests() {
    let mut cache = ResourceCache::new();
    let m1 = stems_cached(&mut cache, Lang::En, Some(b"ran;run\n"), b"").unwrap();
    let m2 = stems_cached(&mut cache, Lang::En, Some(b"ran;run\n"), b"").unwrap();
    assert_eq!(get(&m1, "ran").unwrap(), "run");
    assert_eq!(get(&m2, "ran").unwrap(), "run");
}

#[test]
fn cached_identities_are_independent() {
    let mut cache = ResourceCache::new();
    let m_en = stems_cached(&mut cache, Lang::En, Some(b"ran;run\n"), b"").unwrap();
    let m_de = stems_cached(&mut cache, Lang::De, None, b"sein;bin,ist\n").unwrap();
    assert_eq!(get(&m_en, "ran").unwrap(), "run");
    assert!(get(&m_en, "bin").is_none());
    assert_eq!(get(&m_de, "bin").unwrap(), "sein");
}

#[test]
fn cached_clusters_and_gazetteers() {
    let mut clusters = ResourceCache::new();
    let c1 = clusters_cached(&mut clusters, Lang::En, ResourceName::BrownClusters, b"dog\t001\n").unwrap();
    let c2 = clusters_cached(&mut clusters, Lang::En, ResourceName::BrownClusters, b"dog\t001\n").unwrap();
    assert_eq!(get(&c1, "dog").unwrap(), "001");
    assert_eq!(get(&c2, "dog").unwrap(), "001");

    let mut gazetteers = ResourceCache::new();
    let g1 = gazetteer_cached(&mut gazetteers, Lang::Fr, ResourceName::CitiesFrance, b"Paris\n", None).unwrap();
    let g2 = gazetteer_cached(&mut gazetteers, Lang::Fr, ResourceName::CitiesFrance, b"Paris\n", None).unwrap();
    assert!(g1.contains(&"paris".to_string()));
    assert!(g2.contains(&"paris".to_string()));
}

#[test]
fn cached_failure_is_cached() {
    let mut cache = ResourceCache::new();
    match stems_cached(&mut cache, Lang::Es, Some(b"bad row\n"), b"") {
        Err(Error::InvalidRow { columns }) => assert_eq!(columns, 1),
        other => panic!("expected a row-shape failure, got {:?}", other),
    }
    match stems_cached(&mut cache, Lang::Es, Some(b"era;ser\n"), b"") {
        Err(Error::InvalidRow { columns }) => assert_eq!(columns, 1),
        other => panic!("expected the cached failure, got {:?}", other),
    }
}

#[test]
fn empty_sources_build_empty_tables() {
    let m = en(b"", b"").unwrap();
    assert!(get(&m, "anything").is_none());
    let g = parse_gazetteer(b"", None).unwrap();
    assert_eq!(g.len(), 0);
}

#[test]
fn catalogues_are_fixed_per_language() {
    assert_eq!(gazetteer_catalogue(Lang::En).len(), 8);
    assert_eq!(gazetteer_catalogue(Lang::Fr).len(), 8);
    assert_eq!(gazetteer_catalogue(Lang::De).len(), 6);
    assert_eq!(gazetteer_catalogue(Lang::Es).len(), 0);
    assert!(gazetteer_catalogue(Lang::En).contains(&ResourceName::CitiesUs));
    assert!(gazetteer_catalogue(Lang::De).contains(&ResourceName::LanderGermany));
}

#[test]
fn errors_describe_themselves() {
    let shape = parse_delimited(b"a\n", 59).unwrap_err();
    assert!(!shape.describe().is_empty());
    match parse_gazetteer(&[0xff], None) {
        Err(e) => assert!(!e.describe().is_empty()),
        Ok(_) => panic!("expected a failure on bytes that are not text"),
    }
}

#[test]
fn all_languages_build_from_their_sources() {
    let fr_map = queries_resources::stems::fr(b"chevaux;cheval\n", b"aller;vais,vas\n").unwrap();
    assert_eq!(get(&fr_map, "chevaux").unwrap(), "cheval");
    assert_eq!(get(&fr_map, "vais").unwrap(), "aller");
    let es_map = queries_resources::stems::es(b"era;ser\n", b"ir;voy,vas\n").unwrap();
    assert_eq!(get(&es_map, "era").unwrap(), "ser");
    assert_eq!(get(&es_map, "vas").unwrap(), "ir");
}
