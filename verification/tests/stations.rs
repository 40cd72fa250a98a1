use waiting_for_a_signal::stations::normalise::{expand_abbreviations, normalise};
use waiting_for_a_signal::stations::{FindResult, StationIndex};

const SAMPLE_CSV: &str = "crs,station_name\nWAT,London Waterloo\nWAE,London Waterloo East\nSUR,Surbiton\nWIM,Wimbledon\nKGX,London Kings Cross\n";

fn make_index(csv: &str) -> StationIndex {
    StationIndex::load(csv)
}

#[test]
fn exact_match() {
    let idx = make_index(SAMPLE_CSV);
    match idx.find("Surbiton") {
        FindResult::Exact(crs) => assert_eq!(crs, "SUR"),
        other => panic!("Expected Exact, got {other:?}"),
    }
}

#[test]
fn partial_match_kings_cross() {
    let idx = make_index(SAMPLE_CSV);
    match idx.find("kings cross") {
        FindResult::Exact(crs) => assert_eq!(crs, "KGX"),
        other => panic!("Expected Exact, got {other:?}"),
    }
}

#[test]
fn by_crs_lookup() {
    let idx = make_index(SAMPLE_CSV);
    let s = idx.by_crs("WAT").expect("WAT should exist");
    assert_eq!(s.name, "London Waterloo");
}

#[test]
fn by_crs_ignores_case() {
    let idx = make_index(SAMPLE_CSV);
    assert_eq!(idx.by_crs("wIm").expect("known").crs, "WIM");
    assert!(idx.by_crs("XXX").is_none());
}

#[test]
fn waterloo_returns_both_stations() {
    let idx = make_index(SAMPLE_CSV);
    match idx.find("waterloo") {
        FindResult::Ambiguous(candidates) => {
            let crss: Vec<&str> = candidates.iter().map(|(_, crs)| crs.as_str()).collect();
            assert!(crss.contains(&"WAT"), "WAT missing from {crss:?}");
            assert!(crss.contains(&"WAE"), "WAE missing from {crss:?}");
        }
        other => panic!("Expected Ambiguous, got {other:?}"),
    }
}

#[test]
fn candidates_have_display_names() {
    let idx = make_index(SAMPLE_CSV);
    match idx.find("waterloo") {
        FindResult::Ambiguous(candidates) => {
            assert_eq!(
                candidates,
                vec![
                    ("London Waterloo (WAT)".to_string(), "WAT".to_string()),
                    ("London Waterloo East (WAE)".to_string(), "WAE".to_string()),
                ]
            );
        }
        other => panic!("Expected Ambiguous, got {other:?}"),
    }
}

#[test]
fn not_found() {
    let idx = make_index(SAMPLE_CSV);
    assert!(matches!(
        idx.find("Nonexistent Station XYZ"),
        FindResult::NotFound
    ));
}

#[test]
fn bare_crs_resolves_exactly() {
    let idx = make_index(SAMPLE_CSV);
    match idx.find("WAT") {
        FindResult::Exact(crs) => assert_eq!(crs, "WAT"),
        other => panic!("Expected Exact, got {other:?}"),
    }
}

#[test]
fn name_with_crs_suffix_resolves_exactly() {
    let idx = make_index(SAMPLE_CSV);
    match idx.find("London Waterloo (WAT)") {
        FindResult::Exact(crs) => assert_eq!(crs, "WAT"),
        other => panic!("Expected Exact, got {other:?}"),
    }
}

#[test]
fn name_with_lowercase_crs_suffix_resolves_exactly() {
    let idx = make_index(SAMPLE_CSV);
    match idx.find("London Waterloo (wat)") {
        FindResult::Exact(crs) => assert_eq!(crs, "WAT"),
        other => panic!("Expected Exact, got {other:?}"),
    }
}

#[test]
fn lowercases_and_strips_punctuation() {
    assert_eq!(normalise("King's Cross"), "kings cross");
}

#[test]
fn strips_london_prefix() {
    assert_eq!(normalise("London Kings Cross"), "kings cross");
}

#[test]
fn collapses_spaces() {
    assert_eq!(normalise("  Waterloo  "), "waterloo");
}

#[test]
fn normalise_keeps_letters_beyond_ascii() {
    assert_eq!(normalise("\u{c9}cole-Nord 2"), "\u{e9}colenord 2");
    assert_eq!(normalise("London Bridge"), "london bridge");
    assert_eq!(normalise("the London Euston"), "the euston");
    assert_eq!(normalise(""), "");
}

#[test]
fn abbreviations_are_expanded_one_after_the_other() {
    assert_eq!(expand_abbreviations("london waterloo east"), "waterloo east");
    assert_eq!(expand_abbreviations("a  st  b"), "a  street  b");
    assert_eq!(expand_abbreviations("mill st lane"), "mill street lane");
    assert_eq!(expand_abbreviations("mill station lane"), "mill station lane");
}

#[test]
fn street_and_ampersand_are_spelled_out() {
    assert_eq!(normalise("High St Kensington"), "high street kensington");
    assert_eq!(normalise("Bury St. Edmunds"), "bury street edmunds");
    assert_eq!(normalise("London Liverpool St"), "liverpool street");
    assert_eq!(normalise("Stone Crossing"), "stone crossing");
    assert_eq!(normalise("St Albans"), "st albans");
    assert_eq!(normalise("  St. Pancras"), "st pancras");
    assert_eq!(normalise("St James St"), "st james street");
    assert_eq!(normalise("& Sons"), "sons");
    assert_eq!(normalise("Sons &"), "sons");
    assert_eq!(normalise("Elephant & Castle"), "elephant and castle");
    assert_eq!(normalise("Harrow&Wealdstone"), "harrowwealdstone");
    let idx = make_index("crs,station_name\nEPH,Elephant & Castle\nBSE,Bury St Edmunds\n");
    match idx.find("elephant and castle") {
        FindResult::Exact(crs) => assert_eq!(crs, "EPH"),
        other => panic!("Expected Exact, got {other:?}"),
    }
    match idx.find("bury street edmunds") {
        FindResult::Exact(crs) => assert_eq!(crs, "BSE"),
        other => panic!("Expected Exact, got {other:?}"),
    }
}

#[test]
fn normalised_names_are_lower_case_words() {
    for name in ["  King's\tCROSS ", "A & B & C", "St. John's Wood (2)", "!!", "London  Euston Sq."] {
        let r = normalise(name);
        assert_eq!(r, normalise(&name.to_ascii_uppercase()));
        assert_eq!(r, normalise(&name.to_ascii_lowercase()));
        for word in r.split(' ') {
            assert!(r.is_empty() || !word.is_empty());
            assert!(word.chars().all(|c| c.is_ascii_lowercase() || c.is_ascii_digit()));
        }
    }
    assert_eq!(normalise("A & B & C"), "a and b c");
}

#[test]
fn candidates_typed_back_are_found() {
    let idx = make_index(SAMPLE_CSV);
    for query in ["waterloo", "", "on"] {
        match idx.find(query) {
            FindResult::Ambiguous(list) => {
                assert!(list.len() >= 2);
                for (shown, crs) in &list {
                    let station = idx.by_crs(crs).expect("known");
                    assert_eq!(shown, &format!("{} ({})", station.name, crs));
                    match idx.find(shown) {
                        FindResult::Exact(found) => assert_eq!(&found, crs),
                        other => panic!("Expected Exact, got {other:?}"),
                    }
                }
            }
            other => panic!("Expected Ambiguous, got {other:?}"),
        }
    }
}

#[test]
fn fuzzy_search_finds_misspelt_names() {
    let idx = make_index(SAMPLE_CSV);
    match idx.find("wimbldon") {
        FindResult::Exact(crs) => assert_eq!(crs, "WIM"),
        other => panic!("Expected Exact, got {other:?}"),
    }
}

#[test]
fn best_scores_win_and_ties_keep_their_order() {
    let idx = make_index(SAMPLE_CSV);
    let scores = vec![Some(60), Some(59), Some(90), Some(60), None];
    match idx.best_of(&scores) {
        FindResult::Ambiguous(list) => {
            let codes: Vec<&str> = list.iter().map(|(_, c)| c.as_str()).collect();
            assert_eq!(codes, vec!["SUR", "WAT", "WIM"]);
        }
        other => panic!("Expected Ambiguous, got {other:?}"),
    }
    assert!(matches!(
        idx.best_of(&vec![Some(59), None, None, None, None]),
        FindResult::NotFound
    ));
    match idx.best_of(&vec![None, Some(60), None, None, None]) {
        FindResult::Exact(crs) => assert_eq!(crs, "WAE"),
        other => panic!("Expected Exact, got {other:?}"),
    }
}

#[test]
fn at_most_five_fuzzy_hits() {
    let mut csv = "crs,station_name\n".to_string();
    for c in ["AAA", "BBB", "CCC", "DDD", "EEE", "FFF", "GGG"] {
        csv.push_str(&format!("{c},Station {c}\n"));
    }
    let idx = make_index(&csv);
    match idx.best_of(&vec![Some(70); 7]) {
        FindResult::Ambiguous(list) => assert_eq!(list.len(), 5),
        other => panic!("Expected Ambiguous, got {other:?}"),
    }
}

#[test]
fn csv_lines_are_trimmed_and_incomplete_ones_skipped() {
    let idx = make_index("crs,station_name\r\n wat , London, Waterloo \r\nnocomma\r\n,Nameless\r\nXYZ,  \r\n");
    assert_eq!(idx.by_crs("WAT").expect("known").name, "London, Waterloo");
    assert!(idx.by_crs("XYZ").is_none());
    assert_eq!(idx.all.len(), 1);
    assert_eq!(make_index("").all.len(), 0);
    assert_eq!(make_index("WAT,London Waterloo").all.len(), 0);
}

#[test]
fn all_tokens_have_to_match() {
    let idx = make_index(SAMPLE_CSV);
    match idx.find("east waterloo") {
        FindResult::Exact(crs) => assert_eq!(crs, "WAE"),
        other => panic!("Expected Exact, got {other:?}"),
    }
}

#[test]
fn an_empty_query_matches_every_station() {
    let idx = make_index(SAMPLE_CSV);
    match idx.find("") {
        FindResult::Ambiguous(list) => assert_eq!(list.len(), 5),
        other => panic!("Expected Ambiguous, got {other:?}"),
    }
}
