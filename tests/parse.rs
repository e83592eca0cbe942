use std::time::{SystemTime, UNIX_EPOCH};

use cymrust::{
    parse_cymru_asn, parse_cymru_origin, parse_date, parse_number, split_text, split_words,
    trim_text,
    CymruASN, CymruOrigin, Date,
};

fn now_secs() -> u64 {
    SystemTime::now().duration_since(UNIX_EPOCH).unwrap().as_secs()
}

#[test]
fn test_parse_cymru_asn() {
    let vec = vec!["23028 | US | arin | 2002-01-04 | TEAMCYMRU - SAUNET".to_string()];
    let ttl = now_secs();
    let results: Vec<CymruASN> = parse_cymru_asn(vec, ttl);
    assert_eq!(results.len(), 1);
    let first = results.first().unwrap();
    assert_eq!(first.as_number, 23028);
    assert_eq!(first.country_code, "US");
    assert_eq!(first.registry, "arin");
    assert_eq!(first.allocated, parse_date("2002-01-04"));
    assert_eq!(first.as_name, "TEAMCYMRU - SAUNET");
}

#[test]
fn test_parse_cymru_asn_empty() {
    let ttl = now_secs();
    let results: Vec<CymruASN> = parse_cymru_asn(vec!["".to_string()], ttl);
    assert_eq!(results.len(), 0);
}

#[test]
fn test_parse_cymru_origin() {
    let vec = vec!["23028 | 216.90.108.0/24 | US | arin | 1998-09-25".to_string()];
    let ttl = now_secs();
    let results: Vec<CymruOrigin> = parse_cymru_origin(vec, ttl);
    assert_eq!(results.len(), 1);
    let first = results.first().unwrap();
    assert_eq!(first.as_number, 23028);
    assert_eq!(first.bgp_prefix, "216.90.108.0/24");
    assert_eq!(first.country_code, "US");
    assert_eq!(first.registry, "arin");
    assert_eq!(first.allocated, parse_date("1998-09-25"));
}

#[test]
fn test_parse_cymru_origin_empty() {
    let ttl = now_secs();
    let results: Vec<CymruOrigin> = parse_cymru_origin(vec!["".to_string()], ttl);
    assert_eq!(results.len(), 0);
}

#[test]
fn test_parse_cymru_origin_multiple_asn() {
    let vec = vec!["1 23 456 7890 | 203.0.113.0/24 | GB | ripencc | 2006-02-17".to_string()];
    let ttl = now_secs();
    let results: Vec<CymruOrigin> = parse_cymru_origin(vec, ttl);
    assert_eq!(results.len(), 4);
    let asns = [1, 23, 456, 7890];
    for item in 0..3 {
        assert_eq!(results[item].as_number, asns[item]);
        assert_eq!(results[item].bgp_prefix, "203.0.113.0/24");
        assert_eq!(results[item].country_code, "GB");
        assert_eq!(results[item].registry, "ripencc");
        assert_eq!(results[item].allocated, parse_date("2006-02-17"));
    }
}

#[test]
fn asn_row_fields_exact() {
    let results = parse_cymru_asn(
        vec!["23028 | US | arin | 2002-01-04 | TEAMCYMRU - SAUNET".to_string()],
        77,
    );
    assert_eq!(results.len(), 1);
    assert_eq!(results[0].allocated, Some(Date { year: 2002, month: 1, day: 4 }));
    assert_eq!(results[0].expires, 77);
}

#[test]
fn multiple_asn_all_four_in_order() {
    let results = parse_cymru_origin(
        vec!["1 23 456 7890 | 203.0.113.0/24 | GB | ripencc | 2006-02-17".to_string()],
        5,
    );
    let numbers: Vec<u32> = results.iter().map(|o| o.as_number).collect();
    assert_eq!(numbers, vec![1, 23, 456, 7890]);
    for o in &results {
        assert_eq!(o.allocated, Some(Date { year: 2006, month: 2, day: 17 }));
        assert_eq!(o.expires, 5);
    }
}

#[test]
fn origin_bad_tokens_are_skipped() {
    let results = parse_cymru_origin(
        vec!["7 x  9 4294967296 | 10.0.0.0/8 | US | arin | 2000-01-01".to_string()],
        0,
    );
    let numbers: Vec<u32> = results.iter().map(|o| o.as_number).collect();
    assert_eq!(numbers, vec![7, 9]);
}

#[test]
fn bad_date_keeps_the_row() {
    let results = parse_cymru_asn(vec!["64500 | NL | ripencc | not-a-date | EXAMPLE".to_string()], 0);
    assert_eq!(results.len(), 1);
    assert_eq!(results[0].allocated, None);
    assert_eq!(results[0].as_name, "EXAMPLE");
    let origins = parse_cymru_origin(vec!["64500 | 192.0.2.0/24 | NL | ripencc | 2001-02-30".to_string()], 0);
    assert_eq!(origins.len(), 1);
    assert_eq!(origins[0].allocated, None);
}

#[test]
fn malformed_rows_are_skipped() {
    let results = parse_cymru_asn(
        vec![
            "AS23028 | US | arin | 2002-01-04 | NAME".to_string(),
            "23028 | US | arin".to_string(),
            "15169 | US | arin | 2000-03-30 | GOOGLE".to_string(),
        ],
        0,
    );
    assert_eq!(results.len(), 1);
    assert_eq!(results[0].as_number, 15169);
    assert_eq!(results[0].as_name, "GOOGLE");
    let origins = parse_cymru_origin(vec!["23028 | 216.90.108.0/24 | US".to_string()], 0);
    assert_eq!(origins.len(), 0);
}

#[test]
fn rows_are_concatenated_in_order() {
    let origins = parse_cymru_origin(
        vec![
            "3 | 198.51.100.0/24 | US | arin | 1999-12-31".to_string(),
            "1 2 | 198.51.0.0/16 | CA | arin | ".to_string(),
        ],
        0,
    );
    let numbers: Vec<u32> = origins.iter().map(|o| o.as_number).collect();
    assert_eq!(numbers, vec![3, 1, 2]);
    assert_eq!(origins[1].bgp_prefix, "198.51.0.0/16");
    assert_eq!(origins[1].allocated, None);
}

#[test]
fn date_parsing() {
    assert_eq!(parse_date("2002-01-04"), Some(Date { year: 2002, month: 1, day: 4 }));
    assert_eq!(parse_date("2004-02-29"), Some(Date { year: 2004, month: 2, day: 29 }));
    assert_eq!(parse_date("2003-02-29"), None);
    assert_eq!(parse_date(""), None);
}

#[test]
fn trimming() {
    assert_eq!(trim_text("  a b \t"), "a b");
    assert_eq!(trim_text("\u{3000}x\u{A0}"), "x");
    assert_eq!(trim_text("   "), "");
    assert_eq!(trim_text(""), "");
}

#[test]
fn splitting() {
    assert_eq!(split_text("a|b||c", '|'), vec!["a", "b", "", "c"]);
    assert_eq!(split_text("", '|'), vec![""]);
    assert_eq!(split_text("|", '|'), vec!["", ""]);
}

#[test]
fn numbers() {
    assert_eq!(parse_number("23028"), Some(23028));
    assert_eq!(parse_number("+5"), Some(5));
    assert_eq!(parse_number("007"), Some(7));
    assert_eq!(parse_number("4294967295"), Some(4294967295));
    assert_eq!(parse_number("4294967296"), None);
    assert_eq!(parse_number("+"), None);
    assert_eq!(parse_number("-1"), None);
    assert_eq!(parse_number(""), None);
    assert_eq!(parse_number(" 1"), None);
    assert_eq!(parse_number("12a"), None);
}

#[test]
fn origin_numbers_split_on_any_white_space() {
    let results = parse_cymru_origin(
        vec!["1\t23 | 203.0.113.0/24 | GB | ripencc | 2006-02-17".to_string()],
        0,
    );
    let numbers: Vec<u32> = results.iter().map(|o| o.as_number).collect();
    assert_eq!(numbers, vec![1, 23]);
    let results = parse_cymru_origin(
        vec!["4\u{A0}5 \t 6 | 203.0.113.0/24 | GB | ripencc | 2006-02-17".to_string()],
        0,
    );
    let numbers: Vec<u32> = results.iter().map(|o| o.as_number).collect();
    assert_eq!(numbers, vec![4, 5, 6]);
}

#[test]
fn word_splitting() {
    assert_eq!(split_words("1 23\t456\n7890"), vec!["1", "23", "456", "7890"]);
    assert_eq!(split_words("  a   b  "), vec!["a", "b"]);
    assert_eq!(split_words(""), Vec::<&str>::new());
    assert_eq!(split_words(" \t "), Vec::<&str>::new());
}
