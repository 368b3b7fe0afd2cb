use scale_server::error::RelayError;
use scale_server::request::{parse_scale_ids, scale_ids_from_pairs, split_ids};

fn texts(items: &[&str]) -> Vec<String> {
    items.iter().map(|s| s.to_string()).collect()
}

fn pair(key: &str, value: &str) -> (String, String) {
    (key.to_string(), value.to_string())
}

#[test]
fn split_ids_cuts_at_commas() {
    assert_eq!(split_ids("1,2,3"), texts(&["1", "2", "3"]));
    assert_eq!(split_ids("scale-7"), texts(&["scale-7"]));
}

#[test]
fn split_ids_keeps_empty_pieces() {
    assert_eq!(split_ids(""), texts(&[""]));
    assert_eq!(split_ids(","), texts(&["", ""]));
    assert_eq!(split_ids("a,"), texts(&["a", ""]));
    assert_eq!(split_ids(",a"), texts(&["", "a"]));
    assert_eq!(split_ids("a,,b"), texts(&["a", "", "b"]));
}

#[test]
fn split_ids_counts_characters_not_bytes() {
    assert_eq!(split_ids("é,ü1,z"), texts(&["é", "ü1", "z"]));
}

#[test]
fn pairs_without_ids_ask_for_no_filter() {
    assert_eq!(scale_ids_from_pairs(&vec![]), None);
    assert_eq!(scale_ids_from_pairs(&vec![pair("id", "1"), pair("IDS", "2")]), None);
}

#[test]
fn pairs_with_empty_ids_ask_for_no_filter() {
    assert_eq!(scale_ids_from_pairs(&vec![pair("ids", "")]), None);
}

#[test]
fn pairs_with_ids_give_the_filter() {
    assert_eq!(scale_ids_from_pairs(&vec![pair("ids", "1,2")]), Some(texts(&["1", "2"])));
    assert_eq!(
        scale_ids_from_pairs(&vec![pair("x", "9"), pair("ids", "a"), pair("ids", ""), pair("ids", "b,c")]),
        Some(texts(&["a", "b", "c"]))
    );
}

#[test]
fn target_without_query_asks_for_no_filter() {
    assert_eq!(parse_scale_ids("/"), Ok(None));
    assert_eq!(parse_scale_ids(""), Ok(None));
    assert_eq!(parse_scale_ids("/feed?other=1"), Ok(None));
    assert_eq!(parse_scale_ids("/?ids="), Ok(None));
    assert_eq!(parse_scale_ids("/?ids"), Ok(None));
}

#[test]
fn target_with_ids_gives_the_filter() {
    assert_eq!(parse_scale_ids("/?ids=1,2"), Ok(Some(texts(&["1", "2"]))));
    assert_eq!(parse_scale_ids("/ws?a=b&ids=5"), Ok(Some(texts(&["5"]))));
    assert_eq!(parse_scale_ids("/?ids=a&ids=b"), Ok(Some(texts(&["a", "b"]))));
}

#[test]
fn target_values_are_percent_decoded_before_the_split() {
    assert_eq!(parse_scale_ids("/?ids=a%2Cb"), Ok(Some(texts(&["a", "b"]))));
    assert_eq!(parse_scale_ids("/?ids=a+b"), Ok(Some(texts(&["a b"]))));
    assert_eq!(parse_scale_ids("/?%69ds=7"), Ok(Some(texts(&["7"]))));
}

#[test]
fn target_that_spells_no_url_is_turned_away() {
    assert_eq!(parse_scale_ids(":99999999/?ids=1"), Err(RelayError::InvalidRequestTarget));
}
