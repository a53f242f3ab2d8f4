use packet_proxy::api::{extract_company_names, ApiConfig, CompanyMatcher, ReverseipError};
use packet_proxy::json::{parse_json, Json};

fn matcher() -> CompanyMatcher {
    CompanyMatcher::new().expect("the company pattern compiles")
}

#[test]
fn default_config_asks_arin() {
    let config = ApiConfig::default();
    assert_eq!(
        config.lookup_url("8.8.8.8"),
        "https://rdap.arin.net/registry/ip/8.8.8.8"
    );
}

#[test]
fn lookup_url_appends_the_address() {
    let config = ApiConfig::default().clone();
    assert_eq!(
        config.lookup_url("192.168.0.1"),
        "https://rdap.arin.net/registry/ip/192.168.0.1"
    );
    assert_eq!(config.lookup_url(""), "https://rdap.arin.net/registry/ip/");
}

#[test]
fn names_from_every_source_sorted_and_deduplicated() {
    let body = r#"{
        "nome": "Google Cloud and Amazon Web Services",
        "entidades": [
            {"vcardArray": ["vcard", [["fn", {}, "text", "Zeta Networks"], ["org", {}, "text", "Amazon Web Services"]]]},
            {"vcardArray": ["vcard"]},
            {"other": 1}
        ],
        "observações": [
            {"descrição": ["Operated by Alpha Corp", 42, "Beta"]},
            {"descrição": "not a list"}
        ]
    }"#;
    let names = extract_company_names(body, &matcher()).unwrap();
    assert_eq!(
        names,
        vec![
            "Alpha Corp".to_string(),
            "Amazon Web Services".to_string(),
            "Beta".to_string(),
            "Google Cloud".to_string(),
            "Operated".to_string(),
            "Zeta Networks".to_string(),
        ]
    );
}

#[test]
fn names_are_sorted_by_bytes() {
    let body = r#"{"nome": "Zebra Apple apple Mango Banana Apple"}"#;
    let names = extract_company_names(body, &matcher()).unwrap();
    let mut expected = names.clone();
    expected.sort();
    expected.dedup();
    assert_eq!(names, expected);
    assert_eq!(names, vec!["Mango Banana Apple", "Zebra Apple"]);
}

#[test]
fn malformed_json_is_a_parsing_error() {
    let r = extract_company_names("{not json", &matcher());
    assert!(matches!(r, Err(ReverseipError::JsonParsingFailed(_))));
}

#[test]
fn no_names_is_an_error() {
    let r = extract_company_names(r#"{"nome": "lower case only", "entidades": []}"#, &matcher());
    assert!(matches!(r, Err(ReverseipError::NoCompanyNamesFound)));
    let r = extract_company_names("[1, 2, 3]", &matcher());
    assert!(matches!(r, Err(ReverseipError::NoCompanyNamesFound)));
}

#[test]
fn vcard_value_is_the_fourth_element() {
    let body = r#"{"entidades": [{"vcardArray": ["vcard", [["fn", {}, "Skipped Name"], ["fn", {}, "text", "Kept Name", "Also Skipped"]]]}]}"#;
    let names = extract_company_names(body, &matcher()).unwrap();
    assert_eq!(names, vec!["Kept Name"]);
}

#[test]
fn json_lookup_follows_serde() {
    let doc = parse_json(r#"{"a": [1, "two", {"b": null}], "c": "d"}"#).unwrap();
    let a = doc.get("a").unwrap();
    assert!(a.as_array().is_some());
    assert_eq!(a.get_index(1).unwrap().as_str().unwrap(), "two");
    assert!(a.get_index(3).is_none());
    assert!(matches!(a.get_index(0), Some(Json::Number(n)) if n == "1"));
    assert_eq!(doc.get("c").unwrap().as_str().unwrap(), "d");
    assert!(doc.get("missing").is_none());
    assert!(a.get("a").is_none());
    assert!(parse_json("").is_err());
}

#[test]
fn reordered_answers_give_the_same_names() {
    let a = r#"{"nome": "Acme", "entidades": [
        {"vcardArray": ["vcard", [["fn", {}, "text", "Zeta Networks"]]]},
        {"vcardArray": ["vcard", [["fn", {}, "text", "Beta Labs"]]]}],
        "observações": [{"descrição": ["Gamma One", "Delta Two"]}, {"descrição": ["Echo"]}]}"#;
    let b = r#"{"nome": "Acme", "entidades": [
        {"vcardArray": ["vcard", [["fn", {}, "text", "Beta Labs"]]]},
        {"vcardArray": ["vcard", [["fn", {}, "text", "Zeta Networks"]]]}],
        "observações": [{"descrição": ["Echo"]}, {"descrição": ["Delta Two", "Gamma One"]}]}"#;
    let na = extract_company_names(a, &matcher()).unwrap();
    let nb = extract_company_names(b, &matcher()).unwrap();
    assert_eq!(na, nb);
    assert_eq!(na, vec!["Acme", "Beta Labs", "Delta Two", "Echo", "Gamma One", "Zeta Networks"]);
}
