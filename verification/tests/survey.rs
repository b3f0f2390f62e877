use contract_metadata_injection::calls::{FetchError, Missing};
use contract_metadata_injection::config::Config;
use contract_metadata_injection::fields::Fields;
use contract_metadata_injection::json::{parse_json, write_json, Body, Json};
use contract_metadata_injection::summary::{
    columns_of, is_sensitive, links_of, marked_columns, stamp, Sensitivity,
};
use contract_metadata_injection::survey::{Progress, Survey};

const ISCDE: &str = "com.infa.ccgf.models.governance.isCDE";
const LEVEL: &str = "com.infa.ccgf.models.governance.securityClassification";

fn config(marker: Option<&str>, levels: Option<&str>) -> Config {
    Config {
        cdgc_org_username: String::new(),
        cdgc_org_password: String::new(),
        schema_id: "asset-1".to_string(),
        schema_id_header: None,
        schema_id_claim: None,
        sensitive_marker: marker.map(|text| text.to_string()),
        sensitive_levels: levels.map(|text| text.to_string()),
        header_on_miss: None,
        refresh_interval_seconds: None,
        fail_open_on_cdgc_error: None,
        distributed: None,
        timeout: None,
    }
}

fn defaults() -> Sensitivity {
    Sensitivity::from_config(&config(None, None))
}

fn items(text: &str) -> Vec<Json> {
    match parse_json(text.as_bytes()).unwrap() {
        Json::Array(items) => items,
        _ => panic!("not a list"),
    }
}

fn written(body: &Body) -> String {
    String::from_utf8(write_json(body).unwrap()).unwrap()
}

fn search(progress: Progress) -> (Survey, String) {
    match progress {
        Progress::Search { next, query } => (next, written(&query)),
        Progress::Finished { .. } => panic!("finished"),
    }
}

fn finished(progress: Progress) -> Fields {
    match progress {
        Progress::Finished { fields } => fields,
        Progress::Search { .. } => panic!("not finished"),
    }
}

fn pairs(fields: &Fields) -> Vec<(&str, &str)> {
    fields.entries().iter().map(|(name, value)| (name.as_str(), value.as_str())).collect()
}

fn asset() -> Vec<Json> {
    items(
        r#"[{"core.identity":"asset-1","core.name":"dim_product.csv","core.location":"/p/dim",
            "core.externalId":"x~FlatFile","core.origin":"scan-9"}]"#,
    )
}

fn columns() -> Vec<Json> {
    items(
        r#"[{"core.identity":"c1","core.name":"unit_cost"},{"core.name":"nameless"},
            {"core.identity":"c2","core.name":"sku"},{"core.identity":"c3","core.name":"list_price"},
            {"core.identity":"c4","core.name":"color"}]"#,
    )
}

fn relations() -> Vec<Json> {
    items(
        r#"[{"core.sourceIdentity":"c1","core.targetIdentity":"t2"},
            {"core.sourceIdentity":"c2","core.targetIdentity":"t1"},
            {"core.sourceIdentity":"c3","core.targetIdentity":"t1"},
            {"core.sourceIdentity":"c1","core.targetIdentity":"t1"},
            {"core.sourceIdentity":"elsewhere","core.targetIdentity":"t0"},
            {"core.sourceIdentity":"c4"}]"#,
    )
}

#[test]
fn survey_summarizes_an_asset() {
    let (survey, query) = Survey::begin("asset-1");
    assert_eq!(
        written(&query),
        r#"{"from":0,"query":{"bool":{"must":[{"terms":{"elementType":["OBJECT"]}},{"terms":{"core.identity":["asset-1"]}}]}},"size":1}"#
    );
    let (survey, query) = search(survey.advance(asset(), &defaults()).unwrap());
    assert_eq!(
        query,
        r#"{"from":0,"query":{"bool":{"filter":[{"terms":{"core.location::path_hierarchy.parent":["/p/dim"]}}],"must":[{"terms":{"core.classType":["com.infa.odin.models.file.flat.FlatField"]}}]}},"size":1000}"#
    );
    let (survey, query) = search(survey.advance(columns(), &defaults()).unwrap());
    assert_eq!(
        query,
        r#"{"from":0,"query":{"bool":{"must":[{"terms":{"elementType":["RELATIONSHIP"]}},{"terms":{"type":["com.infa.ccgf.models.governance.IClassTechnicalGlossaryBase"]}},{"terms":{"core.sourceIdentity":["c1","c2","c3","c4"]}}]}},"size":5000}"#
    );
    let (survey, query) = search(survey.advance(relations(), &defaults()).unwrap());
    assert_eq!(
        query,
        r#"{"from":0,"query":{"bool":{"must":[{"terms":{"elementType":["OBJECT"]}},{"terms":{"core.identity":["t1","t2"]}}]}},"size":5000}"#
    );
    let terms = items(&format!(
        r#"[{{"core.identity":"t1","{ISCDE}":true,"core.description":"plain"}},
            {{"core.identity":"t2","{LEVEL}":" Restricted "}}]"#
    ));
    let fields = finished(survey.advance(terms, &defaults()).unwrap());
    assert_eq!(
        pairs(&fields),
        vec![
            ("x-dp-external-id", "x~FlatFile"),
            ("x-dp-field-count", "4"),
            ("x-dp-fields", "unit_cost,sku,list_price,color"),
            ("x-dp-name", "dim_product.csv"),
            ("x-dp-required", "list_price,sku,unit_cost"),
            ("x-dp-sensitive", "unit_cost"),
            ("x-dp-source", "scan-9"),
        ]
    );
}

#[test]
fn survey_of_an_unknown_asset_fails() {
    let (survey, _) = Survey::begin("nobody");
    let r = survey.advance(Vec::new(), &defaults());
    assert!(matches!(r, Err(FetchError::Missing(Missing::Asset))));
}

#[test]
fn survey_of_an_asset_without_a_location_fails() {
    let (survey, _) = Survey::begin("asset-1");
    let r = survey.advance(items(r#"[{"core.name":"a","core.location":3}]"#), &defaults());
    assert!(matches!(r, Err(FetchError::Missing(Missing::Location))));
}

#[test]
fn survey_without_columns_ends_early() {
    let (survey, _) = Survey::begin("asset-1");
    let found = items(r#"[{"core.location":"/p"}]"#);
    let (survey, _) = search(survey.advance(found, &defaults()).unwrap());
    let fields = finished(survey.advance(Vec::new(), &defaults()).unwrap());
    assert_eq!(pairs(&fields), vec![("x-dp-field-count", "0")]);
}

#[test]
fn survey_without_links_ends_early() {
    let (survey, _) = Survey::begin("asset-1");
    let (survey, _) = search(survey.advance(asset(), &defaults()).unwrap());
    let (survey, _) = search(survey.advance(columns(), &defaults()).unwrap());
    let strangers = items(r#"[{"core.sourceIdentity":"c9","core.targetIdentity":"t1"}]"#);
    let fields = finished(survey.advance(strangers, &defaults()).unwrap());
    assert_eq!(fields.get("x-dp-fields"), Some(&"unit_cost,sku,list_price,color".to_string()));
    assert_eq!(fields.get("x-dp-required"), None);
    assert_eq!(fields.get("x-dp-sensitive"), None);
}

#[test]
fn first_asset_counts() {
    let (survey, _) = Survey::begin("asset-1");
    let two = items(r#"[{"core.location":"/one"},{"core.location":"/two"}]"#);
    let (_, query) = search(survey.advance(two, &defaults()).unwrap());
    assert!(query.contains("/one"));
    assert!(!query.contains("/two"));
}

#[test]
fn marks_come_from_configuration() {
    let s = defaults();
    assert_eq!(s.marker, "confidential");
    assert_eq!(s.levels, vec!["confidential".to_string(), "restricted".to_string()]);
    let s = Sensitivity::from_config(&config(Some("GEHEIM Ä"), Some(" Top Secret ,, ÜBER,\t")));
    assert_eq!(s.marker, "geheim ä");
    assert_eq!(s.levels, vec!["top secret".to_string(), "über".to_string()]);
    let s = Sensitivity::from_config(&config(Some(""), Some("")));
    assert_eq!(s.marker, "");
    assert!(s.levels.is_empty());
}

#[test]
fn security_level_overrides_the_description() {
    let s = defaults();
    assert!(is_sensitive(Some("restricted"), "", &s));
    assert!(!is_sensitive(Some("public"), "strictly confidential", &s));
    assert!(is_sensitive(None, "strictly confidential", &s));
    assert!(!is_sensitive(None, "plain", &s));
}

#[test]
fn terms_are_sensitive_in_any_case() {
    let found = items(&format!(
        r#"[{{"core.identity":"t1","core.description":"CONFIDENTIAL cost"}},
            {{"core.identity":"t2","{LEVEL}":"\t ","core.description":"Confidential"}},
            {{"core.identity":"t3","{LEVEL}":"Internal","core.description":"Confidential"}},
            {{"core.identity":"t4","{ISCDE}":"true"}},
            {{"{ISCDE}":true,"{LEVEL}":"restricted"}},
            {{"core.identity":"t5","{ISCDE}":true}}]"#
    ));
    let cols = columns_of(&items(
        r#"[{"core.identity":"a","core.name":"A"},{"core.identity":"b","core.name":"B"},
            {"core.identity":"c","core.name":"C"},{"core.identity":"d","core.name":"D"}]"#,
    ));
    let links = links_of(
        &items(
            r#"[{"core.sourceIdentity":"a","core.targetIdentity":"t1"},
                {"core.sourceIdentity":"b","core.targetIdentity":"t2"},
                {"core.sourceIdentity":"c","core.targetIdentity":"t3"},
                {"core.sourceIdentity":"d","core.targetIdentity":"t4"}]"#,
        ),
        &cols,
    );
    let (required, sensitive) = marked_columns(&found, &links, &defaults());
    assert_eq!(required, Vec::<String>::new());
    assert_eq!(sensitive, vec!["A".to_string(), "B".to_string()]);
}

#[test]
fn last_column_with_an_id_gives_the_name() {
    let cols = columns_of(&items(
        r#"[{"core.identity":"a","core.name":"old"},{"core.identity":"a","core.name":"new"}]"#,
    ));
    assert_eq!(cols.len(), 2);
    let links = links_of(
        &items(r#"[{"core.sourceIdentity":"a","core.targetIdentity":"t"}]"#),
        &cols,
    );
    assert_eq!(links.len(), 1);
    assert_eq!(links[0].term, "t");
    assert_eq!(links[0].column, "new");
}

#[test]
fn marked_columns_are_stamped_once_and_in_order() {
    let required = vec!["b".to_string(), "a".to_string(), "b".to_string()];
    let file = parse_json(br#"{"core.name":7,"core.origin":""}"#).unwrap();
    let fields = stamp(&file, &Vec::new(), &required, &Vec::new());
    assert_eq!(
        pairs(&fields),
        vec![("x-dp-field-count", "0"), ("x-dp-required", "a,b"), ("x-dp-source", "")]
    );
}
