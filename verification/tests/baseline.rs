use diff_test::baseline::{
    BaselineHighLow, BrowserIdentifier, BrowserVersion, FeatureData, KeyStatus, SupportStatus,
    SupportStatusWithByKey, WebFeatures,
};
use diff_test::json::Json;
use diff_test::resolve::{page_url, split_first_segment, url_to_path_buf};

fn status(baseline: Option<BaselineHighLow>) -> SupportStatus {
    SupportStatus {
        baseline,
        baseline_low_date: None,
        baseline_high_date: None,
        support: vec![BrowserVersion { browser: BrowserIdentifier::Firefox, version: "100".to_string() }],
    }
}

fn feature(
    name: &str,
    baseline: Option<BaselineHighLow>,
    keys: Vec<(&str, Option<BaselineHighLow>)>,
    discouraged: bool,
) -> FeatureData {
    FeatureData {
        spec: vec!["https://example.com/spec".to_string()],
        caniuse: Vec::new(),
        status: Some(SupportStatusWithByKey {
            baseline,
            baseline_low_date: Some("2020-01-01".to_string()),
            baseline_high_date: None,
            support: Vec::new(),
            by_compat_key: Some(
                keys.iter()
                    .map(|(key, baseline)| KeyStatus { key: key.to_string(), status: status(*baseline) })
                    .collect(),
            ),
        }),
        compat_features: keys.iter().map(|(key, _)| key.to_string()).collect(),
        description: String::new(),
        description_html: String::new(),
        group: Vec::new(),
        name: name.to_string(),
        snapshot: Vec::new(),
        discouraged: if discouraged { Some(Json::Object(Vec::new())) } else { None },
    }
}

fn features() -> WebFeatures {
    let high = Some(BaselineHighLow::High);
    let low = Some(BaselineHighLow::Low);
    let mut features = WebFeatures::new();
    features.insert("old".to_string(), feature("Old", high, vec![("css.a", high)], true));
    features.insert("mixed".to_string(), feature("Mixed", high, vec![("css.a", low), ("css.b", high)], false));
    features.insert("first".to_string(), feature("First", low, vec![("css.a", low)], false));
    features.insert("second".to_string(), feature("Second", low, vec![("css.a", low), ("css.c", Some(BaselineHighLow::False(false)))], false));
    features
}

#[test]
fn status_of_the_first_feature_that_answers() {
    let features = features();
    assert_eq!(features.len(), 4);
    let found = features.feature_status("css.a").unwrap();
    assert_eq!(found.baseline, Some(BaselineHighLow::Low));
    assert_eq!(found.by_compat_key.as_ref().unwrap().len(), 1);
    let found = features.feature_status("css.b").unwrap();
    assert_eq!(found.baseline, Some(BaselineHighLow::High));
    assert!(features.feature_status("css.c").is_none());
    assert!(features.feature_status("css.d").is_none());
    assert!(WebFeatures::new().feature_status("css.a").is_none());
}

#[test]
fn features_without_status_or_keys_do_not_answer() {
    let mut features = WebFeatures::new();
    let mut bare = feature("Bare", None, vec![("css.a", None)], false);
    bare.status = None;
    features.insert("bare".to_string(), bare);
    let mut keyless = feature("Keyless", None, vec![("css.a", None)], false);
    keyless.status.as_mut().unwrap().by_compat_key = None;
    features.insert("keyless".to_string(), keyless);
    let mut unlisted = feature("Unlisted", None, vec![("css.a", None)], false);
    unlisted.compat_features.clear();
    features.insert("unlisted".to_string(), unlisted);
    assert!(features.feature_status("css.a").is_none());
    features.insert("plain".to_string(), feature("Plain", None, vec![("css.a", None)], false));
    assert!(features.feature_status("css.a").is_some());
}

#[test]
fn insert_replaces_in_place() {
    let mut features = features();
    let high = Some(BaselineHighLow::High);
    features.insert("mixed".to_string(), feature("Mixed", high, vec![("css.a", high)], false));
    assert_eq!(features.len(), 4);
    // the replaced feature kept its place before `first`
    assert_eq!(features.feature_status("css.a").unwrap().baseline, high);
}

#[test]
fn browsers_are_ordered() {
    assert!(BrowserIdentifier::Chrome < BrowserIdentifier::ChromeAndroid);
    assert!(BrowserIdentifier::Safari < BrowserIdentifier::SafariIos);
    assert_ne!(BaselineHighLow::False(false), BaselineHighLow::False(true));
    assert_eq!(BaselineHighLow::High, BaselineHighLow::High);
}

#[test]
fn slug_becomes_a_folder() {
    assert_eq!(url_to_path_buf("Web/HTML"), "web/html");
    assert_eq!(url_to_path_buf("Web/CSS/::before"), "web/css/_doublecolon_before");
    assert_eq!(url_to_path_buf("Web/CSS/:hover"), "web/css/_colon_hover");
    assert_eq!(url_to_path_buf("Web/API/Foo*?"), "web/api/foo_star__question_");
    assert_eq!(url_to_path_buf("A:::B"), "a_doublecolon__colon_b");
    assert_eq!(url_to_path_buf(""), "");
    assert_eq!(url_to_path_buf("Web/ÉCOLE"), "web/école");
}

#[test]
fn page_url_drops_the_index_file() {
    assert_eq!(page_url("/en-US/docs/Web/index.json"), "/en-US/docs/Web/");
    assert_eq!(page_url("/en-US/docs/Web/"), "/en-US/docs/Web/");
    assert_eq!(page_url("index.json"), "");
    assert_eq!(page_url("/a/index.json/b"), "/a/index.json/b");
    assert_eq!(page_url("ndex.json"), "ndex.json");
    assert_eq!(page_url(""), "");
}

#[test]
fn first_segment_is_split_off() {
    let split = |url: &str| split_first_segment(url).map(|(s, r)| (s.as_str().to_string(), r));
    assert_eq!(split("/en-US/docs/Web"), Some(("en-US".to_string(), "/docs/Web".to_string())));
    assert_eq!(split("/en-US"), Some(("en-US".to_string(), String::new())));
    assert_eq!(split("/en-US/"), Some(("en-US".to_string(), "/".to_string())));
    assert_eq!(split("//docs"), Some((String::new(), "/docs".to_string())));
    assert_eq!(split("/é/x"), Some(("é".to_string(), "/x".to_string())));
    assert_eq!(split("/"), None);
    assert_eq!(split(""), None);
    assert_eq!(split("en-US/docs"), None);
    assert_eq!(split("é"), None);
}
