use diff_test::dedup::DedupCache;
use diff_test::dedup::Seen;
use diff_test::differ::{
    collect_findings, find_other, find_text, full_diff, normalize, pending_digest,
    record_findings, report_findings, shallow_diff, store_findings, store_found, Difference,
    Found,
};
use diff_test::divergence::DivergenceMap;
use diff_test::json::{Json, Member};
use diff_test::options::{DiffError, DiffOptions};
use diff_test::path::PathIndex;
use diff_test::policy::Policy;

fn number(text: &str) -> Json {
    Json::Number(text.to_string())
}

fn text(s: &str) -> Json {
    Json::Text(s.to_string())
}

fn object(members: Vec<(&str, Json)>) -> Json {
    let mut members: Vec<Member> = members
        .into_iter()
        .map(|(key, value)| Member { key: key.to_string(), value })
        .collect();
    members.sort_by(|a, b| a.key.cmp(&b.key));
    Json::Object(members)
}

fn key(name: &str) -> PathIndex {
    PathIndex::Object(name.to_string())
}

fn diff_at(
    lhs: &Json,
    rhs: &Json,
    file: &str,
    path: Vec<PathIndex>,
    options: &DiffOptions,
    cache: &mut DedupCache,
) -> (Result<(), DiffError>, DivergenceMap) {
    assert!(lhs.is_wf());
    assert!(rhs.is_wf());
    let mut diff = DivergenceMap::new();
    let out = full_diff(lhs, rhs, file, &path, &mut diff, options, &Policy::standard(), cache);
    (out, diff)
}

fn diff_docs(lhs: &Json, rhs: &Json, file: &str) -> DivergenceMap {
    let mut cache = DedupCache::new();
    let (out, diff) = diff_at(lhs, rhs, file, Vec::new(), &DiffOptions::new(), &mut cache);
    assert_eq!(out, Ok(()));
    diff
}

fn keys(diff: &DivergenceMap) -> Vec<String> {
    diff.entries.iter().map(|entry| entry.path.clone()).collect()
}

const REMOVED: &str = "<span style='color:var(--red,#a00)'><s>";
const ADDED: &str = "<span style='color:var(--green,#0a0)'>";

#[test]
fn array_padding_reports_one_divergence() {
    let lhs = Json::Array(vec![number("1"), number("2"), number("3")]);
    let rhs = Json::Array(vec![number("1"), number("2")]);
    let mut cache = DedupCache::new();
    let (out, diff) = diff_at(
        &lhs,
        &rhs,
        "docs/web/index.json",
        vec![key("doc")],
        &DiffOptions::new(),
        &mut cache,
    );
    assert_eq!(out, Ok(()));
    assert_eq!(keys(&diff), vec!["doc.2".to_string()]);
    assert_eq!(
        diff.get("doc.2").unwrap().as_str(),
        format!("{REMOVED}3</s></span>{ADDED}null</span>")
    );
}

#[test]
fn equal_documents_give_no_divergence() {
    let doc = object(vec![
        ("doc", object(vec![("title", text("a")), ("body", Json::Array(vec![number("1")]))])),
        ("url", text("/en-US/docs/Web")),
    ]);
    let diff = diff_docs(&doc, &doc, "docs/web/index.json");
    assert!(diff.is_empty());
    assert_eq!(diff.len(), 0);
}

#[test]
fn root_url_is_never_reported() {
    let lhs = object(vec![("url", text("/en-US/docs/Web")), ("x", number("1"))]);
    let rhs = object(vec![("url", text("/en-US/docs/web")), ("x", number("2"))]);
    let diff = diff_docs(&lhs, &rhs, "docs/web/index.json");
    assert_eq!(keys(&diff), vec!["x".to_string()]);
}

#[test]
fn nested_url_is_reported() {
    let lhs = object(vec![("doc", object(vec![("url", text("a"))]))]);
    let rhs = object(vec![("doc", object(vec![("url", text("b"))]))]);
    let diff = diff_docs(&lhs, &rhs, "docs/web/index.json");
    assert_eq!(keys(&diff), vec!["doc.url".to_string()]);
}

#[test]
fn skipped_documents_are_not_compared() {
    let lhs = object(vec![("doc", object(vec![("title", text("a"))]))]);
    let rhs = object(vec![("doc", object(vec![("title", text("b"))]))]);
    let diff = diff_docs(&lhs, &rhs, "docs/mdn/writing_guidelines/howto/index.json");
    assert!(diff.is_empty());
    let diff = diff_docs(&lhs, &rhs, "docs/mozilla/firefox/releases/1/index.json");
    assert!(diff.is_empty());
    let diff = diff_docs(&lhs, &rhs, "docs/mdn/other/index.json");
    assert_eq!(keys(&diff), vec!["doc.title".to_string()]);
}

fn body_content(content: &str) -> Json {
    object(vec![(
        "doc",
        object(vec![(
            "body",
            Json::Array(vec![object(vec![("value", object(vec![("content", text(content))]))])]),
        )]),
    )])
}

#[test]
fn allow_listed_place_is_exempt() {
    let lhs = body_content("one");
    let rhs = body_content("two");
    let diff = diff_docs(&lhs, &rhs, "docs/glossary/http/index.json");
    assert!(diff.get("doc.body.0.value.content").is_none());
    assert!(diff.is_empty());
    // the same difference in a document that the allow-list does not name
    let diff = diff_docs(&lhs, &rhs, "docs/glossary/https/index.json");
    assert_eq!(keys(&diff), vec!["doc.body.0.value.content".to_string()]);
}

#[test]
fn allow_list_names_a_place_not_a_document() {
    let lhs = object(vec![(
        "doc",
        object(vec![
            ("body", Json::Array(vec![object(vec![("value", object(vec![("content", text("one"))]))])])),
            ("title", text("a")),
        ]),
    )]);
    let rhs = object(vec![(
        "doc",
        object(vec![
            ("body", Json::Array(vec![object(vec![("value", object(vec![("content", text("two"))]))])])),
            ("title", text("b")),
        ]),
    )]);
    let diff = diff_docs(&lhs, &rhs, "docs/glossary/http/index.json");
    assert_eq!(keys(&diff), vec!["doc.title".to_string()]);
}

#[test]
fn ignored_keys_are_not_reported() {
    for name in ["flaws", "modified", "popularity", "sidebarMacro", "hasMathML", "summary"] {
        let lhs = object(vec![("doc", object(vec![(name, text("a"))]))]);
        let rhs = object(vec![("doc", object(vec![(name, text("b"))]))]);
        assert!(diff_docs(&lhs, &rhs, "docs/web/index.json").is_empty());
    }
    // a key is ignored where it begins with an ignored prefix
    let lhs = object(vec![("doc", object(vec![("flawsome", text("a"))]))]);
    let rhs = object(vec![("doc", object(vec![("flawsome", text("b"))]))]);
    assert!(diff_docs(&lhs, &rhs, "docs/web/index.json").is_empty());
}

#[test]
fn sidebar_is_reported_only_on_request() {
    let lhs = object(vec![("doc", object(vec![("sidebarHTML", text("a"))]))]);
    let rhs = object(vec![("doc", object(vec![("sidebarHTML", text("b"))]))]);
    assert!(diff_docs(&lhs, &rhs, "docs/web/index.json").is_empty());
    let mut options = DiffOptions::new();
    options.sidebars = true;
    let mut cache = DedupCache::new();
    let (out, diff) = diff_at(&lhs, &rhs, "docs/web/index.json", Vec::new(), &options, &mut cache);
    assert_eq!(out, Ok(()));
    assert_eq!(keys(&diff), vec!["doc.sidebarHTML".to_string()]);
}

fn with_id(id: &str) -> Json {
    object(vec![(
        "doc",
        object(vec![(
            "body",
            Json::Array(vec![object(vec![("value", object(vec![("id", text(id))]))])]),
        )]),
    )])
}

#[test]
fn id_suffix_is_tolerated() {
    let diff = diff_docs(&with_id("heading_2"), &with_id("heading_3"), "docs/web/index.json");
    assert!(diff.is_empty());
    let diff = diff_docs(&with_id("heading"), &with_id("heading_12_3"), "docs/web/index.json");
    assert!(diff.is_empty());
    let diff = diff_docs(&with_id("heading_2"), &with_id("header_2"), "docs/web/index.json");
    assert_eq!(keys(&diff), vec!["doc.body.0.value.id".to_string()]);
}

#[test]
fn id_suffix_counts_outside_generated_ids() {
    let lhs = object(vec![("doc", object(vec![("id", text("heading_2"))]))]);
    let rhs = object(vec![("doc", object(vec![("id", text("heading_3"))]))]);
    let diff = diff_docs(&lhs, &rhs, "docs/web/index.json");
    assert_eq!(keys(&diff), vec!["doc.id".to_string()]);
}

#[test]
fn normalize_by_key() {
    let chars = |s: &str| s.chars().collect::<Vec<char>>();
    assert_eq!(normalize(&chars("doc.sidebarMacro"), "CSSRef"), "cssref");
    assert_eq!(normalize(&chars("doc.summary"), "a\n  b\n    c\n d"), "a\nb\n  c\n d");
    assert_eq!(normalize(&chars("doc.body.1.value.id"), "see_also_2"), "see_also");
    assert_eq!(normalize(&chars("doc.body.1.value.id"), "123"), "");
    assert_eq!(normalize(&chars("doc.toc.1.id"), "see_also_2"), "see_also_2");
    assert_eq!(normalize(&chars("doc.title"), "CSSRef_2"), "CSSRef_2");
}

#[test]
fn html_whitespace_is_tolerated() {
    let lhs = object(vec![("doc", object(vec![("content", text("<p>\n  hello\n</p>"))]))]);
    let rhs = object(vec![("doc", object(vec![("content", text("<p>hello</p>"))]))]);
    assert!(diff_docs(&lhs, &rhs, "docs/web/index.json").is_empty());
    let lhs = object(vec![("doc", object(vec![("content", text("<p>a</p><p> \n</p>"))]))]);
    let rhs = object(vec![("doc", object(vec![("content", text("<p>a</p>"))]))]);
    assert!(diff_docs(&lhs, &rhs, "docs/web/index.json").is_empty());
}

#[test]
fn whitespace_counts_in_plain_text() {
    let lhs = object(vec![("doc", object(vec![("content", text("hello  world"))]))]);
    let rhs = object(vec![("doc", object(vec![("content", text("hello world"))]))]);
    let diff = diff_docs(&lhs, &rhs, "docs/web/index.json");
    assert_eq!(keys(&diff), vec!["doc.content".to_string()]);
}

#[test]
fn differing_html_is_shown_in_canonical_form() {
    let lhs = object(vec![("doc", object(vec![("content", text("<p>old</p>"))]))]);
    let rhs = object(vec![("doc", object(vec![("content", text("<p>new</p>"))]))]);
    let diff = diff_docs(&lhs, &rhs, "docs/web/index.json");
    assert_eq!(
        diff.get("doc.content").unwrap().as_str(),
        format!("&lt;p&gt;\n{REMOVED}old</s></span>{ADDED}new</span>\n&lt;/p&gt;")
    );
}

#[test]
fn fast_mode_shows_lines() {
    let lhs = object(vec![("doc", object(vec![("content", text("a\nb\nc"))]))]);
    let rhs = object(vec![("doc", object(vec![("content", text("a\nx\nc"))]))]);
    let mut options = DiffOptions::new();
    options.fast = true;
    let mut cache = DedupCache::new();
    let (out, diff) = diff_at(&lhs, &rhs, "docs/web/index.json", Vec::new(), &options, &mut cache);
    assert_eq!(out, Ok(()));
    assert_eq!(
        diff.get("doc.content").unwrap().as_str(),
        format!("a\n {REMOVED}b</s></span>\n {ADDED}x</span>\nc")
    );
    let diff = diff_docs(&lhs, &rhs, "docs/web/index.json");
    assert_eq!(
        diff.get("doc.content").unwrap().as_str(),
        format!("a\n{REMOVED}b</s></span>{ADDED}x</span>\nc")
    );
}

#[test]
fn object_members_are_compared_by_key() {
    let lhs = object(vec![("a", number("1")), ("b", number("2")), ("c", text("x"))]);
    let rhs = object(vec![("b", number("2")), ("c", text("y")), ("d", Json::Bool(true))]);
    let diff = diff_docs(&lhs, &rhs, "docs/web/index.json");
    assert_eq!(keys(&diff), vec!["a".to_string(), "c".to_string(), "d".to_string()]);
    assert_eq!(
        diff.get("a").unwrap().as_str(),
        format!("{REMOVED}1</s></span>{ADDED}null</span>")
    );
    assert_eq!(
        diff.get("d").unwrap().as_str(),
        format!("{REMOVED}null</s></span>{ADDED}true</span>")
    );
}

#[test]
fn differing_kinds_are_compared_as_json() {
    let lhs = object(vec![("a", Json::Array(vec![number("1"), text("x\"y")]))]);
    let rhs = object(vec![("a", object(vec![("k", Json::Null)]))]);
    let diff = diff_docs(&lhs, &rhs, "docs/web/index.json");
    assert_eq!(keys(&diff), vec!["a".to_string()]);
    // `[1,"x\"y"]` against `{"k":null}`, word by word
    assert_eq!(
        diff.get("a").unwrap().as_str(),
        format!(
            "{REMOVED}[1,</s></span>{ADDED}{{</span>&quot;{REMOVED}x\\</s></span>{ADDED}k</span>&quot;{REMOVED}y&quot;]</s></span>{ADDED}:null}}</span>"
        )
    );
}

fn spec(url: &str, title: &str) -> Json {
    object(vec![("bcdSpecificationURL", text(url)), ("title", text(title))])
}

fn with_specifications(specs: Vec<Json>) -> Json {
    object(vec![(
        "doc",
        object(vec![(
            "body",
            Json::Array(vec![object(vec![(
                "value",
                object(vec![("specifications", Json::Array(specs))]),
            )])]),
        )]),
    )])
}

#[test]
fn specifications_are_compared_sorted() {
    let lhs = with_specifications(vec![spec("https://b", "B"), spec("https://a", "A"), spec("https://c", "C")]);
    let rhs = with_specifications(vec![spec("https://c", "C"), spec("https://b", "B"), spec("https://a", "A")]);
    assert!(diff_docs(&lhs, &rhs, "docs/web/index.json").is_empty());
}

#[test]
fn specifications_that_differ_are_reported() {
    let lhs = with_specifications(vec![spec("https://b", "B"), spec("https://a", "A")]);
    let rhs = with_specifications(vec![spec("https://a", "A"), spec("https://b", "other")]);
    let diff = diff_docs(&lhs, &rhs, "docs/web/index.json");
    assert_eq!(keys(&diff), vec!["doc.body.0.value.specifications.1.title".to_string()]);
    let rhs = with_specifications(vec![spec("https://a", "A")]);
    let diff = diff_docs(&lhs, &rhs, "docs/web/index.json");
    assert_eq!(keys(&diff), vec!["doc.body.0.value.specifications.1".to_string()]);
}

#[test]
fn other_arrays_are_compared_in_place() {
    let lhs = object(vec![("list", Json::Array(vec![spec("https://b", "B"), spec("https://a", "A")]))]);
    let rhs = object(vec![("list", Json::Array(vec![spec("https://a", "A"), spec("https://b", "B")]))]);
    let diff = diff_docs(&lhs, &rhs, "docs/web/index.json");
    assert_eq!(
        keys(&diff),
        vec![
            "list.0.bcdSpecificationURL".to_string(),
            "list.0.title".to_string(),
            "list.1.bcdSpecificationURL".to_string(),
            "list.1.title".to_string(),
        ]
    );
}

fn titled(title: &str) -> Json {
    object(vec![("doc", object(vec![("title", text(title))]))])
}

#[test]
fn shared_difference_is_rendered_once() {
    let mut cache = DedupCache::new();
    let options = DiffOptions::new();
    let mut shown = Vec::new();
    for file in ["docs/a/index.json", "docs/b/index.json", "docs/c/index.json"] {
        let (out, diff) =
            diff_at(&titled("old text"), &titled("new text"), file, Vec::new(), &options, &mut cache);
        assert_eq!(out, Ok(()));
        assert_eq!(diff.len(), 1);
        shown.push(diff.get("doc.title").unwrap().clone());
    }
    let full = format!("{REMOVED}old</s></span>{ADDED}new</span> text");
    assert_eq!(shown, vec![full.clone(), "See somewhere else".to_string(), "See somewhere else".to_string()]);

    let mut cache = DedupCache::disabled();
    for file in ["docs/a/index.json", "docs/b/index.json", "docs/c/index.json"] {
        let (out, diff) =
            diff_at(&titled("old text"), &titled("new text"), file, Vec::new(), &options, &mut cache);
        assert_eq!(out, Ok(()));
        assert_eq!(diff.get("doc.title").unwrap().as_str(), full);
    }
}

#[test]
fn differences_with_the_same_concatenation_are_each_rendered() {
    let mut cache = DedupCache::new();
    let options = DiffOptions::new();
    let path = || vec![key("doc"), key("title")];
    let (out, first) =
        diff_at(&text("ab"), &text("c"), "a/index.json", path(), &options, &mut cache);
    assert_eq!(out, Ok(()));
    assert_eq!(
        first.get("doc.title").unwrap().as_str(),
        format!("{REMOVED}ab</s></span>{ADDED}c</span>")
    );
    let (out, second) =
        diff_at(&text("a"), &text("bc"), "b/index.json", path(), &options, &mut cache);
    assert_eq!(out, Ok(()));
    assert_eq!(keys(&second), vec!["doc.title".to_string()]);
    assert_eq!(
        second.get("doc.title").unwrap().as_str(),
        format!("{REMOVED}a</s></span>{ADDED}bc</span>")
    );
    // the same pair once more is a reference
    let (_, third) =
        diff_at(&text("a"), &text("bc"), "c/index.json", path(), &options, &mut cache);
    assert_eq!(third.get("doc.title").unwrap().as_str(), "See somewhere else");
}

#[test]
fn different_differences_are_each_rendered() {
    let mut cache = DedupCache::new();
    let options = DiffOptions::new();
    let (_, first) =
        diff_at(&titled("old"), &titled("new"), "docs/a/index.json", Vec::new(), &options, &mut cache);
    let (_, second) =
        diff_at(&titled("old"), &titled("newer"), "docs/b/index.json", Vec::new(), &options, &mut cache);
    assert_eq!(first.get("doc.title").unwrap().as_str(), format!("{REMOVED}old</s></span>{ADDED}new</span>"));
    assert_eq!(second.get("doc.title").unwrap().as_str(), format!("{REMOVED}old</s></span>{ADDED}newer</span>"));
}

#[test]
fn values_that_are_no_text_are_not_cached() {
    let mut cache = DedupCache::new();
    let options = DiffOptions::new();
    let lhs = object(vec![("n", number("1"))]);
    let rhs = object(vec![("n", number("2"))]);
    for file in ["docs/a/index.json", "docs/b/index.json"] {
        let (out, diff) = diff_at(&lhs, &rhs, file, Vec::new(), &options, &mut cache);
        assert_eq!(out, Ok(()));
        assert_eq!(diff.get("n").unwrap().as_str(), format!("{REMOVED}1</s></span>{ADDED}2</span>"));
    }
}

#[test]
fn markup_that_cannot_be_minified_is_an_error() {
    let lhs = object(vec![("doc", object(vec![("content", text("<script>"))]))]);
    let rhs = object(vec![("doc", object(vec![("content", text("<p>x</p>"))]))]);
    let mut cache = DedupCache::new();
    let (out, diff) = diff_at(&lhs, &rhs, "docs/web/index.json", Vec::new(), &DiffOptions::new(), &mut cache);
    assert_eq!(out, Err(DiffError::Minify));
    assert!(diff.is_empty());
}

#[test]
fn error_keeps_what_was_reported_before() {
    let lhs = object(vec![("a", number("1")), ("b", text("<script>")), ("c", number("1"))]);
    let rhs = object(vec![("a", number("2")), ("b", text("<p>x</p>")), ("c", number("2"))]);
    let mut cache = DedupCache::new();
    let (out, diff) = diff_at(&lhs, &rhs, "docs/web/index.json", Vec::new(), &DiffOptions::new(), &mut cache);
    assert_eq!(out, Err(DiffError::Minify));
    assert_eq!(keys(&diff), vec!["a".to_string()]);
}

#[test]
fn text_that_cannot_be_rendered_is_an_error() {
    let lhs = object(vec![("a", text("x \u{1b}[38;5;999m y"))]);
    let rhs = object(vec![("a", text("z"))]);
    let mut cache = DedupCache::new();
    let (out, _) = diff_at(&lhs, &rhs, "docs/web/index.json", Vec::new(), &DiffOptions::new(), &mut cache);
    assert_eq!(out, Err(DiffError::Render));
}

#[test]
fn shallow_diff_does_not_descend() {
    let lhs = Json::Array(vec![number("1"), number("2")]);
    let rhs = Json::Array(vec![number("1"), number("3")]);
    let mut diff = DivergenceMap::new();
    let mut cache = DedupCache::new();
    let out = shallow_diff(
        &lhs,
        &rhs,
        "docs/web/index.json",
        &vec![key("list")],
        &mut diff,
        &DiffOptions::new(),
        &Policy::standard(),
        &mut cache,
    );
    assert_eq!(out, Ok(()));
    assert_eq!(keys(&diff), vec!["list".to_string()]);
}

#[test]
fn divergences_are_added_to_the_map() {
    let mut diff = DivergenceMap::new();
    diff.insert("zzz".to_string(), "kept".to_string());
    let mut cache = DedupCache::new();
    let out = full_diff(
        &titled("a"),
        &titled("b"),
        "docs/web/index.json",
        &Vec::new(),
        &mut diff,
        &DiffOptions::new(),
        &Policy::standard(),
        &mut cache,
    );
    assert_eq!(out, Ok(()));
    assert_eq!(keys(&diff), vec!["doc.title".to_string(), "zzz".to_string()]);
    assert_eq!(diff.get("zzz").unwrap().as_str(), "kept");
}

fn shape(found: &[Found]) -> Vec<(String, String)> {
    found
        .iter()
        .map(|f| {
            let what = match &f.difference {
                Difference::Text { lhs, rhs } => format!("text {lhs:?} {rhs:?}"),
                Difference::Other { lhs, rhs } => format!("other {lhs} {rhs}"),
                Difference::Broken { error } => format!("broken {error:?}"),
            };
            (f.key.clone(), what)
        })
        .collect()
}

const REMOVED_SPACE: &str =
    "<span style='color:var(--white,#aaa)'><span style='background:var(--red,#a00)'> </span></span>";

#[test]
fn texts_are_normalised_and_canonicalised_before_they_are_compared() {
    let key: Vec<char> = "doc.body.0.value.id".chars().collect();
    let options = DiffOptions::new();
    let mut found = Vec::new();
    find_text(&key, "a_1", "a_2", &options, &mut found);
    find_text(&key, "<p> a </p>", "<p>a</p>", &options, &mut found);
    assert!(found.is_empty());
    find_text(&key, "<p", "<p>a</p>", &options, &mut found);
    find_text(&key, "<p>b</p>", "<p>a</p>", &options, &mut found);
    find_text(&key, "<p>", "<script>", &options, &mut found);
    find_text(&key, "<script>", "<p>", &options, &mut found);
    assert_eq!(
        shape(&found),
        vec![
            ("doc.body.0.value.id".to_string(), "text \"<p\" \"<p>a</p>\"".to_string()),
            (
                "doc.body.0.value.id".to_string(),
                "text \"<p>\\nb\\n</p>\" \"<p>\\na\\n</p>\"".to_string()
            ),
            ("doc.body.0.value.id".to_string(), "broken Minify".to_string()),
            ("doc.body.0.value.id".to_string(), "broken Minify".to_string()),
        ]
    );
}

#[test]
fn other_values_are_compared_as_json() {
    let key: Vec<char> = "doc.n".chars().collect();
    let mut found = Vec::new();
    find_other(&key, &number("1"), &number("1"), &mut found);
    assert!(found.is_empty());
    find_other(&key, &text("1"), &number("1"), &mut found);
    find_other(&key, &Json::Null, &Json::Array(vec![Json::Bool(true)]), &mut found);
    assert_eq!(
        shape(&found),
        vec![
            ("doc.n".to_string(), "other \"1\" 1".to_string()),
            ("doc.n".to_string(), "other null [true]".to_string()),
        ]
    );
}

#[test]
fn findings_are_collected_in_the_order_of_the_walk() {
    let lhs = object(vec![("a", number("1")), ("b", text("x")), ("c", Json::Array(vec![number("1")]))]);
    let rhs = object(vec![("b", text("y")), ("c", Json::Array(vec![number("1"), number("2")])), ("d", Json::Null), ("e", text("z"))]);
    let found = collect_findings(&lhs, &rhs, "docs/web/index.json", &Vec::new(), &DiffOptions::new(), &Policy::standard());
    assert_eq!(
        shape(&found),
        vec![
            ("a".to_string(), "other 1 null".to_string()),
            ("b".to_string(), "text \"x\" \"y\"".to_string()),
            ("c.1".to_string(), "other null 2".to_string()),
            ("e".to_string(), "other null \"z\"".to_string()),
        ]
    );
    let mut diff = DivergenceMap::new();
    let mut cache = DedupCache::new();
    assert_eq!(report_findings(&found, &mut diff, &DiffOptions::new(), &mut cache), Ok(()));
    assert_eq!(keys(&diff), vec!["a".to_string(), "b".to_string(), "c.1".to_string(), "e".to_string()]);
    assert!(cache.contains(&pending_digest(&found[1]).unwrap()));
    assert!(pending_digest(&found[0]).is_none());
}

#[test]
fn findings_are_stored_by_what_the_cache_said() {
    let text_found = Found {
        key: "doc.title".to_string(),
        difference: Difference::Text { lhs: "<p> a </p>".to_string(), rhs: "<p>a</p>".to_string() },
    };
    let mut diff = DivergenceMap::new();
    assert_eq!(store_found(&text_found, Some(Seen::First), &mut diff, false), Ok(()));
    assert_eq!(
        diff.get("doc.title").unwrap().as_str(),
        format!("&lt;p&gt;{REMOVED_SPACE}a{REMOVED_SPACE}&lt;/p&gt;")
    );
    assert_eq!(store_found(&text_found, Some(Seen::Already("elsewhere".to_string())), &mut diff, false), Ok(()));
    assert_eq!(diff.get("doc.title").unwrap().as_str(), "See elsewhere");
    let other = Found {
        key: "doc.n".to_string(),
        difference: Difference::Other { lhs: "\"1\"".to_string(), rhs: "1".to_string() },
    };
    assert_eq!(store_found(&other, None, &mut diff, true), Ok(()));
    assert_eq!(
        diff.get("doc.n").unwrap().as_str(),
        format!("{REMOVED}&quot;</s></span>1{REMOVED}&quot;</s></span>")
    );
    let broken = Found {
        key: "doc.x".to_string(),
        difference: Difference::Broken { error: DiffError::Rewrite },
    };
    assert_eq!(store_found(&broken, None, &mut diff, false), Err(DiffError::Rewrite));
    assert_eq!(diff.len(), 2);
    assert_eq!(
        pending_digest(&text_found).unwrap(),
        diff_test::dedup::digest_pair("<p> a </p>", "<p>a</p>")
    );
}

#[test]
fn every_place_that_differs_has_an_entry_of_its_own() {
    let lhs = object(vec![
        ("a", object(vec![("b", number("1")), ("c", Json::Array(vec![number("1"), number("2")]))])),
        ("ab", number("1")),
        ("10", text("x")),
    ]);
    let rhs = object(vec![
        ("a", object(vec![("b", number("2")), ("c", Json::Array(vec![number("3"), number("4"), number("5")]))])),
        ("ab", number("2")),
        ("10", text("y")),
        ("z", Json::Null),
    ]);
    let policy = Policy::standard();
    let found = collect_findings(&lhs, &rhs, "docs/web/index.json", &Vec::new(), &DiffOptions::new(), &policy);
    let diff = diff_docs(&lhs, &rhs, "docs/web/index.json");
    assert_eq!(found.len(), 6);
    assert_eq!(diff.len(), found.len());
    assert_eq!(
        keys(&diff),
        vec![
            "10".to_string(),
            "a.b".to_string(),
            "a.c.0".to_string(),
            "a.c.1".to_string(),
            "a.c.2".to_string(),
            "ab".to_string(),
        ]
    );
}

#[test]
fn keys_with_a_dot_can_share_a_dotted_key() {
    let lhs = object(vec![("a", object(vec![("b", number("1"))])), ("a.b", number("2"))]);
    let rhs = object(vec![("a", object(vec![("b", number("3"))])), ("a.b", number("4"))]);
    let found = collect_findings(&lhs, &rhs, "docs/web/index.json", &Vec::new(), &DiffOptions::new(), &Policy::standard());
    assert_eq!(found.len(), 2);
    assert_eq!(found[0].key, "a.b");
    assert_eq!(found[1].key, "a.b");
    let diff = diff_docs(&lhs, &rhs, "docs/web/index.json");
    assert_eq!(diff.len(), 1);
    // the place visited last is the one that is shown
    assert_eq!(diff.get("a.b").unwrap().as_str(), format!("{REMOVED}2</s></span>{ADDED}4</span>"));
}

fn text_found(key: &str, lhs: &str, rhs: &str) -> Found {
    Found {
        key: key.to_string(),
        difference: Difference::Text { lhs: lhs.to_string(), rhs: rhs.to_string() },
    }
}

#[test]
fn recording_first_and_storing_afterwards_reports_the_same() {
    let found = vec![
        text_found("a", "one", "two"),
        Found { key: "b".to_string(), difference: Difference::Other { lhs: "1".to_string(), rhs: "2".to_string() } },
        text_found("c", "one", "two"),
        text_found("d", "two", "one"),
        text_found("e", "one", "two"),
    ];
    let mut at_once = DivergenceMap::new();
    let mut cache = DedupCache::new();
    assert_eq!(report_findings(&found, &mut at_once, &DiffOptions::new(), &mut cache), Ok(()));

    let mut in_two = DivergenceMap::new();
    let mut shared = DedupCache::new();
    let seen = record_findings(&found, &mut shared);
    assert_eq!(seen.len(), 5);
    assert!(matches!(seen[0], Some(Seen::First)));
    assert!(seen[1].is_none());
    assert!(matches!(&seen[2], Some(Seen::Already(marker)) if marker == "somewhere else"));
    assert!(matches!(seen[3], Some(Seen::First)));
    assert!(matches!(&seen[4], Some(Seen::Already(marker)) if marker == "somewhere else"));
    assert_eq!(store_findings(&found, &seen, &mut in_two, false), Ok(()));
    assert_eq!(in_two.len(), 5);
    for key in ["a", "b", "c", "d", "e"] {
        assert_eq!(in_two.get(key).unwrap().as_str(), at_once.get(key).unwrap().as_str());
    }
    assert_eq!(in_two.get("c").unwrap().as_str(), "See somewhere else");
    assert_ne!(in_two.get("a").unwrap().as_str(), "See somewhere else");
    assert_ne!(in_two.get("d").unwrap().as_str(), "See somewhere else");
    assert!(shared.contains(&pending_digest(&found[0]).unwrap()));
    assert!(shared.contains(&pending_digest(&found[3]).unwrap()));
}

#[test]
fn a_disabled_cache_answers_first_every_time() {
    let found = vec![text_found("a", "one", "two"), text_found("b", "one", "two")];
    let mut cache = DedupCache::disabled();
    let seen = record_findings(&found, &mut cache);
    assert!(matches!(seen[0], Some(Seen::First)));
    assert!(matches!(seen[1], Some(Seen::First)));
    assert!(!cache.contains(&pending_digest(&found[0]).unwrap()));
    let mut diff = DivergenceMap::new();
    assert_eq!(store_findings(&found, &seen, &mut diff, false), Ok(()));
    assert_eq!(diff.get("a").unwrap().as_str(), diff.get("b").unwrap().as_str());
}

#[test]
fn storing_ends_at_the_first_error() {
    let found = vec![
        text_found("a", "one", "two"),
        Found { key: "b".to_string(), difference: Difference::Broken { error: DiffError::Minify } },
        text_found("c", "three", "four"),
    ];
    let mut cache = DedupCache::new();
    let seen = record_findings(&found, &mut cache);
    let mut diff = DivergenceMap::new();
    assert_eq!(store_findings(&found, &seen, &mut diff, false), Err(DiffError::Minify));
    assert_eq!(diff.len(), 1);
    assert!(diff.get("a").is_some());
    assert!(diff.get("c").is_none());
    let mut none = DivergenceMap::new();
    assert_eq!(store_findings(&Vec::new(), &Vec::new(), &mut none, false), Ok(()));
    assert!(none.is_empty());
}
