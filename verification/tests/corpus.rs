use diff_test::corpus::{
    compare_corpora, compare_document, compare_plain, first_or_null, pair_up, pairing_file,
    CompareMode, Corpus, ItemBody, Report,
};
use diff_test::dedup::DedupCache;
use diff_test::divergence::DivergenceMap;
use diff_test::json::{Json, Member};
use diff_test::options::{DiffError, DiffOptions};
use diff_test::policy::Policy;
use diff_test::report::{
    category_of, group_items, html, render_item, to_csv, to_html, write_pretty_map,
};

fn text(s: &str) -> Json {
    Json::Text(s.to_string())
}

fn doc(title: &str, body: &str) -> Json {
    Json::Object(vec![Member {
        key: "doc".to_string(),
        value: Json::Object(vec![
            Member { key: "body".to_string(), value: text(body) },
            Member { key: "title".to_string(), value: text(title) },
        ]),
    }])
}

fn corpus(documents: Vec<(&str, Json)>) -> Corpus {
    let mut corpus = Corpus::new();
    for (path, value) in documents {
        assert!(corpus.push(path.to_string(), value), "{path}");
    }
    corpus
}

fn compare(a: &Corpus, b: &Corpus, mode: CompareMode) -> Result<Report, DiffError> {
    let mut cache = DedupCache::new();
    compare_corpora(a, b, mode, &DiffOptions::new(), &Policy::standard(), &mut cache)
}

fn files(report: &Report) -> Vec<String> {
    report.items.iter().map(|item| item.file.clone()).collect()
}

fn keys(item: &ItemBody) -> Vec<String> {
    match item {
        ItemBody::Divergences(map) => map.entries.iter().map(|e| e.path.clone()).collect(),
        ItemBody::Panes { .. } => panic!("two texts where divergences were expected"),
    }
}

fn generation_a() -> Corpus {
    corpus(vec![
        ("docs/glossary/index.json", doc("Glossary", "<p>terms</p>")),
        ("docs/web/css/color/index.json", doc("color", "<p>old colour</p>")),
        ("docs/web/css/index.json", doc("CSS", "<p>style</p>")),
        ("docs/web/html/index.json", doc("HTML", "<p>old markup</p>")),
    ])
}

fn generation_b() -> Corpus {
    corpus(vec![
        ("docs/glossary/index.json", doc("Glossary", "<p>\n  terms\n</p>")),
        ("docs/web/css/color/index.json", doc("colour", "<p>new colour</p>")),
        ("docs/web/css/index.json", doc("CSS", "<p>style</p>")),
        ("docs/web/javascript/index.json", doc("JavaScript", "<p>script</p>")),
    ])
}

#[test]
fn corpus_against_itself_is_all_the_same() {
    let a = generation_a();
    let report = compare(&a, &a, CompareMode::Tree).unwrap();
    assert!(report.items.is_empty());
    assert_eq!(report.same, 4);
    assert_eq!(report.total, 4);
    let report = compare(&a, &a, CompareMode::Plain { ignore_html_whitespace: true }).unwrap();
    assert!(report.items.is_empty());
    assert_eq!(report.same, 4);
    let empty = Corpus::new();
    let report = compare(&empty, &empty, CompareMode::Tree).unwrap();
    assert_eq!((report.items.len(), report.same, report.total), (0, 0, 0));
}

#[test]
fn every_path_of_either_generation_is_compared() {
    let report = compare(&generation_a(), &generation_b(), CompareMode::Tree).unwrap();
    assert_eq!(report.total, 5);
    assert_eq!(report.same, 2);
    assert_eq!(
        files(&report),
        vec![
            "docs/web/css/color/index.json".to_string(),
            "docs/web/html/index.json".to_string(),
            "docs/web/javascript/index.json".to_string(),
        ]
    );
    assert_eq!(keys(&report.items[0].body), vec!["doc.body".to_string(), "doc.title".to_string()]);
    // a document that one generation lacks is compared against null
    assert_eq!(keys(&report.items[1].body), vec!["".to_string()]);
    assert_eq!(keys(&report.items[2].body), vec!["".to_string()]);
}

#[test]
fn corpus_keeps_its_paths_in_order() {
    let mut corpus = Corpus::new();
    assert!(corpus.push("b".to_string(), Json::Null));
    assert!(!corpus.push("a".to_string(), Json::Null));
    assert!(!corpus.push("b".to_string(), Json::Null));
    assert!(corpus.push("c".to_string(), Json::Null));
    let unsorted = Json::Object(vec![
        Member { key: "b".to_string(), value: Json::Null },
        Member { key: "a".to_string(), value: Json::Null },
    ]);
    assert!(!corpus.push("d".to_string(), unsorted));
    assert_eq!(corpus.len(), 2);
}

#[test]
fn shared_difference_is_rendered_once_in_a_corpus() {
    let a = corpus(vec![
        ("docs/a/index.json", doc("T", "old text")),
        ("docs/b/index.json", doc("T", "old text")),
        ("docs/c/index.json", doc("T", "old text")),
    ]);
    let b = corpus(vec![
        ("docs/a/index.json", doc("T", "new text")),
        ("docs/b/index.json", doc("T", "new text")),
        ("docs/c/index.json", doc("T", "new text")),
    ]);
    let report = compare(&a, &b, CompareMode::Tree).unwrap();
    let shown: Vec<String> = report
        .items
        .iter()
        .map(|item| match &item.body {
            ItemBody::Divergences(map) => map.get("doc.body").unwrap().clone(),
            ItemBody::Panes { .. } => panic!("divergences were expected"),
        })
        .collect();
    let full = "<span style='color:var(--red,#a00)'><s>old</s></span><span style='color:var(--green,#0a0)'>new</span> text";
    assert_eq!(shown, vec![full.to_string(), "See somewhere else".to_string(), "See somewhere else".to_string()]);
    let mut cache = DedupCache::disabled();
    let report = compare_corpora(&a, &b, CompareMode::Tree, &DiffOptions::new(), &Policy::standard(), &mut cache).unwrap();
    for item in &report.items {
        match &item.body {
            ItemBody::Divergences(map) => assert_eq!(map.get("doc.body").unwrap().as_str(), full),
            ItemBody::Panes { .. } => panic!("divergences were expected"),
        }
    }
}

#[test]
fn plain_mode_compares_texts() {
    let out = compare_plain(&text("<p> a </p>"), &text("<p>a</p>"), false).unwrap();
    match out {
        Some(ItemBody::Panes { left, right }) => {
            assert_eq!(left, "<p> a </p>");
            assert_eq!(right, "<p>a</p>");
        },
        _ => panic!("the texts differ"),
    }
    assert!(compare_plain(&text("<p> a </p>"), &text("<p>a</p>"), true).unwrap().is_none());
    assert!(compare_plain(&text("a"), &text("a"), false).unwrap().is_none());
    // what is no text counts as the empty text
    assert!(compare_plain(&Json::Null, &text(""), false).unwrap().is_none());
    assert!(compare_plain(&Json::Bool(true), &Json::Null, true).unwrap().is_none());
    match compare_plain(&text("<p>b</p>"), &Json::Null, true).unwrap() {
        Some(ItemBody::Panes { left, right }) => {
            assert_eq!(left, "<p>b</p>");
            assert_eq!(right, "");
        },
        _ => panic!("the texts differ"),
    }
    assert_eq!(compare_plain(&text("<script>"), &text("x"), true).err(), Some(DiffError::Minify));
    // equal documents are the same without being looked at
    assert!(compare_plain(&text("<script>"), &text("<script>"), true).unwrap().is_none());
}

#[test]
fn plain_mode_in_a_corpus() {
    let a = corpus(vec![("docs/a/index.json", text("<p> a </p>")), ("docs/b/index.json", text("<p>b</p>"))]);
    let b = corpus(vec![("docs/a/index.json", text("<p>a</p>")), ("docs/b/index.json", text("<p>c</p>"))]);
    let report = compare(&a, &b, CompareMode::Plain { ignore_html_whitespace: true }).unwrap();
    assert_eq!(files(&report), vec!["docs/b/index.json".to_string()]);
    assert_eq!(report.same, 1);
    let report = compare(&a, &b, CompareMode::Plain { ignore_html_whitespace: false }).unwrap();
    assert_eq!(report.items.len(), 2);
    assert_eq!(report.same, 0);
    assert_eq!(report.total, 2);
}

#[test]
fn error_ends_the_comparison() {
    let a = corpus(vec![("docs/a/index.json", doc("T", "<script>"))]);
    let b = corpus(vec![("docs/a/index.json", doc("T", "<p>x</p>"))]);
    assert_eq!(compare(&a, &b, CompareMode::Tree).err(), Some(DiffError::Minify));
}

#[test]
fn one_document_is_compared_from_its_root() {
    let mut cache = DedupCache::new();
    let out = compare_document(
        CompareMode::Tree,
        "docs/web/index.json",
        &doc("a", "x"),
        &doc("b", "x"),
        &DiffOptions::new(),
        &Policy::standard(),
        &mut cache,
    )
    .unwrap();
    assert_eq!(keys(&out.unwrap()), vec!["doc.title".to_string()]);
    let out = compare_document(
        CompareMode::Tree,
        "docs/mdn/writing_guidelines/index.json",
        &doc("a", "x"),
        &doc("b", "x"),
        &DiffOptions::new(),
        &Policy::standard(),
        &mut cache,
    )
    .unwrap();
    assert!(out.is_none());
}

#[test]
fn csv_has_one_row_for_each_divergence() {
    let report = compare(&generation_a(), &generation_b(), CompareMode::Tree).unwrap();
    let csv = to_csv(&report.items);
    assert_eq!(
        csv,
        "File;JSON Path\n\
         docs/web/css/color/index.json;doc.body\n\
         docs/web/css/color/index.json;doc.title\n\
         docs/web/html/index.json;\n\
         docs/web/javascript/index.json;\n"
    );
    let mut recorded = Vec::new();
    for item in &report.items {
        for key in keys(&item.body) {
            recorded.push((item.file.clone(), key));
        }
    }
    let rows: Vec<(String, String)> = csv
        .lines()
        .skip(1)
        .map(|line| {
            let (file, path) = line.split_once(';').unwrap();
            (file.to_string(), path.to_string())
        })
        .collect();
    assert_eq!(rows, recorded);
    assert_eq!(to_csv(&Vec::new()), "File;JSON Path\n");
}

#[test]
fn csv_of_two_texts_names_the_root() {
    let a = corpus(vec![("docs/b/index.json", text("<p>b</p>"))]);
    let b = corpus(vec![("docs/b/index.json", text("<p>c</p>"))]);
    let report = compare(&a, &b, CompareMode::Plain { ignore_html_whitespace: false }).unwrap();
    assert_eq!(to_csv(&report.items), "File;JSON Path\ndocs/b/index.json;\n");
}

#[test]
fn categories_follow_the_first_folders() {
    assert_eq!(category_of("docs/web/css/color/index.json"), "docs/web/css");
    assert_eq!(category_of("docs/web/css/index.json"), "docs/web/css");
    assert_eq!(category_of("docs/web/index.json"), "docs/web/index.json");
    assert_eq!(category_of("docs/web"), "docs/web");
    assert_eq!(category_of("docs/web/"), "docs/web/");
    assert_eq!(category_of("docs/glossary/http/index.json"), "docs/glossary");
    assert_eq!(category_of("docs/index.json"), "docs/index.json");
    assert_eq!(category_of("docs"), "docs");
    assert_eq!(category_of("blog/post/index.json"), "blog");
    assert_eq!(category_of("index.json"), "index.json");
    assert_eq!(category_of(""), "");
    assert_eq!(category_of("/docs/web/css"), "");
    assert_eq!(category_of("docs//x"), "docs/");
    assert_eq!(category_of("docsx/web/css"), "docsx");
}

fn folders_category(k: &str) -> String {
    let p = k.splitn(4, '/').collect::<Vec<_>>();
    match &p[..] {
        ["docs", "web", cat, ..] => format!("docs/web/{cat}"),
        ["docs", cat, ..] => format!("docs/{cat}"),
        [cat, ..] => cat.to_string(),
        [] => "".to_string(),
    }
}

#[test]
fn categories_agree_with_splitting_in_four() {
    for path in [
        "docs/web/css/color/index.json",
        "docs/web/a/b/c/d",
        "docs/web",
        "docs/web/",
        "docs/",
        "docs",
        "docs/a",
        "docs/a/b",
        "a/b/c/d/e",
        "",
        "/",
        "//",
        "docs//",
        "docs/web//x",
    ] {
        assert_eq!(category_of(path), folders_category(path), "{path:?}");
    }
}

#[test]
fn items_are_rendered_as_list_entries() {
    let report = compare(&generation_a(), &generation_b(), CompareMode::Tree).unwrap();
    let entry = render_item(&report.items[0]);
    let expected_json = {
        let mut map = std::collections::BTreeMap::new();
        match &report.items[0].body {
            ItemBody::Divergences(divergences) => {
                for e in &divergences.entries {
                    map.insert(e.path.clone(), e.text.clone());
                }
            },
            ItemBody::Panes { .. } => panic!("divergences were expected"),
        }
        serde_json::to_string_pretty(&map).unwrap()
    };
    assert_eq!(
        entry,
        format!(
            "<li><span>docs/web/css/color/index.json</span><div class=\"r\"><pre><code>{expected_json}</code></pre></div></li>"
        )
    );
    assert!(expected_json.starts_with("{\n  \"doc.body\": \""));

    let a = corpus(vec![("docs/b/index.json", text("<p>b</p>"))]);
    let b = corpus(vec![("docs/b/index.json", text("<p>c</p>"))]);
    let report = compare(&a, &b, CompareMode::Plain { ignore_html_whitespace: false }).unwrap();
    assert_eq!(
        render_item(&report.items[0]),
        "<li><span>docs/b/index.json</span><div class=\"a\"><p>b</p></div><div class=\"b\"><p>c</p></div></li>"
    );
}

#[test]
fn items_are_grouped_by_category() {
    let a = corpus(vec![
        ("blog/x/index.json", text("1")),
        ("docs/glossary/a/index.json", text("1")),
        ("docs/web/css/a/index.json", text("1")),
        ("docs/web/css/b/index.json", text("1")),
        ("docs/web/html/index.json", text("1")),
        ("docs/zzz/index.json", text("1")),
    ]);
    let b = corpus(vec![
        ("blog/x/index.json", text("2")),
        ("docs/glossary/a/index.json", text("2")),
        ("docs/web/css/a/index.json", text("2")),
        ("docs/web/css/b/index.json", text("2")),
        ("docs/web/html/index.json", text("2")),
        ("docs/zzz/index.json", text("2")),
    ]);
    let report = compare(&a, &b, CompareMode::Plain { ignore_html_whitespace: false }).unwrap();
    let groups = group_items(&report.items);
    let shape: Vec<(String, usize)> = groups.iter().map(|g| (g.category.clone(), g.items.len())).collect();
    assert_eq!(
        shape,
        vec![
            ("blog".to_string(), 1),
            ("docs/glossary".to_string(), 1),
            ("docs/web/css".to_string(), 2),
            ("docs/web/html".to_string(), 1),
            ("docs/zzz".to_string(), 1),
        ]
    );
    assert!(groups[2].items[0].contains("docs/web/css/a/index.json"));
    assert!(groups[2].items[1].contains("docs/web/css/b/index.json"));

    let page = to_html(&report.items);
    let entry = |file: &str| {
        format!("<li><span>{file}</span><div class=\"a\">1</div><div class=\"b\">2</div></li>")
    };
    let body = format!(
        "<li><details><summary>[1] blog</summary><ul>{}</ul></details></li>\
         <li><details><summary>[1] docs/glossary</summary><ul>{}</ul></details></li>\
         <li><details><summary>[2] docs/web/css</summary><ul>{}{}</ul></details></li>\
         <li><details><summary>[1] docs/web/html</summary><ul>{}</ul></details></li>\
         <li><details><summary>[1] docs/zzz</summary><ul>{}</ul></details></li>",
        entry("blog/x/index.json"),
        entry("docs/glossary/a/index.json"),
        entry("docs/web/css/a/index.json"),
        entry("docs/web/css/b/index.json"),
        entry("docs/web/html/index.json"),
        entry("docs/zzz/index.json"),
    );
    assert_eq!(page, html(&body));
}

#[test]
fn page_wraps_the_list() {
    let page = html("<li>x</li>");
    assert!(page.starts_with("<!doctype html>\n<html lang=\"en\" prefix=\"og: https://ogp.me/ns#\">\n\n<head>\n    <meta charset=\"utf-8\" />\n"));
    assert!(page.contains("        body > ul {\n            & > li {\n                list-style: none;\n            }\n"));
    assert!(page.contains("grid-template-areas: \"h h\" \"a b\" \"r r\";"));
    assert!(page.ends_with("    </style>\n</head>\n<body>\n<ul>\n<li>x</li>\n</ul>\n</body>\n</html>\n"));
    assert_eq!(page.len(), html("").len() + "<li>x</li>".len());
    assert_eq!(page.lines().count(), 53);
}

#[test]
fn paths_of_both_generations_are_paired_in_order() {
    let a = generation_a();
    let b = generation_b();
    let pairings = pair_up(&a, &b);
    let shape: Vec<(String, Option<usize>, Option<usize>)> = pairings
        .iter()
        .map(|p| (pairing_file(&a, &b, p).clone(), p.left(), p.right()))
        .collect();
    assert_eq!(
        shape,
        vec![
            ("docs/glossary/index.json".to_string(), Some(0), Some(0)),
            ("docs/web/css/color/index.json".to_string(), Some(1), Some(1)),
            ("docs/web/css/index.json".to_string(), Some(2), Some(2)),
            ("docs/web/html/index.json".to_string(), Some(3), None),
            ("docs/web/javascript/index.json".to_string(), None, Some(3)),
        ]
    );
    let null = Json::Null;
    assert!(a.document_or(pairings[3].left(), &null).same(&doc("HTML", "<p>old markup</p>")));
    assert!(b.document_or(pairings[3].right(), &null).same(&Json::Null));
    assert!(pair_up(&Corpus::new(), &Corpus::new()).is_empty());
    assert_eq!(pair_up(&a, &Corpus::new()).len(), 4);
    assert_eq!(pair_up(&Corpus::new(), &b).len(), 4);
}

#[test]
fn projection_takes_the_first_value_or_null() {
    assert!(first_or_null(vec![text("a"), text("b")]).same(&text("a")));
    assert!(first_or_null(vec![Json::Bool(false)]).same(&Json::Bool(false)));
    assert!(first_or_null(Vec::new()).same(&Json::Null));
}

#[test]
fn divergences_are_written_as_indented_json() {
    let mut map = DivergenceMap::new();
    map.insert("doc.title".to_string(), "a \"b\"\n<c> \\ \u{1}".to_string());
    map.insert("doc.body.0".to_string(), "x".to_string());
    let mut out: Vec<char> = "-".chars().collect();
    write_pretty_map(&mut out, &map);
    assert_eq!(
        out.iter().collect::<String>(),
        "-{\n  \"doc.body.0\": \"x\",\n  \"doc.title\": \"a \\\"b\\\"\\n<c> \\\\ \\u0001\"\n}"
    );
    let mut out: Vec<char> = Vec::new();
    write_pretty_map(&mut out, &DivergenceMap::new());
    assert_eq!(out.iter().collect::<String>(), "{}");
    let mut one = DivergenceMap::new();
    one.insert("k".to_string(), String::new());
    let mut out: Vec<char> = Vec::new();
    write_pretty_map(&mut out, &one);
    assert_eq!(out.iter().collect::<String>(), "{\n  \"k\": \"\"\n}");
}
