use diff_test::policy::Policy;

fn chars(s: &str) -> Vec<char> {
    s.chars().collect()
}

#[test]
fn standard_policy_holds_the_tables() {
    let policy = Policy::standard();
    assert_eq!(policy.ignored_keys.len(), 10);
    assert_eq!(policy.skipped_prefixes.len(), 3);
    assert_eq!(policy.allowlist.len(), 228);
    assert_eq!(policy.ignored_keys[0], chars("doc.flaws"));
    assert_eq!(policy.ignored_keys[9], chars("doc.summary"));
    assert_eq!(policy.skipped_prefixes[2], chars("docs/mozilla/firefox/releases/"));
    assert_eq!(policy.allowlist[0].file, chars("docs/glossary/http/index.json"));
    assert_eq!(policy.allowlist[0].path, chars("doc.body.0.value.content"));
    assert_eq!(policy.allowlist[227].file, chars("docs/web/css/outline/index.json"));
    assert_eq!(policy.allowlist[227].path, chars("doc.body.8.value.content"));
}

#[test]
fn standard_policy_decides() {
    let policy = Policy::standard();
    assert!(policy.is_skipped_file(&chars("docs/mdn/writing_guidelines/index.json")));
    assert!(policy.is_skipped_file(&chars("docs/mozilla/add-ons/webextensions/api/index.json")));
    assert!(!policy.is_skipped_file(&chars("docs/mdn/index.json")));
    assert!(!policy.is_skipped_file(&chars("x/docs/mdn/writing_guidelines/index.json")));
    assert!(policy.is_allowed(&chars("docs/web/svg/attribute/d/index.json"), &chars("doc.body.7.value.content")));
    assert!(policy.is_allowed(&chars("docs/web/css/color_value/hwb/index.json"), &chars("doc.baseline")));
    assert!(!policy.is_allowed(&chars("docs/web/svg/attribute/d/index.json"), &chars("doc.body.7.value")));
    assert!(!policy.is_allowed(&chars("docs/web/svg/attribute/d/index.json"), &chars("doc.body.9.value.content")));
    assert!(!policy.is_allowed(&chars("docs/web/css/stop-opacity/index.json"), &chars("doc.body.3.value.content")));
    assert!(policy.is_allowed(&chars("docs/web/css/stop-opacity/index.json"), &chars("doc.body.4.value.content")));
    assert!(policy.is_ignored_key(&chars("doc.flaws")));
    assert!(policy.is_ignored_key(&chars("doc.flaws.broken_links.0")));
    assert!(policy.is_ignored_key(&chars("blogMeta.readTime")));
    assert!(policy.is_ignored_key(&chars("doc.source.github_url")));
    assert!(!policy.is_ignored_key(&chars("doc.source.folder")));
    assert!(!policy.is_ignored_key(&chars("doc.sidebarHTML")));
    assert!(!policy.is_ignored_key(&chars("doc")));
}

#[test]
fn tables_can_be_built() {
    let mut policy = Policy::new();
    assert!(!policy.is_ignored_key(&chars("a.b")));
    assert!(!policy.is_skipped_file(&chars("docs/x")));
    assert!(!policy.is_allowed(&chars("f"), &chars("a.b")));
    policy.ignore_key("a.");
    policy.skip_prefix("docs/");
    policy.allow("f", "a.b");
    assert!(policy.is_ignored_key(&chars("a.b")));
    assert!(!policy.is_ignored_key(&chars("a")));
    assert!(policy.is_skipped_file(&chars("docs/x")));
    assert!(policy.is_allowed(&chars("f"), &chars("a.b")));
    assert!(!policy.is_allowed(&chars("a.b"), &chars("f")));
}
