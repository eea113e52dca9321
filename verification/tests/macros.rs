use diff_test::macros::{
    changed_files_line, collect_args, event_url, follow_redirect, in_locale_folder, replace_call,
    replace_deprecated_macros, replace_macro, replace_macros, rewrite_page, Macro, PageFile,
    Redirect, Rewrite, process_event_macro, process_no_tag_omission_macro, process_page_macro,
    process_todo_macro, strip_end, strip_start, Locale, Strip,
};

fn args(list: &[&str]) -> Vec<String> {
    list.iter().map(|s| s.to_string()).collect()
}

fn reference_args(text: &str) -> Vec<String> {
    text.trim()
        .trim_end_matches(')')
        .trim_start_matches('(')
        .trim_end_matches(')')
        .trim_start_matches('(')
        .split(',')
        .map(|a| {
            a.trim()
                .trim_start_matches('\'')
                .trim_end_matches('\'')
                .trim_start_matches('"')
                .trim_end_matches('"')
                .to_string()
        })
        .collect()
}

#[test]
fn arguments_are_collected() {
    assert_eq!(collect_args("('click', \"Click\", 'anchor')"), args(&["click", "Click", "anchor"]));
    assert_eq!(collect_args("  (( 'a' , b ))  "), args(&["a", "b"]));
    assert_eq!(collect_args(""), args(&[""]));
    assert_eq!(collect_args("()"), args(&[""]));
    assert_eq!(collect_args("(a,,b,)"), args(&["a", "", "b", ""]));
    assert_eq!(collect_args("('it''s')"), args(&["it''s"]));
    assert_eq!(collect_args("(\"'x'\")"), args(&["'x'"]));
}

#[test]
fn arguments_agree_with_the_trimming_of_strings() {
    for text in [
        "('click', \"Click\", 'anchor')",
        "  (( 'a' , b ))  ",
        "",
        ",",
        " ( ' a ' ) ",
        "(a)(b)",
        "'\"mixed\"'",
        "\"'mixed'\"",
        "(\u{a0}x\u{2003},y)",
        ")a(",
    ] {
        assert_eq!(collect_args(text), reference_args(text), "{text:?}");
    }
}

#[test]
fn ends_are_stripped() {
    let chars = |s: &str| s.chars().collect::<Vec<char>>();
    assert_eq!(strip_end(&chars("a))"), Strip::Char(')')), chars("a"));
    assert_eq!(strip_end(&chars(")))"), Strip::Char(')')), chars(""));
    assert_eq!(strip_start(&chars("((a("), Strip::Char('(')), chars("a("));
    assert_eq!(strip_start(&chars(" \n a "), Strip::Space), chars("a "));
    assert_eq!(strip_end(&chars(" a \t"), Strip::Space), chars(" a"));
}

#[test]
fn todo_macro_becomes_a_note() {
    assert_eq!(process_todo_macro(), "<! TODO: add content -->");
}

#[test]
fn page_macro_becomes_a_section_macro() {
    let call = "{{page('/en-US/docs/Web/x', 'Specifications')}}";
    assert_eq!(process_page_macro(call, &args(&["/en-US/docs/Web/x", "Specifications"])), "{{Specifications}}");
    assert_eq!(process_page_macro(call, &args(&["x", "BROWSER_compatibility"])), "{{Compat}}");
    assert_eq!(
        process_page_macro("{{page('x', 'Examples')}}", &args(&["x", "Examples"])),
        "<!-- TODO: page macro not supported: page('x', 'Examples') -->"
    );
    assert_eq!(process_page_macro(call, &args(&["x"])), "");
    assert_eq!(process_page_macro(call, &Vec::new()), "");
}

#[test]
fn event_macro_becomes_a_link() {
    assert_eq!(event_url("en-US", &args(&["click"])), "/en-US/docs/Web/Events/click");
    assert_eq!(event_url("fr", &args(&["load", "Load"])), "/fr/docs/Web/Events/load");
    assert_eq!(
        process_event_macro(&args(&["click"]), "/en-US/docs/Web/API/Element/click_event"),
        "[`click`](/en-US/docs/Web/API/Element/click_event)"
    );
    assert_eq!(process_event_macro(&args(&["click", "Click"]), "/u"), "[`Click`](/u)");
    assert_eq!(
        process_event_macro(&args(&["click", "Click", "bubbles"]), "/u"),
        "[`Click.bubbles`](/u#bubbles)"
    );
    assert_eq!(process_event_macro(&args(&["click", "Click", ""]), "/u"), "[`Click`](/u)");
}

#[test]
fn no_tag_omission_is_said_in_the_locale() {
    assert_eq!(
        process_no_tag_omission_macro(Locale::EnUs),
        "None, both the starting and ending tag are mandatory."
    );
    assert_eq!(process_no_tag_omission_macro(Locale::Ja), "不可。開始と終了タグの両方が必要。");
    assert_eq!(
        process_no_tag_omission_macro(Locale::ZhCn),
        process_no_tag_omission_macro(Locale::ZhTw)
    );
    assert_eq!(
        process_no_tag_omission_macro(Locale::Ru),
        "Нет, открывающий и закрывающий теги обязательны."
    );
    for locale in [Locale::De, Locale::Fr, Locale::Es, Locale::Ko, Locale::PtBr] {
        assert!(!process_no_tag_omission_macro(locale).is_empty());
    }
}

#[test]
fn files_are_told_by_the_folder_of_their_locale() {
    assert!(in_locale_folder("/content/files/fr/web/index.md", "/content/files", '/', "fr"));
    assert!(in_locale_folder("/content/files//PT-BR/web/index.md", "/content/files", '/', "pt-br"));
    assert!(!in_locale_folder("/content/files/fr/web/index.md", "/content/files", '/', "de"));
    assert!(!in_locale_folder("/content/files/web/fr/index.md", "/content/files", '/', "fr"));
    assert!(in_locale_folder("fr/web", "", '/', "fr"));
    assert!(in_locale_folder("C:\\t\\zh-CN\\x", "C:\\t", '\\', "zh-cn"));
}

fn redirects() -> Vec<Redirect> {
    vec![
        Redirect {
            from: "/en-us/docs/web/events/click".to_string(),
            to: "/en-US/docs/Web/API/Element/click_event".to_string(),
        },
        Redirect { from: "/en-us/docs/web/events/click".to_string(), to: "/second".to_string() },
    ]
}

#[test]
fn redirects_are_followed_by_the_lowercase_url() {
    assert_eq!(
        follow_redirect(&redirects(), "/en-US/docs/Web/Events/click"),
        "/en-US/docs/Web/API/Element/click_event"
    );
    assert_eq!(follow_redirect(&redirects(), "/en-US/docs/Web/Events/load"), "/en-US/docs/Web/Events/load");
    assert_eq!(follow_redirect(&Vec::new(), "/x"), "/x");
}

#[test]
fn calls_are_replaced_one_by_one() {
    assert_eq!(
        replace_call(Macro::Event, "{{event('click')}}", "('click')", Locale::EnUs, "en-US", &redirects()),
        "[`click`](/en-US/docs/Web/API/Element/click_event)"
    );
    assert_eq!(
        replace_call(Macro::Event, "{{event('load', 'Load', 'x')}}", "('load', 'Load', 'x')", Locale::Fr, "fr", &redirects()),
        "[`Load.x`](/fr/docs/Web/Events/load#x)"
    );
    assert_eq!(
        replace_call(Macro::Page, "{{page('/x', 'Specifications')}}", "('/x', 'Specifications')", Locale::EnUs, "en-US", &Vec::new()),
        "{{Specifications}}"
    );
    assert_eq!(replace_call(Macro::Todo, "{{todo}}", "", Locale::De, "de", &Vec::new()), "<! TODO: add content -->");
    assert_eq!(
        replace_call(Macro::NoTagOmission, "{{no_tag_omission}}", "", Locale::Es, "es", &Vec::new()),
        "Ninguna, tanto la etiqueta inicial como la final son obligatorias."
    );
}

#[test]
fn macros_are_replaced_in_a_page() {
    let content = "See {{Event('click')}} and {{ event(\"load\", \"Load\") }}.\n{{todo}}\n{{ page('/x', 'Specifications') }}\n{{Page(\"/x\", \"Examples\")}}\n{{No_Tag_Omission}} {{ToDo: later}} {{other}}";
    let expected = "See [`click`](/en-US/docs/Web/API/Element/click_event) and [`Load`](/en-US/docs/Web/Events/load).\n<! TODO: add content -->\n{{Specifications}}\n<!-- TODO: page macro not supported: Page(\"/x\", \"Examples\") -->\nNone, both the starting and ending tag are mandatory. <! TODO: add content --> {{other}}";
    assert_eq!(replace_macros(content, Locale::EnUs, "en-US", &redirects()), Some(expected.to_string()));
    assert_eq!(replace_macros("nothing to do", Locale::EnUs, "en-US", &Vec::new()), Some("nothing to do".to_string()));
    assert_eq!(replace_macros("", Locale::Ja, "ja", &Vec::new()), Some(String::new()));
    assert_eq!(
        replace_macro(Macro::Todo, "{{todo}}{{TODO x}}", Locale::EnUs, "en-US", &Vec::new()),
        Some("<! TODO: add content --><! TODO: add content -->".to_string())
    );
}

#[test]
fn page_is_written_back_only_where_it_changed() {
    match rewrite_page("a {{todo}} b", Locale::EnUs, "en-US", &Vec::new()) {
        Rewrite::Changed(new) => assert_eq!(new, "a <! TODO: add content --> b"),
        _ => panic!("the page holds a call"),
    }
    assert!(matches!(rewrite_page("a {{other}} b", Locale::EnUs, "en-US", &Vec::new()), Rewrite::Unchanged));
    assert!(matches!(rewrite_page("", Locale::EnUs, "en-US", &Vec::new()), Rewrite::Unchanged));
    // a call that is replaced by itself changes nothing
    assert!(matches!(
        rewrite_page("<! TODO: add content -->", Locale::EnUs, "en-US", &Vec::new()),
        Rewrite::Unchanged
    ));
}

#[test]
fn only_changed_files_are_written_and_counted() {
    let file = |path: &str, content: &str| PageFile { path: path.to_string(), content: content.to_string() };
    let files = vec![
        file("fr/web/a/index.md", "nothing here"),
        file("fr/web/b/index.md", "{{event('click')}} then {{TODO}}"),
        file("fr/web/c/index.md", "{{Compat}} stays"),
        file("fr/web/d/index.md", "{{ no_tag_omission }}"),
    ];
    let written = replace_deprecated_macros(&files, Locale::Fr, "fr", &Vec::new()).unwrap();
    let written: Vec<(String, String)> = written.into_iter().map(|f| (f.path, f.content)).collect();
    assert_eq!(
        written,
        vec![
            (
                "fr/web/b/index.md".to_string(),
                "[`click`](/fr/docs/Web/Events/click) then <! TODO: add content -->".to_string()
            ),
            (
                "fr/web/d/index.md".to_string(),
                "Aucune, la balise d'ouverture et la balise de fermeture sont obligatoires.".to_string()
            ),
        ]
    );
    assert_eq!(changed_files_line(written.len()), "Changed 2 files");
    let none = replace_deprecated_macros(&Vec::new(), Locale::Fr, "fr", &Vec::new()).unwrap();
    assert!(none.is_empty());
    assert_eq!(changed_files_line(0), "Changed 0 files");
    assert_eq!(changed_files_line(1203), "Changed 1203 files");
}
