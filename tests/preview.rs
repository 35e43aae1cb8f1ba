use mdsearch::grammars::{grammar_folder, unique_languages};
use mdsearch::highlight::{
    class_attribute, escape_html, highlighted_or_escaped, normalize_lang, plan_highlight,
    requested_grammar_of, HighlightPlan, HighlighterCache,
};
use mdsearch::preview::{
    frame_with_style, math_html, math_source, percent_encode_str, rewrite_image_url, Html,
    IdPrefixCounter, ImageUrlPolicy, TocHeading,
};

#[test]
fn languages_are_normalized() {
    assert_eq!(normalize_lang("rs"), "rust");
    assert_eq!(normalize_lang("sh"), "bash");
    assert_eq!(normalize_lang("shell"), "bash");
    assert_eq!(normalize_lang("vuejs"), "vue");
    assert_eq!(normalize_lang("hpp"), "cpp");
    assert_eq!(normalize_lang("ts"), "typescript");
    assert_eq!(normalize_lang("css"), "css");
}

#[test]
fn blank_fence_languages_ask_for_no_grammar() {
    assert_eq!(requested_grammar_of(None), None);
    assert_eq!(requested_grammar_of(Some("")), None);
    assert_eq!(requested_grammar_of(Some("   ")), None);
    assert_eq!(requested_grammar_of(Some(" js ")), Some("javascript".to_string()));
}

#[test]
fn test_highlight_code_cannot_inject_markdown_nor_html() {
    let snippet = r#"color: blue;
```
<h1>injected title !</h1>
```"#;
    assert_eq!(
        escape_html(snippet),
        "color: blue;\n```\n&lt;h1&gt;injected title !&lt;/h1&gt;\n```"
    );
}

#[test]
fn escaping_covers_quotes_and_ampersands() {
    assert_eq!(escape_html("a \"b\" & <c>"), "a &quot;b&quot; &amp; &lt;c&gt;");
    assert_eq!(escape_html(""), "");
}

#[test]
fn highlight_names_become_classes() {
    assert_eq!(class_attribute("variable.parameter"), "class='variable parameter'");
    assert_eq!(class_attribute(""), "class=''");
}

#[test]
fn toc_ids_carry_the_prefix() {
    let h = TocHeading::new("H2 again".to_string(), 2, "h2-again");
    assert_eq!(h.id, "h-h2-again");
    assert_eq!(h.level, 2);
    assert_eq!(h.text, "H2 again");
}

#[test]
fn image_urls_local_asset_on_linux() {
    let policy = ImageUrlPolicy::LocalAsset("/home/u/report/".to_string());
    assert_eq!(
        rewrite_image_url(&policy, "sky.png", false),
        "asset://localhost/%2Fhome%2Fu%2Freport%2Fsky.png"
    );
    assert_eq!(rewrite_image_url(&policy, "#id", false), "#id");
    assert_eq!(
        rewrite_image_url(&ImageUrlPolicy::LocalAsset("/a".to_string()), "b c.png", true),
        "http://asset.localhost/%2Fa%2Fb%20c.png"
    );
}

#[test]
fn image_urls_other_policies() {
    assert_eq!(rewrite_image_url(&ImageUrlPolicy::Unchanged, "x.png", false), "x.png");
    let p = ImageUrlPolicy::RelativePrefix("/docs/".to_string());
    assert_eq!(rewrite_image_url(&p, "x.png", false), "/docs/x.png");
    assert_eq!(rewrite_image_url(&p, "#top", false), "#top");
}

#[test]
fn percent_encoding_of_utf8() {
    assert_eq!(percent_encode_str("é-_.~A9"), "%C3%A9-_.~A9");
}

#[test]
fn empty_document_is_the_style_block() {
    assert_eq!(frame_with_style("pre{}", ""), "<style>pre{}</style>\n");
    assert_eq!(frame_with_style("", "<p>x</p>"), "<style></style>\n<p>x</p>");
}

#[test]
fn html_wraps_a_string() {
    let h = Html::from("<p>x</p>".to_string());
    assert_eq!(h.as_string(), "<p>x</p>");
}

#[test]
fn math_id_prefixes_increase() {
    let mut c = IdPrefixCounter::new();
    assert_eq!(c.get_next_prefix_id(), 0);
    assert_eq!(c.get_next_prefix_id(), 1);
}

#[test]
fn languages_listed_once_sorted() {
    let found = vec!["rust".to_string(), "css".to_string(), "rust".to_string(), "c".to_string()];
    assert_eq!(unique_languages(found), vec!["c", "css", "rust"]);
    assert!(unique_languages(vec![]).is_empty());
}

#[test]
fn grammar_folders() {
    assert_eq!(grammar_folder(&"/g".to_string(), "css"), "/g/tree-sitter-css");
    assert_eq!(grammar_folder(&"/g/".to_string(), "rust"), "/g/tree-sitter-rust");
}

#[test]
fn highlight_plan_follows_the_cache() {
    let mut cache: HighlighterCache<u32> = HighlighterCache::new();
    assert_eq!(plan_highlight(&cache, None), HighlightPlan::Escape);
    assert_eq!(plan_highlight(&cache, Some("  ")), HighlightPlan::Escape);
    assert_eq!(plan_highlight(&cache, Some("rs")), HighlightPlan::Build("rust".to_string()));
    cache.insert("rust".to_string(), 7);
    assert_eq!(plan_highlight(&cache, Some("rs")), HighlightPlan::Cached("rust".to_string()));
    assert_eq!(cache.get(&"rust".to_string()), Some(&7));
    cache.insert("rust".to_string(), 8);
    assert_eq!(cache.get(&"rust".to_string()), Some(&8));
    assert_eq!(cache.get(&"css".to_string()), None);
    assert_eq!(highlighted_or_escaped(None, "<b>"), "&lt;b&gt;");
    assert_eq!(highlighted_or_escaped(Some("<span>x</span>".to_string()), "x"), "<span>x</span>");
}

#[test]
fn math_is_compiled_with_the_page_prelude() {
    assert_eq!(
        math_source("P = 2 pi r"),
        "#set page(height: auto, width: auto, margin: 0pt)\n$P = 2 pi r$"
    );
}

#[test]
fn math_nodes_are_wrapped() {
    assert_eq!(math_html(&Ok("<svg/>".to_string()), false), "<span class='math-inline'><svg/></span>");
    assert_eq!(math_html(&Ok("<svg/>".to_string()), true), "<p class='math-block'><svg/></p>");
    assert_eq!(
        math_html(&Err("oups".to_string()), false),
        "<span class='math-inline'><span class='parse-error'>oups</span></span>"
    );
}
