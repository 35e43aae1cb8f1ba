use mdsearch::theme::{Error, Renderer, Theme, ThemeValue};

fn st(x: &str) -> ThemeValue {
    ThemeValue::Str(x.to_string())
}

fn table(entries: Vec<(&str, ThemeValue)>) -> ThemeValue {
    ThemeValue::Table(entries.into_iter().map(|(k, v)| (k.to_string(), v)).collect())
}

/// The parts of the Catppuccin Latte theme that the tests read.
fn latte() -> ThemeValue {
    table(vec![
        ("ui.background", table(vec![("bg", st("base"))])),
        ("ui.text", st("text")),
        ("variable", st("text")),
        ("function", table(vec![("fg", st("blue"))])),
        (
            "markup.bold",
            table(vec![("fg", st("red")), ("modifiers", ThemeValue::Array(vec![st("bold")]))]),
        ),
        ("keyword", st("mauve")),
        (
            "palette",
            table(vec![
                ("text", st("#4c4f69")),
                ("base", st("#eff1f5")),
                ("blue", st("#1e66f5")),
                ("red", st("#d20f39")),
            ]),
        ),
    ])
}

fn names(n: &[&str]) -> Vec<String> {
    n.iter().map(|x| x.to_string()).collect()
}

#[test]
fn test_can_load_catppuccin_latte_toml_theme() {
    let theme = Theme::from_helix(&latte(), names(&["variable", "function"])).unwrap();
    let css = Renderer::new(&theme).css();
    assert!(css.contains("code {color:#4c4f69;}"));
}

#[test]
fn test_can_render_css_for_catppuccin_latte_theme() {
    let theme = Theme::from_helix(&latte(), names(&["variable", "function", "markup.bold"])).unwrap();
    let renderer = Renderer::new(&theme);
    let sorter = |given: &str| -> String {
        let mut lines = given.lines().collect::<Vec<&str>>();
        lines.sort();
        lines.join("\n")
    };
    assert_eq!(sorter(&renderer.css()), sorter("code .function{color:#1e66f5;}\ncode .markup.bold{color:#d20f39;font-weight:bold;}\ncode .variable{color:#4c4f69;}\ncode {color:#4c4f69;}\npre {background-color:#eff1f5;}"));
}

#[test]
fn css_rules_follow_the_order_of_the_names() {
    let theme = Theme::from_helix(&latte(), names(&["markup.bold", "nothing", "keyword", "variable"])).unwrap();
    assert_eq!(
        Renderer::new(&theme).css(),
        "pre {background-color:#eff1f5;}\ncode {color:#4c4f69;}\ncode .markup.bold{color:#d20f39;font-weight:bold;}\ncode .variable{color:#4c4f69;}\n"
    );
}

#[test]
fn defaults_without_background_and_text() {
    let root = table(vec![("palette", table(vec![]))]);
    let theme = Theme::from_helix(&root, vec![]).unwrap();
    assert_eq!(Renderer::new(&theme).css(), "pre {background-color:#000;}\ncode {color:#fff;}\n");
}

#[test]
fn theme_errors() {
    assert_eq!(Theme::from_helix(&st("x"), vec![]).unwrap_err(), Error::InvalidTheme);
    assert_eq!(Theme::from_helix(&table(vec![]), vec![]).unwrap_err(), Error::InvalidTheme);
    let root = table(vec![
        ("palette", table(vec![])),
        ("variable", table(vec![("fg", st("missing"))])),
    ]);
    assert_eq!(
        Theme::from_helix(&root, names(&["variable"])).unwrap_err(),
        Error::InvalidColorReference("fg".to_string())
    );
    let root = table(vec![
        ("palette", table(vec![])),
        ("ui.background", table(vec![("bg", st("missing"))])),
    ]);
    assert_eq!(
        Theme::from_helix(&root, vec![]).unwrap_err(),
        Error::InvalidColorReference("bg".to_string())
    );
}

#[test]
fn italic_modifier() {
    let root = table(vec![
        ("palette", table(vec![("c", st("#123"))])),
        (
            "comment",
            table(vec![
                ("fg", st("c")),
                ("modifiers", ThemeValue::Array(vec![st("italic"), st("bold")])),
            ]),
        ),
    ]);
    let theme = Theme::from_helix(&root, names(&["comment"])).unwrap();
    assert!(Renderer::new(&theme)
        .css()
        .ends_with("code .comment{color:#123;font-weight:bold;font-style:italic;}\n"));
}
