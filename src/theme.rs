//! Editor themes in the Helix layout (a palette, and styles that refer to it) and the
//! stylesheet that colours highlighted code with them.

use vstd::prelude::*;
use crate::text::push_str;

verus! {

/// The parts of a parsed theme file that a theme is read from.
#[derive(Debug)]
pub enum ThemeValue {
    Str(String),
    Table(Vec<(String, ThemeValue)>),
    Array(Vec<ThemeValue>),
    Other,
}

/// Why a theme could not be read.
#[derive(Debug, PartialEq, Eq)]
pub enum Error {
    /// The text is not TOML; the parser's message.
    Toml(String),
    /// The data is not laid out as a theme: no table at the top, or no palette.
    InvalidTheme,
    /// A style field (`fg` or `bg`) does not name a colour of the palette.
    InvalidColorReference(String),
}

/// A colour and text modifiers.
#[derive(Debug)]
pub struct Style {
    pub color: String,
    pub is_bold: bool,
    pub is_italic: bool,
}

pub ghost struct StyleView {
    pub color: Seq<char>,
    pub bold: bool,
    pub italic: bool,
}

impl View for Style {
    type V = StyleView;

    open spec fn view(&self) -> StyleView {
        StyleView { color: self.color@, bold: self.is_bold, italic: self.is_italic }
    }
}

pub ghost enum ErrorView {
    Toml(Seq<char>),
    InvalidTheme,
    InvalidColorReference(Seq<char>),
}

impl View for Error {
    type V = ErrorView;

    open spec fn view(&self) -> ErrorView {
        match self {
            Error::Toml(m) => ErrorView::Toml(m@),
            Error::InvalidTheme => ErrorView::InvalidTheme,
            Error::InvalidColorReference(n) => ErrorView::InvalidColorReference(n@),
        }
    }
}

/// The value under `key` in a list of entries (the first one, keys being unique in a table).
pub open spec fn lookup(t: Seq<(String, ThemeValue)>, key: Seq<char>) -> Option<ThemeValue>
    decreases t.len(),
{
    if t.len() == 0 {
        None
    } else if t[0].0@ == key {
        Some(t[0].1)
    } else {
        lookup(t.drop_first(), key)
    }
}

/// The value under `key` when `v` is a table.
pub open spec fn get(v: ThemeValue, key: Seq<char>) -> Option<ThemeValue> {
    match v {
        ThemeValue::Table(t) => lookup(t@, key),
        _ => None,
    }
}

/// The colour that the palette gives a reference, if it is a string there.
pub open spec fn palette_color(palette: ThemeValue, reference: Seq<char>) -> Option<Seq<char>> {
    match get(palette, reference) {
        Some(ThemeValue::Str(c)) => Some(c@),
        _ => None,
    }
}

/// The colour of the palette that the string under `field` of `table` refers to.
pub open spec fn referenced(table: ThemeValue, palette: ThemeValue, field: Seq<char>) -> Option<
    Seq<char>,
> {
    match get(table, field) {
        Some(ThemeValue::Str(r)) => palette_color(palette, r@),
        _ => None,
    }
}

pub open spec fn is_word(v: ThemeValue, word: Seq<char>) -> bool {
    match v {
        ThemeValue::Str(s) => s@ == word,
        _ => false,
    }
}

/// Whether `m` is an array holding the string `word`.
pub open spec fn has_modifier(m: Option<ThemeValue>, word: Seq<char>) -> bool {
    match m {
        Some(ThemeValue::Array(a)) => exists|i: int| 0 <= i < a@.len() && is_word(#[trigger] a@[i], word),
        _ => false,
    }
}

pub open spec fn plain(color: Seq<char>) -> StyleView {
    StyleView { color, bold: false, italic: false }
}

/// The style of `name`: a palette reference, or a table with `fg` and `modifiers`. An error
/// names the field whose reference is not in the palette.
pub open spec fn style_of(root: ThemeValue, palette: ThemeValue, name: Seq<char>) -> Result<
    Option<StyleView>,
    Seq<char>,
> {
    match get(root, name) {
        Some(v) => match v {
            ThemeValue::Str(r) => match palette_color(palette, r@) {
                Some(c) => Ok(Some(plain(c))),
                None => Ok(None),
            },
            ThemeValue::Table(_) => match referenced(v, palette, "fg"@) {
                Some(c) => Ok(
                    Some(
                        StyleView {
                            color: c,
                            bold: has_modifier(get(v, "modifiers"@), "bold"@),
                            italic: has_modifier(get(v, "modifiers"@), "italic"@),
                        },
                    ),
                ),
                None => Err("fg"@),
            },
            _ => Ok(None),
        },
        None => Ok(None),
    }
}

/// The styles of the names from index `i` on, each with its index; the first error if any.
pub open spec fn styles_from(root: ThemeValue, palette: ThemeValue, names: Seq<Seq<char>>, i: nat) -> Result<
    Seq<(nat, StyleView)>,
    Seq<char>,
>
    decreases names.len() - i,
{
    if i >= names.len() {
        Ok(Seq::empty())
    } else {
        match style_of(root, palette, names[i as int]) {
            Err(e) => Err(e),
            Ok(o) => match styles_from(root, palette, names, i + 1) {
                Err(e) => Err(e),
                Ok(rest) => match o {
                    Some(st) => Ok(seq![(i, st)] + rest),
                    None => Ok(rest),
                },
            },
        }
    }
}

pub ghost struct ThemeView {
    pub styles: Seq<(nat, StyleView)>,
    pub foreground: StyleView,
    pub background: StyleView,
    pub names: Seq<Seq<char>>,
}

/// The theme read from `root` for the highlight names `names`: the style of each name
/// that has one, the background of `ui.background` (`#000` by default) and the foreground
/// of `ui.text` (`#fff` by default).
pub open spec fn theme_of(root: ThemeValue, names: Seq<Seq<char>>) -> Result<ThemeView, ErrorView> {
    match root {
        ThemeValue::Table(_) => match get(root, "palette"@) {
            None => Err(ErrorView::InvalidTheme),
            Some(palette) => match styles_from(root, palette, names, 0) {
                Err(e) => Err(ErrorView::InvalidColorReference(e)),
                Ok(styles) => {
                    let bg = match get(root, "ui.background"@) {
                        Some(ThemeValue::Table(t)) => match referenced(
                            ThemeValue::Table(t),
                            palette,
                            "bg"@,
                        ) {
                            Some(c) => Ok(plain(c)),
                            None => Err(ErrorView::InvalidColorReference("bg"@)),
                        },
                        _ => Ok(plain("#000"@)),
                    };
                    match bg {
                        Err(e) => Err(e),
                        Ok(background) => match style_of(root, palette, "ui.text"@) {
                            Err(e) => Err(ErrorView::InvalidColorReference(e)),
                            Ok(fg) => Ok(
                                ThemeView {
                                    styles,
                                    foreground: match fg {
                                        Some(s) => s,
                                        None => plain("#fff"@),
                                    },
                                    background,
                                    names,
                                },
                            ),
                        },
                    }
                },
            },
        },
        _ => Err(ErrorView::InvalidTheme),
    }
}

/// A theme: a style for some of the highlight names (by index, in increasing order), a
/// foreground and a background.
#[derive(Debug)]
pub struct Theme {
    pub(crate) style_map: Vec<(usize, Style)>,
    pub(crate) foreground: Style,
    pub(crate) background: Style,
    pub(crate) supported_highlight_names: Vec<String>,
}

pub open spec fn style_views(s: Seq<(usize, Style)>) -> Seq<(nat, StyleView)> {
    s.map_values(|e: (usize, Style)| (e.0 as nat, e.1@))
}

impl View for Theme {
    type V = ThemeView;

    closed spec fn view(&self) -> ThemeView {
        ThemeView {
            styles: style_views(self.style_map@),
            foreground: self.foreground@,
            background: self.background@,
            names: crate::text::views(self.supported_highlight_names@),
        }
    }
}

/// Styles with increasing indices, each naming one of the names.
pub open spec fn styles_wf(styles: Seq<(nat, StyleView)>, n: nat) -> bool {
    &&& forall|i: int| 0 <= i < styles.len() ==> #[trigger] styles[i].0 < n
    &&& forall|i: int, j: int| 0 <= i < j < styles.len() ==> styles[i].0 < styles[j].0
}

pub open spec fn ok_styles(r: Result<Seq<(nat, StyleView)>, Seq<char>>) -> Seq<(nat, StyleView)> {
    match r {
        Ok(s) => s,
        Err(_) => Seq::empty(),
    }
}

pub proof fn lemma_styles_from_wf(root: ThemeValue, palette: ThemeValue, names: Seq<Seq<char>>, i: nat)
    requires
        styles_from(root, palette, names, i).is_ok(),
    ensures
        styles_wf(ok_styles(styles_from(root, palette, names, i)), names.len()),
        forall|k: int| 0 <= k < ok_styles(styles_from(root, palette, names, i)).len()
            ==> #[trigger] ok_styles(styles_from(root, palette, names, i))[k].0 >= i,
    decreases names.len() - i,
{
    if i < names.len() {
        lemma_styles_from_wf(root, palette, names, i + 1);
    }
}

fn lookup_in<'a>(t: &'a Vec<(String, ThemeValue)>, key: &String) -> (r: Option<&'a ThemeValue>)
    ensures
        lookup(t@, key@) == match r {
            Some(v) => Some(*v),
            None => None,
        },
{
    let n = t.len();
    let mut i: usize = 0;
    assert(t@.skip(0) =~= t@);
    while i < n
        invariant
            n == t@.len(),
            i <= n,
            lookup(t@, key@) == lookup(t@.skip(i as int), key@),
        decreases n - i,
    {
        assert(t@.skip(i as int).drop_first() =~= t@.skip(i + 1));
        if t[i].0 == *key {
            return Some(&t[i].1);
        }
        i = i + 1;
    }
    None
}

fn get_in<'a>(v: &'a ThemeValue, key: &str) -> (r: Option<&'a ThemeValue>)
    ensures
        get(*v, key@) == match r {
            Some(x) => Some(*x),
            None => None,
        },
{
    match v {
        ThemeValue::Table(t) => lookup_in(t, &String::from_str(key)),
        _ => None,
    }
}

fn palette_color_in(palette: &ThemeValue, reference: &String) -> (r: Option<String>)
    ensures
        palette_color(*palette, reference@) == match r {
            Some(c) => Some(c@),
            None => None,
        },
{
    match palette {
        ThemeValue::Table(t) => match lookup_in(t, reference) {
            Some(ThemeValue::Str(c)) => Some(c.clone()),
            _ => None,
        },
        _ => None,
    }
}

/// The palette colour that `field` of `table` refers to; an error naming the field when
/// there is none.
fn referenced_color(table: &ThemeValue, palette: &ThemeValue, field: &str) -> (r: Result<
    Style,
    Error,
>)
    ensures
        match referenced(*table, *palette, field@) {
            Some(c) => r.is_ok() && r.unwrap()@ == plain(c),
            None => r.is_err() && r.unwrap_err()@ == ErrorView::InvalidColorReference(field@),
        },
{
    match get_in(table, field) {
        Some(ThemeValue::Str(reference)) => match palette_color_in(palette, reference) {
            Some(c) => {
                return Ok(Style { color: c, is_bold: false, is_italic: false });
            },
            None => {},
        },
        _ => {},
    }
    Err(Error::InvalidColorReference(String::from_str(field)))
}

fn modifier_in(m: Option<&ThemeValue>, word: &str) -> (r: bool)
    ensures
        r == has_modifier(
            match m {
                Some(x) => Some(*x),
                None => None,
            },
            word@,
        ),
{
    let w = String::from_str(word);
    let v = match m {
        Some(v) => v,
        None => return false,
    };
    match v {
        ThemeValue::Array(a) => {
            let n = a.len();
            let mut i: usize = 0;
            while i < n
                invariant
                    n == a@.len(),
                    i <= n,
                    w@ == word@,
                    m == Some(v),
                    *v == ThemeValue::Array(*a),
                    forall|k: int| 0 <= k < i ==> !is_word(#[trigger] a@[k], word@),
                decreases n - i,
            {
                match &a[i] {
                    ThemeValue::Str(s) => {
                        if *s == w {
                            assert(is_word(a@[i as int], word@));
                            let ghost arr = ThemeValue::Array(*a);
                            assert(has_modifier(Some(arr), word@)) by {
                                let a2 = match arr {
                                    ThemeValue::Array(a2) => a2,
                                    _ => *a,
                                };
                                assert(a2@ == a@);
                                assert(0 <= i < a2@.len() && is_word(a2@[i as int], word@));
                            }
                            return true;
                        }
                    },
                    _ => {},
                }
                i = i + 1;
            }
            false
        },
        _ => false,
    }
}

fn style_in(root: &ThemeValue, palette: &ThemeValue, name: &String) -> (r: Result<Option<Style>, Error>)
    ensures
        match style_of(*root, *palette, name@) {
            Ok(Some(st)) => r.is_ok() && r.unwrap().is_some() && r.unwrap().unwrap()@ == st,
            Ok(None) => r.is_ok() && r.unwrap().is_none(),
            Err(e) => r.is_err() && r.unwrap_err()@ == ErrorView::InvalidColorReference(e),
        },
{
    let found = match root {
        ThemeValue::Table(t) => lookup_in(t, name),
        _ => None,
    };
    match found {
        Some(v) => match v {
            ThemeValue::Str(reference) => match palette_color_in(palette, reference) {
                Some(c) => Ok(Some(Style { color: c, is_bold: false, is_italic: false })),
                None => Ok(None),
            },
            ThemeValue::Table(_) => {
                let mut style = match referenced_color(v, palette, "fg") {
                    Ok(s) => s,
                    Err(e) => return Err(e),
                };
                let mods = get_in(v, "modifiers");
                style.is_bold = modifier_in(mods, "bold");
                style.is_italic = modifier_in(mods, "italic");
                Ok(Some(style))
            },
            _ => Ok(None),
        },
        None => Ok(None),
    }
}

/// `r` with `p` put in front of its styles.
pub open spec fn prepend(p: Seq<(nat, StyleView)>, r: Result<Seq<(nat, StyleView)>, Seq<char>>) -> Result<
    Seq<(nat, StyleView)>,
    Seq<char>,
> {
    match r {
        Ok(rest) => Ok(p + rest),
        Err(e) => Err(e),
    }
}

impl Theme {
    pub closed spec fn wf(&self) -> bool {
        styles_wf(self@.styles, self@.names.len())
    }

    /// Reads a theme laid out as Helix themes are: a `palette` of named colours, and for
    /// each highlight name either a palette reference or a table with an `fg` reference and
    /// `modifiers` (`bold`, `italic`). Only the names of `supported_highlight_names` get a
    /// style; `ui.background` and `ui.text` give the background and the foreground.
    pub fn from_helix(root: &ThemeValue, supported_highlight_names: Vec<String>) -> (r: Result<
        Theme,
        Error,
    >)
        ensures
            match theme_of(*root, crate::text::views(supported_highlight_names@)) {
                Ok(tv) => r.is_ok() && r.unwrap()@ == tv && r.unwrap().wf(),
                Err(e) => r.is_err() && r.unwrap_err()@ == e,
            },
    {
        let ghost names = crate::text::views(supported_highlight_names@);
        match root {
            ThemeValue::Table(_) => {},
            _ => {
                return Err(Error::InvalidTheme);
            },
        }
        let palette = match get_in(root, "palette") {
            Some(p) => p,
            None => {
                return Err(Error::InvalidTheme);
            },
        };
        let n = supported_highlight_names.len();
        let mut style_map: Vec<(usize, Style)> = Vec::new();
        let mut i: usize = 0;
        proof {
            assert(style_views(style_map@) =~= Seq::<(nat, StyleView)>::empty());
            assert(Seq::<(nat, StyleView)>::empty() + ok_styles(styles_from(*root, *palette, names, 0))
                =~= ok_styles(styles_from(*root, *palette, names, 0)));
        }
        while i < n
            invariant
                n == supported_highlight_names@.len(),
                names == crate::text::views(supported_highlight_names@),
                i <= n,
                get(*root, "palette"@) == Some(*palette),
                styles_from(*root, *palette, names, 0) == prepend(
                    style_views(style_map@),
                    styles_from(*root, *palette, names, i as nat),
                ),
            decreases n - i,
        {
            let ghost before = style_views(style_map@);
            let ghost next = styles_from(*root, *palette, names, (i + 1) as nat);
            assert(names[i as int] == supported_highlight_names@[i as int]@);
            match style_in(root, palette, &supported_highlight_names[i]) {
                Err(e) => {
                    return Err(e);
                },
                Ok(Some(st)) => {
                    let ghost sv = st@;
                    style_map.push((i, st));
                    assert(style_views(style_map@) =~= before.push((i as nat, sv)));
                    proof {
                        match next {
                            Ok(rest) => {
                                assert(before.push((i as nat, sv)) + rest =~= before + (seq![(i as nat, sv)] + rest));
                            },
                            Err(_) => {},
                        }
                    }
                },
                Ok(None) => {},
            }
            i = i + 1;
        }
        let bg = match get_in(root, "ui.background") {
            Some(v) => match v {
                ThemeValue::Table(_) => match referenced_color(v, palette, "bg") {
                    Ok(s) => s,
                    Err(e) => {
                        return Err(e);
                    },
                },
                _ => Style { color: String::from_str("#000"), is_bold: false, is_italic: false },
            },
            None => Style { color: String::from_str("#000"), is_bold: false, is_italic: false },
        };
        let fg = match style_in(root, palette, &String::from_str("ui.text")) {
            Err(e) => {
                return Err(e);
            },
            Ok(Some(s)) => s,
            Ok(None) => Style { color: String::from_str("#fff"), is_bold: false, is_italic: false },
        };
        proof {
            assert(style_views(style_map@) + Seq::<(nat, StyleView)>::empty() =~= style_views(style_map@));
            lemma_styles_from_wf(*root, *palette, names, 0);
        }
        Ok(Theme { style_map, foreground: fg, background: bg, supported_highlight_names })
    }
}

/// The rule of one highlight name, within the `code` scope.
pub open spec fn rule_of(name: Seq<char>, st: StyleView) -> Seq<char> {
    "code ."@ + name + "{color:"@ + st.color + ";"@ + (if st.bold {
        "font-weight:bold;"@
    } else {
        Seq::empty()
    }) + (if st.italic {
        "font-style:italic;"@
    } else {
        Seq::empty()
    }) + "}\n"@
}

/// The rules of the styles, in order.
pub open spec fn rules_of(styles: Seq<(nat, StyleView)>, names: Seq<Seq<char>>) -> Seq<char>
    decreases styles.len(),
{
    if styles.len() == 0 {
        Seq::empty()
    } else {
        rules_of(styles.drop_last(), names) + rule_of(names[styles.last().0 as int], styles.last().1)
    }
}

/// The stylesheet of a theme: the background of `pre`, the foreground of `code`, then one
/// rule per styled highlight name in the order of the names.
pub open spec fn css_of(t: ThemeView) -> Seq<char> {
    "pre {background-color:"@ + t.background.color + ";}\n"@ + "code {color:"@
        + t.foreground.color + ";}\n"@ + rules_of(t.styles, t.names)
}

/// Renders the stylesheet of a theme.
pub struct Renderer<'a> {
    theme: &'a Theme,
}

impl<'a> Renderer<'a> {
    pub closed spec fn theme(&self) -> &'a Theme {
        self.theme
    }

    pub fn new(theme: &'a Theme) -> (r: Self)
        ensures
            r.theme() == theme,
    {
        Renderer { theme }
    }

    /// The CSS for the theme, to be put in a `<style>` block.
    pub fn css(&self) -> (r: String)
        requires
            self.theme().wf(),
        ensures
            r@ == css_of(self.theme()@),
    {
        let t = self.theme;
        let ghost tv = t@;
        let mut css = String::from_str("pre {background-color:");
        push_str(&mut css, t.background.color.as_str());
        push_str(&mut css, ";}\n");
        push_str(&mut css, "code {color:");
        push_str(&mut css, t.foreground.color.as_str());
        push_str(&mut css, ";}\n");
        let ghost head = css@;
        let n = t.style_map.len();
        let mut i: usize = 0;
        assert(tv.styles.take(0) =~= Seq::<(nat, StyleView)>::empty());
        assert(head + Seq::<char>::empty() =~= head);
        while i < n
            invariant
                tv == t@,
                t.wf(),
                n == tv.styles.len(),
                n == t.style_map@.len(),
                i <= n,
                css@ == head + rules_of(tv.styles.take(i as int), tv.names),
            decreases n - i,
        {
            let index = t.style_map[i].0;
            let style = &t.style_map[i].1;
            assert(tv.styles[i as int] == (index as nat, style@));
            assert(index < t.supported_highlight_names@.len());
            let ghost before = css@;
            push_str(&mut css, "code .");
            push_str(&mut css, t.supported_highlight_names[index].as_str());
            push_str(&mut css, "{color:");
            push_str(&mut css, style.color.as_str());
            push_str(&mut css, ";");
            if style.is_bold {
                push_str(&mut css, "font-weight:bold;");
            }
            if style.is_italic {
                push_str(&mut css, "font-style:italic;");
            }
            push_str(&mut css, "}\n");
            proof {
                let st = tv.styles.take(i + 1);
                assert(st.drop_last() =~= tv.styles.take(i as int));
                assert(st.last() == tv.styles[i as int]);
                assert(tv.names[index as int] == t.supported_highlight_names@[index as int]@);
                let rule = rule_of(tv.names[index as int], style@);
                assert(css@ =~= before + rule);
                assert(rules_of(st, tv.names) == rules_of(tv.styles.take(i as int), tv.names) + rule);
                assert(head + rules_of(st, tv.names) =~= (head + rules_of(tv.styles.take(i as int), tv.names)) + rule);
            }
            i = i + 1;
        }
        assert(tv.styles.take(n as int) =~= tv.styles);
        assert(css@ =~= css_of(tv));
        css
    }
}

} // verus!
