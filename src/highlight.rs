//! What the renderer decides around syntax highlighting: which grammar a code fence asks
//! for, the escaped text of code that is not highlighted, the class attribute of a
//! highlighted token, and a cache of highlighters by grammar.

use vstd::prelude::*;
use crate::text::{is_ws, chars_of, push_char, push_str, trim, skip_ws, drop_ws_back,
    lemma_skip_ws_bounds, lemma_drop_ws_back_bounds, char_is_ws, string_of_range};

verus! {

/// The grammar that an alias stands for; any other name stands for itself.
pub open spec fn alias_of(lang: Seq<char>) -> Seq<char> {
    if lang == "bash"@ || lang == "sh"@ || lang == "shell"@ {
        "bash"@
    } else if lang == "js"@ {
        "javascript"@
    } else if lang == "rs"@ {
        "rust"@
    } else if lang == "rb"@ {
        "ruby"@
    } else if lang == "kt"@ {
        "kotlin"@
    } else if lang == "vuejs"@ {
        "vue"@
    } else if lang == "py"@ {
        "python"@
    } else if lang == "md"@ {
        "markdown"@
    } else if lang == "hs"@ {
        "haskell"@
    } else if lang == "ts"@ {
        "typescript"@
    } else if lang == "h"@ || lang == "hpp"@ {
        "cpp"@
    } else {
        lang
    }
}

/// HTML escaping of text: `&`, `<`, `>` and `"` become entities, other characters stay.
pub open spec fn escape_char(c: char) -> Seq<char> {
    if c == '&' {
        "&amp;"@
    } else if c == '<' {
        "&lt;"@
    } else if c == '>' {
        "&gt;"@
    } else if c == '"' {
        "&quot;"@
    } else {
        seq![c]
    }
}

pub open spec fn escape(s: Seq<char>) -> Seq<char>
    decreases s.len(),
{
    if s.len() == 0 {
        Seq::empty()
    } else {
        escape(s.drop_last()) + escape_char(s.last())
    }
}

/// A dotted highlight name with its dots turned into spaces: one CSS class per part.
pub open spec fn class_names(name: Seq<char>) -> Seq<char> {
    name.map_values(|c: char| if c == '.' { ' ' } else { c })
}

/// The grammar a code fence asks for: none when its language is missing or blank,
/// else the trimmed language through the alias table.
pub open spec fn requested_grammar(lang: Option<Seq<char>>) -> Option<Seq<char>> {
    match lang {
        Some(l) => if trim(l).len() == 0 {
            None
        } else {
            Some(alias_of(trim(l)))
        },
        None => None,
    }
}

fn same(a: &String, b: &str) -> (r: bool)
    ensures
        r == (a@ == b@),
{
    *a == String::from_str(b)
}

/// The grammar name that `given` stands for: `rs` is `rust`, `sh` and `shell` are `bash`,
/// `js` is `javascript`, `ts` is `typescript`, `h` and `hpp` are `cpp`, and so on.
pub fn normalize_lang(given: &str) -> (r: String)
    ensures
        r@ == alias_of(given@),
{
    let g = String::from_str(given);
    if same(&g, "bash") || same(&g, "sh") || same(&g, "shell") {
        String::from_str("bash")
    } else if same(&g, "js") {
        String::from_str("javascript")
    } else if same(&g, "rs") {
        String::from_str("rust")
    } else if same(&g, "rb") {
        String::from_str("ruby")
    } else if same(&g, "kt") {
        String::from_str("kotlin")
    } else if same(&g, "vuejs") {
        String::from_str("vue")
    } else if same(&g, "py") {
        String::from_str("python")
    } else if same(&g, "md") {
        String::from_str("markdown")
    } else if same(&g, "hs") {
        String::from_str("haskell")
    } else if same(&g, "ts") {
        String::from_str("typescript")
    } else if same(&g, "h") || same(&g, "hpp") {
        String::from_str("cpp")
    } else {
        g
    }
}

/// The grammar that a code fence with info `maybe_lang` is highlighted with, if any.
pub fn requested_grammar_of(maybe_lang: Option<&str>) -> (r: Option<String>)
    ensures
        match r {
            Some(g) => requested_grammar(match maybe_lang {
                Some(l) => Some(l@),
                None => None,
            }) == Some(g@),
            None => requested_grammar(match maybe_lang {
                Some(l) => Some(l@),
                None => None,
            }).is_none(),
        },
{
    let lang = match maybe_lang {
        Some(l) => l,
        None => return None,
    };
    let s = chars_of(lang);
    let n = s.len();
    proof {
        lemma_skip_ws_bounds(s@, 0);
    }
    let mut a: usize = 0;
    while a < n && char_is_ws(s[a])
        invariant
            a <= n == s@.len(),
            skip_ws(s@, 0) == skip_ws(s@, a as int),
        decreases n - a,
    {
        a = a + 1;
    }
    proof {
        lemma_drop_ws_back_bounds(s@, n as int, a as int);
    }
    let mut b: usize = n;
    while b > a && char_is_ws(s[b - 1])
        invariant
            a <= b <= n == s@.len(),
            skip_ws(s@, 0) == a,
            drop_ws_back(s@, n as int, a as int) == drop_ws_back(s@, b as int, a as int),
        decreases b,
    {
        b = b - 1;
    }
    assert(s@ == lang@);
    if a == b {
        return None;
    }
    let t = string_of_range(&s, a, b);
    Some(normalize_lang(t.as_str()))
}

/// The text of `code` with `&`, `<`, `>` and `"` escaped, so that it reads as text in HTML.
pub fn escape_html(code: &str) -> (r: String)
    ensures
        r@ == escape(code@),
{
    let s = chars_of(code);
    let n = s.len();
    let mut out = String::new();
    let mut i: usize = 0;
    while i < n
        invariant
            n == s@.len(),
            s@ == code@,
            i <= n,
            out@ == escape(s@.take(i as int)),
        decreases n - i,
    {
        let c = s[i];
        let ghost before = out@;
        if c == '&' {
            push_str(&mut out, "&amp;");
        } else if c == '<' {
            push_str(&mut out, "&lt;");
        } else if c == '>' {
            push_str(&mut out, "&gt;");
        } else if c == '"' {
            push_str(&mut out, "&quot;");
        } else {
            push_char(&mut out, c);
            assert(before.push(c) =~= before + seq![c]);
        }
        assert(s@.take(i + 1).drop_last() =~= s@.take(i as int));
        i = i + 1;
    }
    assert(s@.take(n as int) =~= s@);
    out
}

/// The attribute that a highlighted token gets: `class='<parts>'`, the parts of the dotted
/// highlight name separated by spaces (`variable.parameter` gives two classes).
pub fn class_attribute(name: &str) -> (r: String)
    ensures
        r@ == "class='"@ + class_names(name@) + "'"@,
{
    let s = chars_of(name);
    let n = s.len();
    let mut out = String::from_str("class='");
    let ghost head = out@;
    let mut i: usize = 0;
    while i < n
        invariant
            n == s@.len(),
            s@ == name@,
            i <= n,
            out@ == head + class_names(s@.take(i as int)),
        decreases n - i,
    {
        let c = s[i];
        push_char(&mut out, if c == '.' { ' ' } else { c });
        assert(class_names(s@.take(i + 1)) =~= class_names(s@.take(i as int)).push(if c == '.' { ' ' } else { c }));
        i = i + 1;
    }
    assert(s@.take(n as int) =~= s@);
    push_str(&mut out, "'");
    out
}

proof fn lemma_skip_all_ws(l: Seq<char>, i: int)
    requires
        0 <= i <= l.len(),
        forall|k: int| i <= k < l.len() ==> is_ws(#[trigger] l[k]),
    ensures
        skip_ws(l, i) == l.len(),
    decreases l.len() - i,
{
    if i < l.len() {
        lemma_skip_all_ws(l, i + 1);
    }
}

/// A code fence whose language is missing, empty or only whitespace asks for no grammar:
/// all three are rendered alike, as escaped code.
pub proof fn lemma_blank_language_is_no_language(lang: Seq<char>)
    requires
        forall|k: int| 0 <= k < lang.len() ==> is_ws(#[trigger] lang[k]),
    ensures
        requested_grammar(Some(lang)) == requested_grammar(None),
        requested_grammar(None).is_none(),
{
    lemma_skip_all_ws(lang, 0);
    lemma_drop_ws_back_bounds(lang, lang.len() as int, lang.len() as int);
}

/// Empty code escapes to nothing, so an empty block is `<pre><code></code></pre>`.
pub proof fn lemma_empty_code_escapes_to_nothing()
    ensures
        escape(Seq::<char>::empty()) == Seq::<char>::empty(),
{
}

/// Ready highlighters by grammar. Only a highlighter that was built successfully is ever
/// stored, so an entry present is always usable; storing one for a grammar that already
/// has one replaces it.
pub struct HighlighterCache<H> {
    langs: Vec<String>,
    highlighters: Vec<H>,
}

impl<H> HighlighterCache<H> {
    pub closed spec fn wf(&self) -> bool {
        &&& self.langs@.len() == self.highlighters@.len()
        &&& forall|i: int, j: int|
            0 <= i < j < self.langs@.len() ==> self.langs@[i]@ != self.langs@[j]@
    }

    /// The highlighter stored for grammar `g`, if any.
    pub closed spec fn cached(&self, g: Seq<char>) -> Option<H> {
        if exists|i: int| 0 <= i < self.langs@.len() && self.langs@[i]@ == g {
            let i = choose|i: int| 0 <= i < self.langs@.len() && self.langs@[i]@ == g;
            Some(self.highlighters@[i])
        } else {
            None
        }
    }

    pub fn new() -> (r: Self)
        ensures
            r.wf(),
            forall|g: Seq<char>| #[trigger] r.cached(g).is_none(),
    {
        HighlighterCache { langs: Vec::new(), highlighters: Vec::new() }
    }

    fn find(&self, g: &String) -> (r: Option<usize>)
        requires
            self.wf(),
        ensures
            match r {
                Some(i) => i < self.langs@.len() && self.langs@[i as int]@ == g@ && self.cached(g@)
                    == Some(self.highlighters@[i as int]),
                None => self.cached(g@).is_none(),
            },
    {
        let n = self.langs.len();
        let mut i: usize = 0;
        while i < n
            invariant
                self.wf(),
                n == self.langs@.len(),
                i <= n,
                forall|k: int| 0 <= k < i ==> self.langs@[k]@ != g@,
            decreases n - i,
        {
            if self.langs[i] == *g {
                proof {
                    assert(self.langs@[i as int]@ == g@);
                    let j = choose|j: int| 0 <= j < self.langs@.len() && self.langs@[j]@ == g@;
                    assert(j == i);
                }
                return Some(i);
            }
            i = i + 1;
        }
        None
    }

    /// The highlighter stored for grammar `g`.
    pub fn get(&self, g: &String) -> (r: Option<&H>)
        requires
            self.wf(),
        ensures
            match r {
                Some(h) => self.cached(g@) == Some(*h),
                None => self.cached(g@).is_none(),
            },
    {
        match self.find(g) {
            Some(i) => Some(&self.highlighters[i]),
            None => None,
        }
    }

    /// Stores `h` for grammar `g`, replacing what was there; other grammars keep theirs.
    pub fn insert(&mut self, g: String, h: H)
        requires
            old(self).wf(),
        ensures
            final(self).wf(),
            final(self).cached(g@) == Some(h),
            forall|k: Seq<char>| k != g@ ==> #[trigger] final(self).cached(k) == old(self).cached(k),
    {
        let ghost old_self = *self;
        match self.find(&g) {
            Some(i) => {
                self.highlighters.set(i, h);
                assert forall|k: Seq<char>| k != g@ implies #[trigger] self.cached(k) == old_self.cached(k) by {
                    if exists|j: int| 0 <= j < self.langs@.len() && self.langs@[j]@ == k {
                        let j = choose|j: int| 0 <= j < self.langs@.len() && self.langs@[j]@ == k;
                        assert(j != i);
                    }
                }
                assert(self.langs@[i as int]@ == g@);
            },
            None => {
                let ghost gv = g@;
                let n = self.langs.len();
                self.langs.push(g);
                self.highlighters.push(h);
                assert(self.langs@[n as int]@ == gv);
                assert forall|k: Seq<char>| k != gv implies #[trigger] self.cached(k) == old_self.cached(k) by {
                    if exists|j: int| 0 <= j < self.langs@.len() && self.langs@[j]@ == k {
                        let j = choose|j: int| 0 <= j < self.langs@.len() && self.langs@[j]@ == k;
                        assert(j < n);
                        assert(old_self.langs@[j]@ == k);
                    } else {
                        assert forall|j: int| 0 <= j < old_self.langs@.len() implies old_self.langs@[j]@ != k by {
                            assert(self.langs@[j] == old_self.langs@[j]);
                        }
                    }
                }
                assert(self.cached(gv) == Some(h)) by {
                    let j = choose|j: int| 0 <= j < self.langs@.len() && self.langs@[j]@ == gv;
                    if j < n {
                        assert(old_self.langs@[j]@ == gv);
                    }
                }
            },
        }
    }
}

/// What to do with a code fence.
#[derive(Debug, PartialEq, Eq)]
pub enum HighlightPlan {
    /// No grammar asked for: the code is emitted escaped.
    Escape,
    /// A highlighter for this grammar is ready in the cache.
    Cached(String),
    /// This grammar has no highlighter yet: build one, store it if that works, else escape.
    Build(String),
}

/// The first step of highlighting a code fence, from its language and the cache.
pub fn plan_highlight<H>(cache: &HighlighterCache<H>, maybe_lang: Option<&str>) -> (r: HighlightPlan)
    requires
        cache.wf(),
    ensures
        match requested_grammar(match maybe_lang {
            Some(l) => Some(l@),
            None => None,
        }) {
            None => r == HighlightPlan::Escape,
            Some(g) => match r {
                HighlightPlan::Cached(c) => c@ == g && cache.cached(g).is_some(),
                HighlightPlan::Build(b) => b@ == g && cache.cached(g).is_none(),
                HighlightPlan::Escape => false,
            },
        },
{
    match requested_grammar_of(maybe_lang) {
        None => HighlightPlan::Escape,
        Some(g) => {
            if cache.find(&g).is_some() {
                HighlightPlan::Cached(g)
            } else {
                HighlightPlan::Build(g)
            }
        },
    }
}

/// The HTML of a code fence once the highlighter has run: its output when it produced
/// some, else the escaped code.
pub fn highlighted_or_escaped(rendered: Option<String>, code: &str) -> (r: String)
    ensures
        match rendered {
            Some(h) => r == h,
            None => r@ == escape(code@),
        },
{
    match rendered {
        Some(h) => h,
        None => escape_html(code),
    }
}

} // verus!
