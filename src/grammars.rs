//! Installed grammars: where each one lives, and the list of installed languages that the
//! loader reports.

use vstd::prelude::*;
use crate::text::{chars_of, push_str, views};
use crate::git::join_path;

verus! {

/// Lexicographic order of texts, by code point.
pub open spec fn lex_lt(a: Seq<char>, b: Seq<char>) -> bool
    decreases a.len(),
{
    if a.len() == 0 {
        b.len() > 0
    } else if b.len() == 0 {
        false
    } else if a[0] != b[0] {
        a[0] < b[0]
    } else {
        lex_lt(a.drop_first(), b.drop_first())
    }
}

pub proof fn lemma_lex_total(a: Seq<char>, b: Seq<char>)
    ensures
        a == b || lex_lt(a, b) || lex_lt(b, a),
    decreases a.len(),
{
    if a.len() > 0 && b.len() > 0 && a[0] == b[0] {
        lemma_lex_total(a.drop_first(), b.drop_first());
        if a.drop_first() == b.drop_first() {
            assert(a =~= seq![a[0]] + a.drop_first());
            assert(b =~= seq![b[0]] + b.drop_first());
        }
    } else if a.len() == 0 && b.len() == 0 {
        assert(a =~= b);
    }
}

pub proof fn lemma_lex_transitive(a: Seq<char>, b: Seq<char>, c: Seq<char>)
    requires
        lex_lt(a, b),
        lex_lt(b, c),
    ensures
        lex_lt(a, c),
    decreases a.len(),
{
    if a.len() > 0 && b.len() > 0 && c.len() > 0 && a[0] == b[0] && b[0] == c[0] {
        lemma_lex_transitive(a.drop_first(), b.drop_first(), c.drop_first());
    }
}

/// Strictly increasing texts: sorted, each one once.
pub open spec fn strictly_sorted(s: Seq<Seq<char>>) -> bool {
    forall|i: int, j: int| 0 <= i < j < s.len() ==> lex_lt(#[trigger] s[i], #[trigger] s[j])
}

/// Whether `a` comes before `b`.
fn less(a: &String, b: &String) -> (r: bool)
    ensures
        r == lex_lt(a@, b@),
{
    let x = chars_of(a.as_str());
    let y = chars_of(b.as_str());
    let mut i: usize = 0;
    assert(x@.skip(0) =~= x@);
    assert(y@.skip(0) =~= y@);
    loop
        invariant
            x@ == a@,
            y@ == b@,
            i <= x@.len(),
            i <= y@.len(),
            lex_lt(a@, b@) == lex_lt(x@.skip(i as int), y@.skip(i as int)),
        decreases x@.len() - i,
    {
        if i == x.len() {
            return i < y.len();
        }
        if i == y.len() {
            return false;
        }
        if x[i] != y[i] {
            return x[i] < y[i];
        }
        assert(x@.skip(i as int).drop_first() =~= x@.skip(i + 1));
        assert(y@.skip(i as int).drop_first() =~= y@.skip(i + 1));
        i = i + 1;
    }
}

/// The languages that the loader reports, sorted, each one once (the loader may report a
/// grammar several times through different configuration paths).
pub fn unique_languages(found: Vec<String>) -> (r: Vec<String>)
    ensures
        strictly_sorted(views(r@)),
        forall|t: Seq<char>| views(r@).contains(t) <==> views(found@).contains(t),
{
    let mut out: Vec<String> = Vec::new();
    let n = found.len();
    let mut i: usize = 0;
    while i < n
        invariant
            n == found@.len(),
            i <= n,
            strictly_sorted(views(out@)),
            forall|t: Seq<char>| views(out@).contains(t) <==> views(found@.take(i as int)).contains(t),
        decreases n - i,
    {
        let x = &found[i];
        let ghost o = views(out@);
        let m = out.len();
        let mut p: usize = 0;
        while p < m && less(&out[p], x)
            invariant
                m == out@.len(),
                o == views(out@),
                p <= m,
                forall|k: int| 0 <= k < p ==> lex_lt(#[trigger] o[k], x@),
            decreases m - p,
        {
            p = p + 1;
        }
        assert(views(found@.take(i + 1)) =~= views(found@.take(i as int)).push(x@));
        let ghost prev = views(found@.take(i as int));
        assert forall|t: Seq<char>| prev.push(x@).contains(t) <==> (prev.contains(t) || t == x@) by {
            if t == x@ {
                assert(prev.push(x@)[prev.len() as int] == t);
            }
            if prev.contains(t) {
                let k = choose|k: int| 0 <= k < prev.len() && prev[k] == t;
                assert(prev.push(x@)[k] == t);
            }
        }
        if p < m && out[p] == *x {
            assert(o[p as int] == x@);
            assert(o.contains(x@));
        } else {
            proof {
                if p < m {
                    lemma_lex_total(o[p as int], x@);
                }
            }
            let ghost xv = x@;
            out.insert(p, x.clone());
            assert(views(out@) =~= o.insert(p as int, xv));
            assert forall|t: Seq<char>| views(out@).contains(t) <==> (o.contains(t) || t == xv) by {
                let v = views(out@);
                if v.contains(t) {
                    let k = choose|k: int| 0 <= k < v.len() && v[k] == t;
                    if k < p {
                        assert(o[k] == t);
                    } else if k > p {
                        assert(o[k - 1] == t);
                    }
                }
                if o.contains(t) {
                    let k = choose|k: int| 0 <= k < o.len() && o[k] == t;
                    if k < p {
                        assert(v[k] == t);
                    } else {
                        assert(v[k + 1] == t);
                    }
                }
                if t == xv {
                    assert(v[p as int] == t);
                }
            }
            assert forall|a: int, b: int| 0 <= a < b < views(out@).len() implies lex_lt(
                #[trigger] views(out@)[a],
                #[trigger] views(out@)[b],
            ) by {
                let v = views(out@);
                if b < p {
                } else if b == p {
                } else if a < p {
                    assert(v[b] == o[b - 1]);
                    if p < b - 1 {
                        lemma_lex_transitive(xv, o[p as int], o[b - 1]);
                    }
                    lemma_lex_transitive(o[a], xv, o[b - 1]);
                } else if a == p {
                    if p < b - 1 {
                        lemma_lex_transitive(xv, o[p as int], o[b - 1]);
                    }
                } else {
                }
            }
        }
        assert(forall|t: Seq<char>| views(out@).contains(t) <==> (o.contains(t) || t == x@));
        assert forall|t: Seq<char>| views(out@).contains(t) <==> views(found@.take(i + 1)).contains(t) by {
            assert(o.contains(t) <==> prev.contains(t));
            assert(views(found@.take(i + 1)) == prev.push(x@));
        }
        i = i + 1;
    }
    assert(found@.take(n as int) =~= found@);
    out
}

/// The folder of the grammar of `lang` under the grammars folder `root`.
pub open spec fn grammar_folder_of(root: Seq<char>, lang: Seq<char>) -> Seq<char> {
    join_path(root, "tree-sitter-"@ + lang)
}

pub fn grammar_folder(root: &String, lang: &str) -> (r: String)
    ensures
        r@ == grammar_folder_of(root@, lang@),
{
    let mut name = String::from_str("tree-sitter-");
    push_str(&mut name, lang);
    let mut path = root.clone();
    let bl = path.as_str().unicode_len();
    if bl > 0 && path.as_str().get_char(bl - 1) != '/' {
        push_str(&mut path, "/");
    }
    push_str(&mut path, name.as_str());
    proof {
        reveal_strlit("/");
    }
    path
}

} // verus!
