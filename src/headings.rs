//! Line-oriented heading extraction from Markdown, aware of code fences.

use vstd::prelude::*;
use crate::text::{skip_ws, drop_ws_back, trim, views, char_is_ws, chars_of, string_of_range};

verus! {

/// Index of the first `'\n'` at or after `i`, or `s.len()` when there is none.
pub open spec fn line_end(s: Seq<char>, i: int) -> int
    decreases s.len() - i,
{
    if 0 <= i < s.len() && s[i] != '\n' {
        line_end(s, i + 1)
    } else {
        i
    }
}

/// Index of the first character at or after `i` that is not `'#'`.
pub open spec fn hashes_end(l: Seq<char>, i: int) -> int
    decreases l.len() - i,
{
    if 0 <= i < l.len() && l[i] == '#' {
        hashes_end(l, i + 1)
    } else {
        i
    }
}

/// A line that opens or closes a code fence: it starts with three backticks or three tildes.
pub open spec fn is_fence(l: Seq<char>) -> bool {
    l.len() >= 3 && ((l[0] == '`' && l[1] == '`' && l[2] == '`') || (l[0] == '~' && l[1] == '~'
        && l[2] == '~'))
}

/// A heading line: one or more `#`, then a space. Its text is what follows the hashes, trimmed.
pub open spec fn is_heading(l: Seq<char>) -> bool {
    l.len() > 0 && l[0] == '#' && hashes_end(l, 0) < l.len() && l[hashes_end(l, 0)] == ' '
}

pub open spec fn heading_text(l: Seq<char>) -> Seq<char> {
    trim(l.subrange(hashes_end(l, 0), l.len() as int))
}

/// The headings of the lines of `s` from position `i` on, `in_code` telling whether
/// a fence is open at `i`. A fence line toggles the flag; lines inside a fence are skipped.
pub open spec fn titles_from(s: Seq<char>, i: int, in_code: bool) -> Seq<Seq<char>>
    decreases s.len() + 1 - i,
    via titles_from_decreases
{
    if 0 <= i < s.len() {
        let e = line_end(s, i);
        let l = s.subrange(i, e);
        let code = if is_fence(l) { !in_code } else { in_code };
        let rest = titles_from(s, e + 1, code);
        if !code && is_heading(l) {
            seq![heading_text(l)] + rest
        } else {
            rest
        }
    } else {
        Seq::empty()
    }
}

#[via_fn]
proof fn titles_from_decreases(s: Seq<char>, i: int, in_code: bool) {
    if 0 <= i < s.len() {
        lemma_line_end_bounds(s, i);
        let e = line_end(s, i);
        assert(0 <= s.len() + 1 - (e + 1) < s.len() + 1 - i);
    }
}

/// The headings of a Markdown text, in order.
pub open spec fn titles_of(s: Seq<char>) -> Seq<Seq<char>> {
    titles_from(s, 0, false)
}

pub proof fn lemma_line_end_bounds(s: Seq<char>, i: int)
    requires
        0 <= i <= s.len(),
    ensures
        i <= line_end(s, i) <= s.len(),
        line_end(s, i) < s.len() ==> s[line_end(s, i)] == '\n',
        forall|k: int| i <= k < line_end(s, i) ==> s[k] != '\n',
    decreases s.len() - i,
{
    if i < s.len() && s[i] != '\n' {
        lemma_line_end_bounds(s, i + 1);
    }
}

/// The heading in `line`, if it is one.
fn line_heading(line: &Vec<char>) -> (r: Option<String>)
    ensures
        r.is_some() == is_heading(line@),
        r.is_some() ==> r.unwrap()@ == heading_text(line@),
{
    let n = line.len();
    if n == 0 || line[0] != '#' {
        return None;
    }
    let mut k: usize = 0;
    while k < n && line[k] == '#'
        invariant
            0 <= k <= n == line@.len(),
            hashes_end(line@, 0) == hashes_end(line@, k as int),
        decreases n - k,
    {
        k = k + 1;
    }
    if k == n || line[k] != ' ' {
        return None;
    }
    let ghost rest = line@.subrange(k as int, n as int);
    let mut a: usize = k;
    while a < n && char_is_ws(line[a])
        invariant
            k <= a <= n == line@.len(),
            rest == line@.subrange(k as int, n as int),
            skip_ws(rest, 0) == skip_ws(rest, a - k),
        decreases n - a,
    {
        a = a + 1;
    }
    let mut b: usize = n;
    while b > a && char_is_ws(line[b - 1])
        invariant
            k <= a <= b <= n == line@.len(),
            rest == line@.subrange(k as int, n as int),
            skip_ws(rest, 0) == a - k,
            drop_ws_back(rest, rest.len() as int, a - k) == drop_ws_back(rest, b - k, a - k),
        decreases b,
    {
        b = b - 1;
    }
    let r = string_of_range(line, a, b);
    assert(r@ =~= rest.subrange(a - k, b - k));
    Some(r)
}

/// The headings of a Markdown text, in order: the text after the leading `#`s of each line
/// that starts with `#`s and a space, trimmed, leaving out lines inside code fences.
pub fn extract_markdown_titles(content: &str) -> (r: Vec<String>)
    ensures
        views(r@) == titles_of(content@),
{
    let s = chars_of(content);
    let n = s.len();
    let mut out: Vec<String> = Vec::new();
    let mut i: usize = 0;
    let mut in_code = false;
    while i < n
        invariant
            s@ == content@,
            n == s@.len(),
            i <= n,
            views(out@) + titles_from(s@, i as int, in_code) == titles_of(s@),
        decreases n - i,
    {
        proof {
            lemma_line_end_bounds(s@, i as int);
        }
        let mut line: Vec<char> = Vec::new();
        let mut e: usize = i;
        while e < n && s[e] != '\n'
            invariant
                i <= e <= n == s@.len(),
                line@ == s@.subrange(i as int, e as int),
                line_end(s@, i as int) == line_end(s@, e as int),
            decreases n - e,
        {
            line.push(s[e]);
            e = e + 1;
        }
        assert(line_end(s@, i as int) == e);
        if is_fence_line(&line) {
            in_code = !in_code;
        }
        let ghost old_out = out@;
        if !in_code {
            match line_heading(&line) {
                Some(h) => {
                    out.push(h);
                    assert(views(out@) =~= views(old_out).push(heading_text(line@)));
                },
                None => {},
            }
        }
        proof {
            let rest = titles_from(s@, e + 1, in_code);
            if !in_code && is_heading(line@) {
                assert(views(out@) + rest =~= views(old_out) + (seq![heading_text(line@)] + rest));
            } else {
                assert(out@ == old_out);
            }
        }
        if e < n {
            i = e + 1;
        } else {
            i = n;
        }
    }
    out
}


fn is_fence_line(line: &Vec<char>) -> (r: bool)
    ensures
        r == is_fence(line@),
{
    line.len() >= 3 && ((line[0] == '`' && line[1] == '`' && line[2] == '`') || (line[0] == '~'
        && line[1] == '~' && line[2] == '~'))
}

} // verus!
