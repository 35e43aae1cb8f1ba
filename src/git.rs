//! Git repositories of grammars: the HTTPS clone URLs that are accepted, the name of the
//! folder a clone creates, the arguments of `git clone`, and what a pull reports.

use vstd::prelude::*;
use crate::text::{chars_of, string_of_range, push_str};

verus! {

/// ASCII letters in either case, digits, and `-`: the characters of a host label or an owner.
pub open spec fn is_label_char(c: char) -> bool {
    ('a' <= c && c <= 'z') || ('A' <= c && c <= 'Z') || ('0' <= c && c <= '9') || c == '-'
}

/// The characters of a repository name: those of a label, `_` and `.`.
pub open spec fn is_name_char(c: char) -> bool {
    is_label_char(c) || c == '_' || c == '.'
}

/// Whether `c` is `t` or, `t` being a lower-case ASCII letter, its upper-case form.
pub open spec fn same_letter(c: char, t: char) -> bool {
    c == t || ('a' <= t && t <= 'z' && (c as u32) + 32 == (t as u32))
}

/// Whether `s` is `t` up to the case of ASCII letters (`t` in lower case).
pub open spec fn eq_ignore_case(s: Seq<char>, t: Seq<char>) -> bool {
    s.len() == t.len() && forall|i: int| 0 <= i < s.len() ==> same_letter(#[trigger] s[i], t[i])
}

pub open spec fn scheme() -> Seq<char> {
    seq!['h', 't', 't', 'p', 's', ':', '/', '/']
}

pub open spec fn git_suffix() -> Seq<char> {
    seq!['.', 'g', 'i', 't']
}

/// Index of the first `/` at or after `i`, or `s.len()`.
pub open spec fn next_slash(s: Seq<char>, i: int) -> int
    decreases s.len() - i,
{
    if 0 <= i < s.len() && s[i] != '/' {
        next_slash(s, i + 1)
    } else {
        i
    }
}

/// Two or more non-empty labels joined by dots.
pub open spec fn valid_host(h: Seq<char>) -> bool {
    &&& h.len() > 0
    &&& h[0] != '.'
    &&& h[h.len() - 1] != '.'
    &&& exists|i: int| 0 <= i < h.len() && h[i] == '.'
    &&& forall|i: int| 0 <= i < h.len() ==> is_label_char(#[trigger] h[i]) || h[i] == '.'
    &&& forall|i: int| 0 <= i < h.len() - 1 ==> !(#[trigger] h[i] == '.' && h[i + 1] == '.')
}

pub open spec fn valid_owner(o: Seq<char>) -> bool {
    o.len() > 0 && forall|i: int| 0 <= i < o.len() ==> is_label_char(#[trigger] o[i])
}

/// The last part of the URL: the shortest non-empty name that leaves nothing or `.git`.
pub open spec fn repo_name_of_tail(t: Seq<char>) -> Seq<char> {
    if t.len() > 4 && eq_ignore_case(t.subrange(t.len() - 4, t.len() as int), git_suffix()) {
        t.subrange(0, t.len() - 4)
    } else {
        t
    }
}

/// The repository name of an HTTPS clone URL `https://<host>/<owner>/<repo>[.git]`
/// (ASCII case ignored), or `None` when the URL has another form.
pub open spec fn repo_name_of(url: Seq<char>) -> Option<Seq<char>> {
    if url.len() < 8 || !eq_ignore_case(url.subrange(0, 8), scheme()) {
        None
    } else {
        let a = next_slash(url, 8);
        let b = next_slash(url, a + 1);
        let host = url.subrange(8, a);
        let owner = url.subrange(a + 1, b);
        let tail = url.subrange(b + 1, url.len() as int);
        if a < url.len() && b < url.len() && valid_host(host) && valid_owner(owner) && tail.len()
            > 0 && forall|i: int| 0 <= i < tail.len() ==> is_name_char(#[trigger] tail[i]) {
            Some(repo_name_of_tail(tail))
        } else {
            None
        }
    }
}

/// `base` joined with the relative path `name`, as `Path::join` does it.
pub open spec fn join_path(base: Seq<char>, name: Seq<char>) -> Seq<char> {
    if base.len() == 0 || base[base.len() - 1] == '/' {
        base + name
    } else {
        base + seq!['/'] + name
    }
}

pub proof fn lemma_next_slash(s: Seq<char>, i: int)
    requires
        0 <= i <= s.len(),
    ensures
        i <= next_slash(s, i) <= s.len(),
        next_slash(s, i) < s.len() ==> s[next_slash(s, i)] == '/',
        forall|k: int| i <= k < next_slash(s, i) ==> s[k] != '/',
    decreases s.len() - i,
{
    if i < s.len() && s[i] != '/' {
        lemma_next_slash(s, i + 1);
    }
}

fn letter_matches(c: char, t: char) -> (r: bool)
    ensures
        r == same_letter(c, t),
{
    c == t || ('a' <= t && t <= 'z' && (c as u32) + 32 == (t as u32))
}

fn label_char(c: char) -> (r: bool)
    ensures
        r == is_label_char(c),
{
    ('a' <= c && c <= 'z') || ('A' <= c && c <= 'Z') || ('0' <= c && c <= '9') || c == '-'
}

/// Whether `s[from..from + t.len()]` is `t` up to ASCII case.
fn matches_at(s: &Vec<char>, from: usize, t: &Vec<char>) -> (r: bool)
    requires
        from + t@.len() <= s@.len(),
    ensures
        r == eq_ignore_case(s@.subrange(from as int, from + t@.len()), t@),
{
    let n = t.len();
    let sl = s.len();
    let mut i: usize = 0;
    while i < n
        invariant
            n == t@.len(),
            sl == s@.len(),
            from + n <= sl,
            i <= n,
            forall|k: int| 0 <= k < i ==> same_letter(s@[from + k], t@[k]),
        decreases n - i,
    {
        if !letter_matches(s[from + i], t[i]) {
            assert(!same_letter(s@.subrange(from as int, from + n)[i as int], t@[i as int]));
            return false;
        }
        i = i + 1;
    }
    assert forall|k: int| 0 <= k < n implies same_letter(#[trigger] s@.subrange(from as int, from + n)[k], t@[k]) by {
        assert(s@.subrange(from as int, from + n)[k] == s@[from + k]);
    }
    true
}

fn scheme_chars() -> (r: Vec<char>)
    ensures
        r@ == scheme(),
{
    let r = vec!['h', 't', 't', 'p', 's', ':', '/', '/'];
    assert(r@ =~= scheme());
    r
}

fn suffix_chars() -> (r: Vec<char>)
    ensures
        r@ == git_suffix(),
{
    let r = vec!['.', 'g', 'i', 't'];
    assert(r@ =~= git_suffix());
    r
}

fn find_slash(s: &Vec<char>, i: usize) -> (r: usize)
    requires
        i <= s@.len(),
    ensures
        r == next_slash(s@, i as int),
{
    let mut k = i;
    while k < s.len() && s[k] != '/'
        invariant
            i <= k <= s@.len(),
            next_slash(s@, i as int) == next_slash(s@, k as int),
        decreases s@.len() - k,
    {
        k = k + 1;
    }
    k
}

fn host_ok(s: &Vec<char>, from: usize, to: usize) -> (r: bool)
    requires
        from <= to <= s@.len(),
    ensures
        r == valid_host(s@.subrange(from as int, to as int)),
{
    let ghost h = s@.subrange(from as int, to as int);
    if from == to || s[from] == '.' || s[to - 1] == '.' {
        return false;
    }
    let mut dot = false;
    let mut k = from;
    while k < to
        invariant
            from <= k <= to <= s@.len(),
            h == s@.subrange(from as int, to as int),
            h.len() > 0,
            dot == exists|i: int| 0 <= i < k - from && h[i] == '.',
            forall|i: int| 0 <= i < k - from ==> is_label_char(#[trigger] h[i]) || h[i] == '.',
            forall|i: int| 0 <= i < k - from - 1 ==> !(#[trigger] h[i] == '.' && h[i + 1] == '.'),
        decreases to - k,
    {
        let c = s[k];
        assert(h[k - from] == c);
        if !(label_char(c) || c == '.') {
            return false;
        }
        if c == '.' {
            if k > from && s[k - 1] == '.' {
                assert(h[k - from - 1] == '.' && h[k - from] == '.');
                return false;
            }
            dot = true;
        }
        k = k + 1;
    }
    dot
}

fn all_chars(s: &Vec<char>, from: usize, to: usize, names: bool) -> (r: bool)
    requires
        from <= to <= s@.len(),
    ensures
        r == forall|i: int|
            0 <= i < to - from ==> (if names {
                is_name_char(#[trigger] s@.subrange(from as int, to as int)[i])
            } else {
                is_label_char(s@.subrange(from as int, to as int)[i])
            }),
{
    let ghost t = s@.subrange(from as int, to as int);
    let mut k = from;
    while k < to
        invariant
            from <= k <= to <= s@.len(),
            t == s@.subrange(from as int, to as int),
            forall|i: int| 0 <= i < k - from ==> (if names {
                is_name_char(#[trigger] t[i])
            } else {
                is_label_char(t[i])
            }),
        decreases to - k,
    {
        let c = s[k];
        assert(t[k - from] == c);
        let ok = if names {
            label_char(c) || c == '_' || c == '.'
        } else {
            label_char(c)
        };
        if !ok {
            return false;
        }
        k = k + 1;
    }
    true
}

/// A git repository on disk.
pub struct GitRepos {
    path: String,
}

/// The decimal digits of `n`, without leading zeros.
pub open spec fn decimal_digits(n: nat) -> Seq<char>
    decreases n,
{
    if n < 10 {
        seq![(('0' as u32) + n) as char]
    } else {
        decimal_digits(n / 10).push((('0' as u32) + (n % 10)) as char)
    }
}

/// Relies on `usize::to_string` (its `Display`): the decimal digits of `n`.
#[verifier::external_body]
fn decimal(n: usize) -> (r: String)
    ensures
        r@ == decimal_digits(n as nat),
{
    n.to_string()
}

impl View for GitRepos {
    type V = Seq<char>;

    closed spec fn view(&self) -> Seq<char> {
        self.path@
    }
}

impl GitRepos {
    /// The folder of the repository.
    pub fn path(&self) -> (r: &String)
        ensures
            r@ == self@,
    {
        &self.path
    }

    /// The repository in `directory`, given whether the folder exists and whether it holds
    /// a `.git` entry; an error when either is missing.
    pub fn from_existing_folder(directory: &String, exists: bool, has_git_dir: bool) -> (r: Result<
        GitRepos,
        String,
    >)
        ensures
            r.is_ok() == (exists && has_git_dir),
            r.is_ok() ==> r.unwrap()@ == directory@,
    {
        if !exists {
            let mut m = String::from_str("The folder ");
            push_str(&mut m, directory.as_str());
            push_str(&mut m, " doesn't exist, cannot use as a git repository.");
            return Err(m);
        }
        if !has_git_dir {
            let mut m = String::from_str("The folder ");
            push_str(&mut m, directory.as_str());
            push_str(&mut m, " exist but is not a git repository.");
            return Err(m);
        }
        Ok(GitRepos { path: directory.clone() })
    }

    /// The arguments of `git clone` for `url`: `--depth <n>` when only the latest `n`
    /// commits are wanted, `--single-branch` when asked.
    pub fn clone_args(url: &str, only_latest_commits: Option<usize>, single_branch: bool) -> (r: Vec<
        String,
    >)
        ensures
            r@.len() == 2 + (if only_latest_commits.is_some() { 2int } else { 0 }) + (if single_branch { 1int } else { 0 }),
            r@[0]@ == "clone"@,
            r@[1]@ == url@,
            only_latest_commits.is_some() ==> r@[2]@ == "--depth"@ && r@[3]@ == decimal_digits(
                only_latest_commits.unwrap() as nat,
            ),
            single_branch ==> r@[r@.len() - 1]@ == "--single-branch"@,
    {
        let mut args: Vec<String> = Vec::new();
        args.push(String::from_str("clone"));
        args.push(url.to_owned());
        match only_latest_commits {
            Some(count) => {
                args.push(String::from_str("--depth"));
                args.push(decimal(count));
            },
            None => {},
        }
        if single_branch {
            args.push(String::from_str("--single-branch"));
        }
        args
    }

    /// The repository that `git clone <url>` created under `base_directory`, named after
    /// the URL, when the command succeeded; an error for an invalid URL or a failed clone.
    pub fn from_clone(git_clone_url: &str, base_directory: &String, clone_succeeded: bool) -> (r:
        Result<GitRepos, String>)
        ensures
            r.is_ok() == (repo_name_of(git_clone_url@).is_some() && clone_succeeded),
            r.is_ok() ==> r.unwrap()@ == join_path(
                base_directory@,
                repo_name_of(git_clone_url@).unwrap(),
            ),
    {
        let name = match Self::validate_and_extract_repos_name_from_https_url(git_clone_url) {
            Ok(name) => name,
            Err(e) => return Err(e),
        };
        if !clone_succeeded {
            let mut m = String::from_str("Failed to git clone ");
            push_str(&mut m, git_clone_url);
            return Err(m);
        }
        let mut path = base_directory.clone();
        let bl = path.as_str().unicode_len();
        if bl > 0 && path.as_str().get_char(bl - 1) != '/' {
            push_str(&mut path, "/");
        }
        push_str(&mut path, name.as_str());
        proof {
            reveal_strlit("/");
        }
        Ok(GitRepos { path })
    }

    /// What a pull reports: an error for a repository without remote, else whether the
    /// last commit changed.
    pub fn pull(&self, is_remote: bool, hash_before: &String, hash_after: &String) -> (r: Result<
        bool,
        String,
    >)
        ensures
            r.is_ok() == is_remote,
            r.is_ok() ==> r.unwrap() == (hash_before@ != hash_after@),
    {
        if is_remote {
            Ok(!(*hash_before == *hash_after))
        } else {
            let mut m = String::from_str("Cannot pull a local only repository on ");
            push_str(&mut m, self.path.as_str());
            Err(m)
        }
    }

    /// The name of the repository of an HTTPS git clone URL such as
    /// `https://codeberg.org/samuelroland/productivity` (`productivity`), without a
    /// trailing `.git`; an error for any URL of another form.
    pub fn validate_and_extract_repos_name_from_https_url(url: &str) -> (r: Result<String, String>)
    ensures
        r.is_ok() == repo_name_of(url@).is_some(),
        r.is_ok() ==> r.unwrap()@ == repo_name_of(url@).unwrap(),
{
    let s = chars_of(url);
    let n = s.len();
    if n < 8 || !matches_at(&s, 0, &scheme_chars()) {
        return Err(String::from_str("Given URL not a valid HTTPS git clone URL"));
    }
    proof {
        lemma_next_slash(s@, 8);
    }
    let a = find_slash(&s, 8);
    if a == n {
        return Err(String::from_str("Given URL not a valid HTTPS git clone URL"));
    }
    proof {
        lemma_next_slash(s@, a + 1);
    }
    let b = find_slash(&s, a + 1);
    if b == n {
        return Err(String::from_str("Given URL not a valid HTTPS git clone URL"));
    }
    if !host_ok(&s, 8, a) || a + 1 == b || !all_chars(&s, a + 1, b, false) || b + 1 == n
        || !all_chars(&s, b + 1, n, true) {
        return Err(String::from_str("Given URL not a valid HTTPS git clone URL"));
    }
    let ghost tail = s@.subrange(b + 1, n as int);
    let tl = n - (b + 1);
    if tl > 4 && matches_at(&s, n - 4, &suffix_chars()) {
        assert(tail.subrange(tail.len() - 4, tail.len() as int) =~= s@.subrange(n - 4, n as int));
        let r = string_of_range(&s, b + 1, n - 4);
        assert(r@ =~= tail.subrange(0, tail.len() - 4));
        Ok(r)
    } else {
        proof {
            if tl > 4 {
                assert(tail.subrange(tail.len() - 4, tail.len() as int) =~= s@.subrange(n - 4, n as int));
            }
        }
        Ok(string_of_range(&s, b + 1, n))
    }
}

}

} // verus!
