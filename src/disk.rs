//! An index of the Markdown files under a folder: the files, the headings found in each,
//! the progress of indexing, and ranked fuzzy queries over headings and paths.

use vstd::prelude::*;
use vstd::multiset::Multiset;
use std::sync::mpsc::Sender;
use nucleo_matcher::pattern::{AtomKind, CaseMatching, Normalization, Pattern};
use crate::text::views;
use crate::headings::{titles_of, extract_markdown_titles};
use crate::results::{
    Progress, IndexStat, ResearchResult, ResultView, OrderedResults, sorted_insert, ranked, result_views,
    sorted_desc, lemma_sorted_insert, trim_floor, lemma_ranked_is_trimmed,
};

verus! {

/// The score that nucleo's fuzzy matcher gives `text` for `query` (smart normalisation,
/// case ignored), with its configuration for paths when `paths` holds; `None` when it
/// does not match.
pub uninterp spec fn fuzzy_score(query: Seq<char>, text: Seq<char>, paths: bool) -> Option<u32>;

/// What `str::to_lowercase` returns.
pub uninterp spec fn lower_of(s: Seq<char>) -> Seq<char>;

/// Relies on `nucleo_matcher::pattern::Pattern::score` with a fresh `Matcher`: the score
/// depends on the query, the text and the configuration alone; a query without any atom
/// scores `Some(0)`.
#[verifier::external_body]
fn score_text(query: &str, text: &str, paths: bool) -> (r: Option<u32>)
    ensures
        r == fuzzy_score(query@, text@, paths),
        query@.len() == 0 ==> r == Some(0u32),
{
    let config = if paths {
        nucleo_matcher::Config::DEFAULT.match_paths()
    } else {
        nucleo_matcher::Config::DEFAULT
    };
    let mut matcher = nucleo_matcher::Matcher::new(config);
    let pattern = Pattern::new(query, CaseMatching::Ignore, Normalization::Smart, AtomKind::Fuzzy);
    let mut chars: Vec<char> = Vec::new();
    pattern.score(nucleo_matcher::Utf32Str::new(text, &mut chars), &mut matcher)
}

/// Relies on `str::to_lowercase`: the result depends on the text alone; an empty text stays empty.
#[verifier::external_body]
fn lowercase(s: &str) -> (r: String)
    ensures
        r@ == lower_of(s@),
        s@.len() == 0 ==> r@.len() == 0,
{
    s.to_lowercase()
}

/// Relies on `num_cpus::get`: the number of CPUs this process may use.
#[verifier::external_body]
fn cpu_count() -> (r: usize) {
    num_cpus::get()
}

/// Scores above this are matches.
pub const MIN_SCORE: u32 = 10;

/// The priority of a match on a path: the score raised by 30%, rounded down, at most `u32::MAX`.
pub open spec fn path_priority(score: u32) -> u32 {
    if score * 13 / 10 > u32::MAX { u32::MAX } else { (score * 13 / 10) as u32 }
}

/// Whether a score is a match.
pub open spec fn is_match(score: Option<u32>) -> bool {
    score.is_some() && score.unwrap() > MIN_SCORE
}

/// The matches of one heading, one per file that holds it.
pub open spec fn heading_matches(title: Seq<char>, paths: Seq<Seq<char>>, score: Option<u32>) -> Seq<
    ResultView,
> {
    if is_match(score) {
        paths.map_values(
            |p: Seq<char>| ResultView { path: p, title: Some(title), priority: score.unwrap() },
        )
    } else {
        Seq::empty()
    }
}

/// The matches of every heading, entry after entry.
pub open spec fn title_matches(
    titles: Seq<Seq<char>>,
    paths: Seq<Seq<Seq<char>>>,
    scores: Seq<Option<u32>>,
) -> Seq<ResultView>
    decreases titles.len(),
{
    if titles.len() == 0 || paths.len() == 0 || scores.len() == 0 {
        Seq::empty()
    } else {
        heading_matches(titles[0], paths[0], scores[0]) + title_matches(
            titles.drop_first(),
            paths.drop_first(),
            scores.drop_first(),
        )
    }
}

/// The matches on paths, in the order of the files.
pub open spec fn path_matches(files: Seq<Seq<char>>, scores: Seq<Option<u32>>) -> Seq<ResultView>
    decreases files.len(),
{
    if files.len() == 0 || scores.len() == 0 {
        Seq::empty()
    } else {
        let rest = path_matches(files.drop_first(), scores.drop_first());
        if is_match(scores[0]) {
            seq![
                ResultView {
                    path: files[0],
                    title: None,
                    priority: path_priority(scores[0].unwrap()),
                },
            ] + rest
        } else {
            rest
        }
    }
}

/// `acc` with each of `s` inserted in turn in rank order.
pub open spec fn insert_all(acc: Seq<ResultView>, s: Seq<ResultView>) -> Seq<ResultView>
    decreases s.len(),
{
    if s.len() == 0 {
        acc
    } else {
        insert_all(sorted_insert(acc, s[0]), s.drop_first())
    }
}

/// `⌈count × 100 / total⌉`, and 0 for an empty index.
pub open spec fn percent(count: nat, total: nat) -> nat {
    if total == 0 { 0 } else { ((count * 100 + total - 1) as int / total as int) as nat }
}

/// Whether `path` is listed under heading `title`.
pub open spec fn lists(keys: Seq<Seq<char>>, paths: Seq<Seq<Seq<char>>>, title: Seq<char>, path: Seq<char>) -> bool {
    exists|k: int| 0 <= k < keys.len() && keys[k] == title && #[trigger] paths[k].contains(path)
}

pub proof fn lemma_insert_all_sorted(acc: Seq<ResultView>, s: Seq<ResultView>)
    requires
        sorted_desc(acc),
    ensures
        sorted_desc(insert_all(acc, s)),
        insert_all(acc, s).to_multiset() == acc.to_multiset().add(s.to_multiset()),
    decreases s.len(),
{
    if s.len() > 0 {
        lemma_sorted_insert(acc, s[0]);
        lemma_insert_all_sorted(sorted_insert(acc, s[0]), s.drop_first());
        assert(s =~= seq![s[0]] + s.drop_first());
        vstd::seq_lib::lemma_multiset_commutative(seq![s[0]], s.drop_first());
        assert(seq![s[0]].to_multiset() =~= Multiset::empty().insert(s[0])) by {
            broadcast use vstd::seq_lib::group_to_multiset_ensures;
            assert(seq![s[0]] =~= Seq::<ResultView>::empty().push(s[0]));
        }
    } else {
        assert(s.to_multiset() =~= Multiset::empty()) by {
            broadcast use vstd::seq_lib::group_to_multiset_ensures;
        }
    }
}

/// Whatever the matches of a query, its answer lists them in non-increasing order of
/// priority, and none has a priority below `top - top / 4`, `top` being the first one's.
pub proof fn lemma_answer_ranked(matches: Seq<ResultView>, limit: nat)
    ensures
        sorted_desc(ranked(insert_all(Seq::empty(), matches), limit)),
        ranked(insert_all(Seq::empty(), matches), limit).len() <= limit,
        forall|k: int|
            0 <= k < ranked(insert_all(Seq::empty(), matches), limit).len() ==> #[trigger] ranked(
                insert_all(Seq::empty(), matches),
                limit,
            )[k].priority >= trim_floor(ranked(insert_all(Seq::empty(), matches), limit)[0].priority),
{
    lemma_insert_all_sorted(Seq::empty(), matches);
    lemma_ranked_is_trimmed(insert_all(Seq::empty(), matches), limit);
}

/// The number of files per worker for `n` files and `t` workers.
pub open spec fn chunk_size_of(n: nat, t: nat) -> nat {
    if n < t { 1 } else { ((n + t - 1) as int / t as int) as nat }
}

/// The sequences one after the other.
pub open spec fn concat_all(s: Seq<Seq<Seq<char>>>) -> Seq<Seq<char>>
    decreases s.len(),
{
    if s.len() == 0 {
        Seq::empty()
    } else {
        concat_all(s.drop_last()) + s.last()
    }
}

/// An index of the Markdown files under a folder.
#[derive(Debug)]
pub struct DiskResearcher {
    markdown_paths: Vec<String>,
    /// Distinct headings, and for each the files where it was found (same index).
    title_keys: Vec<String>,
    title_paths: Vec<Vec<String>>,
    base_path: String,
    max_nb_threads: usize,
    has_started: bool,
    progress_counter: usize,
}

impl DiskResearcher {
    pub closed spec fn files(&self) -> Seq<Seq<char>> {
        views(self.markdown_paths@)
    }

    pub closed spec fn keys(&self) -> Seq<Seq<char>> {
        views(self.title_keys@)
    }

    pub closed spec fn key_paths(&self) -> Seq<Seq<Seq<char>>> {
        Seq::new(self.title_paths@.len(), |k: int| views(self.title_paths@[k]@))
    }

    pub closed spec fn root(&self) -> Seq<char> {
        self.base_path@
    }

    pub closed spec fn threads(&self) -> usize {
        self.max_nb_threads
    }

    pub closed spec fn started(&self) -> bool {
        self.has_started
    }

    /// Number of files whose headings are in the index.
    pub closed spec fn indexed(&self) -> nat {
        self.progress_counter as nat
    }

    pub closed spec fn wf(&self) -> bool {
        &&& self.title_keys@.len() == self.title_paths@.len()
        &&& forall|i: int, j: int|
            0 <= i < j < self.title_keys@.len() ==> self.title_keys@[i]@ != self.title_keys@[j]@
        &&& self.progress_counter <= self.markdown_paths@.len()
        &&& self.max_nb_threads > 0
    }

    /// Whether `path` is listed under `title`.
    pub open spec fn has_title_path(&self, title: Seq<char>, path: Seq<char>) -> bool {
        lists(self.keys(), self.key_paths(), title, path)
    }

    /// A researcher for the folder `path`, with one worker per CPU; nothing indexed yet.
    pub fn new(path: String) -> (r: Self)
        ensures
            r.wf(),
            r.root() == path@,
            !r.started(),
            r.files().len() == 0,
            r.keys().len() == 0,
            r.indexed() == 0,
    {
        let n = cpu_count();
        DiskResearcher {
            markdown_paths: Vec::new(),
            title_keys: Vec::new(),
            title_paths: Vec::new(),
            base_path: path,
            max_nb_threads: if n == 0 { 1 } else { n },
            has_started: false,
            progress_counter: 0,
        }
    }

    /// The folder that is indexed.
    pub fn base_path(&self) -> (r: &String)
        ensures
            r@ == self.root(),
    {
        &self.base_path
    }

    /// Number of files whose headings are in the index.
    pub fn indexed_count(&self) -> (r: usize)
        ensures
            r == self.indexed(),
    {
        self.progress_counter
    }

    /// Number of Markdown files of the index.
    pub fn file_count(&self) -> (r: usize)
        ensures
            r == self.files().len(),
    {
        self.markdown_paths.len()
    }

    pub fn has_started(&self) -> (r: bool)
        ensures
            r == self.started(),
    {
        self.has_started
    }

    pub fn max_nb_threads(&self) -> (r: usize)
        ensures
            r == self.threads(),
    {
        self.max_nb_threads
    }

    /// Sets the number of workers; refused when it is 0 or once indexing has started.
    pub fn set_max_nb_threads(&mut self, nb_thread: usize) -> (r: Result<(), String>)
        requires
            old(self).wf(),
        ensures
            final(self).wf(),
            r.is_ok() == (nb_thread > 0 && !old(self).started()),
            r.is_ok() ==> final(self).threads() == nb_thread,
            r.is_err() ==> final(self).threads() == old(self).threads(),
            final(self).started() == old(self).started(),
            final(self).files() == old(self).files(),
            final(self).keys() == old(self).keys(),
            final(self).key_paths() == old(self).key_paths(),
            final(self).indexed() == old(self).indexed(),
    {
        if nb_thread == 0 {
            Err(String::from_str("Number of thread must be greater than 0"))
        } else if self.has_started {
            Err(String::from_str("Process has already started, cannot change thread number"))
        } else {
            self.max_nb_threads = nb_thread;
            Ok(())
        }
    }

    /// Starts indexing over the Markdown files found under the folder: the index is emptied,
    /// the file list is set once, and no file is indexed yet.
    pub fn start(&mut self, paths: Vec<String>)
        requires
            old(self).wf(),
        ensures
            final(self).wf(),
            final(self).started(),
            final(self).files() == views(paths@),
            final(self).keys().len() == 0,
            final(self).indexed() == 0,
            final(self).threads() == old(self).threads(),
            final(self).root() == old(self).root(),
    {
        self.has_started = true;
        self.markdown_paths = paths;
        self.title_keys = Vec::new();
        self.title_paths = Vec::new();
        self.progress_counter = 0;
    }

    /// Lists `path` under heading `title`, adding the heading when it is new.
    fn add_heading_path(&mut self, title: String, path: &String)
        requires
            old(self).wf(),
        ensures
            final(self).wf(),
            final(self).has_title_path(title@, path@),
            forall|t: Seq<char>, f: Seq<char>|
                old(self).has_title_path(t, f) ==> #[trigger] final(self).has_title_path(t, f),
            forall|t: Seq<char>, f: Seq<char>| #[trigger]
                final(self).has_title_path(t, f) ==> old(self).has_title_path(t, f) || (t
                    == title@ && f == path@),
            final(self).files() == old(self).files(),
            final(self).indexed() == old(self).indexed(),
            final(self).started() == old(self).started(),
            final(self).threads() == old(self).threads(),
            final(self).root() == old(self).root(),
    {
        let ghost ok = self.keys();
        let ghost op = self.key_paths();
        let n = self.title_keys.len();
        let mut k: usize = 0;
        while k < n && !(self.title_keys[k] == title)
            invariant
                k <= n == self.title_keys@.len(),
                ok == views(self.title_keys@),
                forall|i: int| 0 <= i < k ==> self.title_keys@[i]@ != title@,
            decreases n - k,
        {
            k = k + 1;
        }
        if k < n {
            let ghost before = self.title_paths@[k as int]@;
            self.title_paths[k].push(path.clone());
            assert(views(self.title_paths@[k as int]@) =~= views(before).push(path@));
            assert(self.key_paths() =~= op.update(k as int, views(before).push(path@)));
            assert(self.keys() == ok);
            assert(self.key_paths()[k as int].contains(path@)) by {
                assert(self.key_paths()[k as int][views(before).len() as int] == path@);
            }
            assert forall|t: Seq<char>, f: Seq<char>|
                #[trigger] lists(ok, op, t, f) implies self.has_title_path(t, f) by {
                let i = choose|i: int| 0 <= i < ok.len() && ok[i] == t && #[trigger] op[i].contains(f);
                let w = choose|w: int| 0 <= w < op[i].len() && op[i][w] == f;
                assert(self.keys()[i] == t);
                if i == k {
                    assert(self.key_paths()[i] == op[i].push(path@));
                    assert(self.key_paths()[i][w] == f);
                    assert(self.key_paths()[i].contains(f));
                } else {
                    assert(self.key_paths()[i] == op[i]);
                }
            }
            assert forall|t: Seq<char>, f: Seq<char>| #[trigger]
                self.has_title_path(t, f) implies lists(ok, op, t, f) || (t == title@ && f
                    == path@) by {
                let i = choose|i: int|
                    0 <= i < self.keys().len() && self.keys()[i] == t
                        && #[trigger] self.key_paths()[i].contains(f);
                let w = choose|w: int| 0 <= w < self.key_paths()[i].len() && self.key_paths()[i][w] == f;
                assert(ok[i] == t);
                if i == k && w == views(before).len() {
                } else if i == k {
                    assert(self.key_paths()[i] == op[i].push(path@));
                    assert(op[i][w] == f);
                    assert(op[i].contains(f));
                } else {
                    assert(op[i] == self.key_paths()[i]);
                }
            }
        } else {
            let ghost tv = title@;
            self.title_keys.push(title);
            let mut v: Vec<String> = Vec::new();
            v.push(path.clone());
            self.title_paths.push(v);
            assert(self.keys() =~= ok.push(tv));
            assert(views(v@) =~= seq![path@]);
            assert(self.key_paths() =~= op.push(seq![path@]));
            assert(self.key_paths()[n as int][0] == path@);
            assert(self.key_paths()[n as int].contains(path@));
            assert forall|t: Seq<char>, f: Seq<char>|
                #[trigger] lists(ok, op, t, f) implies self.has_title_path(t, f) by {
                let i = choose|i: int| 0 <= i < ok.len() && ok[i] == t && #[trigger] op[i].contains(f);
                assert(self.key_paths()[i] == op[i]);
                assert(self.keys()[i] == ok[i]);
            }
            assert forall|t: Seq<char>, f: Seq<char>| #[trigger]
                self.has_title_path(t, f) implies lists(ok, op, t, f) || (t == title@ && f
                    == path@) by {
                let i = choose|i: int|
                    0 <= i < self.keys().len() && self.keys()[i] == t
                        && #[trigger] self.key_paths()[i].contains(f);
                if i < n {
                    assert(op[i] == self.key_paths()[i]);
                    assert(ok[i] == self.keys()[i]);
                } else {
                    let w = choose|w: int| 0 <= w < self.key_paths()[i].len() && self.key_paths()[i][w] == f;
                    assert(self.key_paths()[i] =~= seq![path@]);
                }
            }
        }
    }

    /// Lists `path` under each heading of `content`.
    pub fn index_file(&mut self, path: &String, content: &str)
        requires
            old(self).wf(),
        ensures
            final(self).wf(),
            forall|t: Seq<char>| #[trigger]
                titles_of(content@).contains(t) ==> final(self).has_title_path(t, path@),
            forall|t: Seq<char>, f: Seq<char>|
                old(self).has_title_path(t, f) ==> #[trigger] final(self).has_title_path(t, f),
            forall|t: Seq<char>, f: Seq<char>| #[trigger]
                final(self).has_title_path(t, f) ==> old(self).has_title_path(t, f) || (f
                    == path@ && titles_of(content@).contains(t)),
            final(self).files() == old(self).files(),
            final(self).indexed() == old(self).indexed(),
            final(self).started() == old(self).started(),
            final(self).threads() == old(self).threads(),
            final(self).root() == old(self).root(),
    {
        let titles = extract_markdown_titles(content);
        let ghost ts = views(titles@);
        let ghost start = *self;
        let n = titles.len();
        let mut i: usize = 0;
        while i < n
            invariant
                self.wf(),
                n == titles@.len(),
                ts == views(titles@),
                ts == titles_of(content@),
                i <= n,
                forall|j: int| 0 <= j < i ==> self.has_title_path(#[trigger] ts[j], path@),
                forall|t: Seq<char>, f: Seq<char>|
                    start.has_title_path(t, f) ==> #[trigger] self.has_title_path(t, f),
                forall|t: Seq<char>, f: Seq<char>| #[trigger]
                    self.has_title_path(t, f) ==> start.has_title_path(t, f) || (f == path@
                        && ts.contains(t)),
                self.files() == start.files(),
                self.indexed() == start.indexed(),
                self.started() == start.started(),
                self.threads() == start.threads(),
                self.root() == start.root(),
            decreases n - i,
        {
            let t = titles[i].clone();
            let ghost mid = *self;
            self.add_heading_path(t, path);
            assert(ts[i as int] == t@);
            assert forall|t2: Seq<char>, f: Seq<char>| #[trigger]
                self.has_title_path(t2, f) implies start.has_title_path(t2, f) || (f == path@
                    && ts.contains(t2)) by {
                if !mid.has_title_path(t2, f) {
                    assert(ts[i as int] == t2);
                }
            }
            i = i + 1;
        }
        assert forall|t: Seq<char>| #[trigger] ts.contains(t) implies self.has_title_path(t, path@) by {
            let j = choose|j: int| 0 <= j < ts.len() && ts[j] == t;
        }
    }

    /// Indexes the files of one worker, `(path, content)` each: every heading of each file
    /// lists its path afterwards, and all of them count as indexed once the call returns.
    /// The shared count grows by ten files at a time and then by the rest.
    pub fn index_chunk(&mut self, chunk: Vec<(String, String)>)
        requires
            old(self).wf(),
            old(self).indexed() + chunk@.len() <= old(self).files().len(),
        ensures
            final(self).wf(),
            forall|i: int, t: Seq<char>|
                0 <= i < chunk@.len() && #[trigger] titles_of(chunk@[i].1@).contains(t)
                    ==> final(self).has_title_path(t, chunk@[i].0@),
            forall|t: Seq<char>, f: Seq<char>|
                old(self).has_title_path(t, f) ==> #[trigger] final(self).has_title_path(t, f),
            forall|t: Seq<char>, f: Seq<char>| #[trigger]
                final(self).has_title_path(t, f) ==> old(self).has_title_path(t, f) || exists|i: int|
                    0 <= i < chunk@.len() && chunk@[i].0@ == f && #[trigger] titles_of(
                        chunk@[i].1@,
                    ).contains(t),
            final(self).indexed() == old(self).indexed() + chunk@.len(),
            final(self).files() == old(self).files(),
            final(self).started() == old(self).started(),
            final(self).threads() == old(self).threads(),
            final(self).root() == old(self).root(),
    {
        let ghost start = *self;
        let n = chunk.len();
        let mut local: usize = 0;
        let mut i: usize = 0;
        while i < n
            invariant
                self.wf(),
                n == chunk@.len(),
                i <= n,
                local < 10,
                self.indexed() + local == start.indexed() + i,
                start.indexed() + n <= start.files().len(),
                forall|j: int, t: Seq<char>|
                    0 <= j < i && #[trigger] titles_of(chunk@[j].1@).contains(t)
                        ==> self.has_title_path(t, chunk@[j].0@),
                forall|t: Seq<char>, f: Seq<char>|
                    start.has_title_path(t, f) ==> #[trigger] self.has_title_path(t, f),
                forall|t: Seq<char>, f: Seq<char>| #[trigger]
                    self.has_title_path(t, f) ==> start.has_title_path(t, f) || exists|j: int|
                        0 <= j < i && chunk@[j].0@ == f && #[trigger] titles_of(
                            chunk@[j].1@,
                        ).contains(t),
                self.files() == start.files(),
                self.started() == start.started(),
                self.threads() == start.threads(),
                self.root() == start.root(),
            decreases n - i,
        {
            let ghost mid = *self;
            self.index_file(&chunk[i].0, chunk[i].1.as_str());
            assert forall|t: Seq<char>, f: Seq<char>| #[trigger]
                self.has_title_path(t, f) implies start.has_title_path(t, f) || exists|j: int|
                    0 <= j < i + 1 && chunk@[j].0@ == f && #[trigger] titles_of(
                        chunk@[j].1@,
                    ).contains(t) by {
                if !mid.has_title_path(t, f) {
                    assert(chunk@[i as int].0@ == f && titles_of(chunk@[i as int].1@).contains(t));
                }
            }
            assert forall|j: int, t: Seq<char>|
                0 <= j < i + 1 && #[trigger] titles_of(chunk@[j].1@).contains(t)
                    implies self.has_title_path(t, chunk@[j].0@) by {
                if j < i {
                    assert(mid.has_title_path(t, chunk@[j].0@));
                }
            }
            local = local + 1;
            if local == 10 {
                let ghost pre = *self;
                let total = self.markdown_paths.len();
                assert(self.progress_counter + 10 <= total);
                self.progress_counter = self.progress_counter + 10;
                local = 0;
                assert(self.keys() == pre.keys() && self.key_paths() == pre.key_paths());
                assert forall|t: Seq<char>, f: Seq<char>|
                    start.has_title_path(t, f) implies #[trigger] self.has_title_path(t, f) by {
                    assert(pre.has_title_path(t, f));
                }
                assert forall|j: int, t: Seq<char>|
                    0 <= j < i + 1 && #[trigger] titles_of(chunk@[j].1@).contains(t)
                        implies self.has_title_path(t, chunk@[j].0@) by {
                    assert(pre.has_title_path(t, chunk@[j].0@));
                }
                assert forall|t: Seq<char>, f: Seq<char>| #[trigger]
                    self.has_title_path(t, f) implies start.has_title_path(t, f) || exists|j: int|
                        0 <= j < i + 1 && chunk@[j].0@ == f && #[trigger] titles_of(
                            chunk@[j].1@,
                        ).contains(t) by {
                    assert(pre.has_title_path(t, f));
                }
            }
            i = i + 1;
        }
        let ghost before = *self;
        if local != 0 {
            let total = self.markdown_paths.len();
            assert(self.progress_counter + local <= total);
            self.progress_counter = self.progress_counter + local;
        }
        assert(self.keys() == before.keys() && self.key_paths() == before.key_paths());
        assert forall|t: Seq<char>, f: Seq<char>|
            start.has_title_path(t, f) implies #[trigger] self.has_title_path(t, f) by {
            assert(before.has_title_path(t, f));
        }
        assert forall|i: int, t: Seq<char>|
            0 <= i < chunk@.len() && #[trigger] titles_of(chunk@[i].1@).contains(t)
                implies self.has_title_path(t, chunk@[i].0@) by {
            assert(before.has_title_path(t, chunk@[i].0@));
        }
        assert forall|t: Seq<char>, f: Seq<char>| #[trigger]
            self.has_title_path(t, f) implies start.has_title_path(t, f) || exists|i: int|
                0 <= i < chunk@.len() && chunk@[i].0@ == f && #[trigger] titles_of(
                    chunk@[i].1@,
                ).contains(t) by {
            assert(before.has_title_path(t, f));
        }
    }

    /// Percentage of the files indexed, rounded up; 0 for an empty index.
    pub fn progress(&self) -> (r: Progress)
        requires
            self.wf(),
        ensures
            r.0 as nat == percent(self.indexed(), self.files().len()),
            r.0 <= 100,
            self.indexed() == 0 ==> r.0 == 0,
            self.files().len() > 0 && self.indexed() == self.files().len() ==> r.0 == 100,
    {
        let total = self.markdown_paths.len();
        if total == 0 {
            return Progress(0);
        }
        let c = self.progress_counter as u128;
        let t = total as u128;
        assert(c * 100 + t - 1 <= 101 * t) by (nonlinear_arith)
            requires c <= t, t > 0;
        let p = (c * 100 + t - 1) / t;
        proof {
            let ci = c as int;
            let ti = t as int;
            let pi = p as int;
            assert(pi == (ci * 100 + ti - 1) / ti);
            assert(pi <= 100) by (nonlinear_arith)
                requires pi == (ci * 100 + ti - 1) / ti, ci <= ti, ti > 0;
            if ci == 0 {
                assert((ti - 1) / ti == 0) by (nonlinear_arith)
                    requires ti > 0;
            }
            if ci == ti {
                assert((ti * 100 + ti - 1) / ti == 100) by (nonlinear_arith)
                    requires ti > 0;
            }
        }
        Progress(p as u8)
    }

    /// Number of distinct headings and of Markdown files in the index.
    pub fn stats(&self) -> (r: IndexStat)
        requires
            self.wf(),
        ensures
            r.headings_count == self.keys().len(),
            r.markdown_paths_count == self.files().len(),
    {
        IndexStat {
            headings_count: self.title_keys.len(),
            markdown_paths_count: self.markdown_paths.len(),
        }
    }

    /// The ranked results of a query whose scores are given: `title_scores[k]` for the
    /// `k`-th heading, `path_scores[i]` for the `i`-th file. Each heading that matches
    /// yields one result per file that holds it, with its score as priority; each path that
    /// matches yields one result without title, with its score raised by 30%. Every result
    /// is also sent on `sender` while the receiving side is there.
    pub fn rank_scored(
        &self,
        title_scores: &Vec<Option<u32>>,
        path_scores: &Vec<Option<u32>>,
        limit: u8,
        sender: Option<Sender<ResearchResult>>,
    ) -> (r: Vec<ResearchResult>)
        requires
            self.wf(),
            title_scores@.len() == self.keys().len(),
            path_scores@.len() == self.files().len(),
        ensures
            result_views(r@) == ranked(
                insert_all(
                    Seq::empty(),
                    title_matches(self.keys(), self.key_paths(), title_scores@) + path_matches(
                        self.files(),
                        path_scores@,
                    ),
                ),
                limit as nat,
            ),
    {
        let ghost target = insert_all(
            Seq::empty(),
            title_matches(self.keys(), self.key_paths(), title_scores@) + path_matches(
                self.files(),
                path_scores@,
            ),
        );
        let ghost pm = path_matches(self.files(), path_scores@);
        let mut results = OrderedResults::new(sender);
        let nk = self.title_keys.len();
        let mut k: usize = 0;
        assert(self.keys().skip(0) =~= self.keys());
        assert(self.key_paths().skip(0) =~= self.key_paths());
        assert(title_scores@.skip(0) =~= title_scores@);
        while k < nk
            invariant
                self.wf(),
                nk == self.title_keys@.len(),
                title_scores@.len() == nk,
                k <= nk,
                results.wf(),
                insert_all(
                    results@,
                    title_matches(
                        self.keys().skip(k as int),
                        self.key_paths().skip(k as int),
                        title_scores@.skip(k as int),
                    ) + pm,
                ) == target,
            decreases nk - k,
        {
            let ghost ks = self.keys().skip(k as int);
            let ghost ps = self.key_paths().skip(k as int);
            let ghost ss = title_scores@.skip(k as int);
            let ghost title = self.keys()[k as int];
            let ghost paths = self.key_paths()[k as int];
            let ghost score = title_scores@[k as int];
            let ghost next = title_matches(
                self.keys().skip(k + 1),
                self.key_paths().skip(k + 1),
                title_scores@.skip(k + 1),
            );
            assert(ks.drop_first() =~= self.keys().skip(k + 1));
            assert(ps.drop_first() =~= self.key_paths().skip(k + 1));
            assert(ss.drop_first() =~= title_scores@.skip(k + 1));
            assert(title_matches(ks, ps, ss) == heading_matches(title, paths, score) + next);
            match title_scores[k] {
                Some(score_v) => {
                    if score_v > MIN_SCORE {
                        let np = self.title_paths[k].len();
                        let mut j: usize = 0;
                        assert(paths.skip(0) =~= paths);
                        while j < np
                            invariant
                                self.wf(),
                                nk == self.title_keys@.len(),
                                k < nk,
                                np == self.title_paths@[k as int]@.len(),
                                paths == self.key_paths()[k as int],
                                title == self.keys()[k as int],
                                score == Some(score_v),
                                score_v > MIN_SCORE,
                                j <= np,
                                results.wf(),
                                insert_all(
                                    results@,
                                    heading_matches(title, paths.skip(j as int), score) + next + pm,
                                ) == target,
                            decreases np - j,
                        {
                            let r = ResearchResult {
                                path: self.title_paths[k][j].clone(),
                                title: Some(self.title_keys[k].clone()),
                                priority: score_v,
                            };
                            let ghost rest = heading_matches(title, paths.skip(j + 1), score) + next + pm;
                            assert(heading_matches(title, paths.skip(j as int), score) + next + pm
                                =~= seq![r@] + rest);
                            assert((seq![r@] + rest).drop_first() =~= rest);
                            results.push(r);
                            j = j + 1;
                        }
                        assert(heading_matches(title, paths.skip(np as int), score) =~= Seq::<ResultView>::empty());
                        assert(Seq::<ResultView>::empty() + next + pm =~= next + pm);
                    } else {
                        assert(heading_matches(title, paths, score) =~= Seq::<ResultView>::empty());
                    }
                },
                None => {
                    assert(heading_matches(title, paths, score) =~= Seq::<ResultView>::empty());
                },
            }
            assert(heading_matches(title, paths, score) + next + pm =~= heading_matches(title, paths, score) + (next + pm));
            k = k + 1;
        }
        assert(title_matches(
            self.keys().skip(nk as int),
            self.key_paths().skip(nk as int),
            title_scores@.skip(nk as int),
        ) =~= Seq::<ResultView>::empty());
        assert(Seq::<ResultView>::empty() + pm =~= pm);
        let nf = self.markdown_paths.len();
        let mut i: usize = 0;
        assert(self.files().skip(0) =~= self.files());
        assert(path_scores@.skip(0) =~= path_scores@);
        while i < nf
            invariant
                self.wf(),
                nf == self.markdown_paths@.len(),
                path_scores@.len() == nf,
                i <= nf,
                results.wf(),
                insert_all(results@, path_matches(self.files().skip(i as int), path_scores@.skip(i as int)))
                    == target,
            decreases nf - i,
        {
            let ghost fs = self.files().skip(i as int);
            let ghost ss = path_scores@.skip(i as int);
            let ghost rest = path_matches(self.files().skip(i + 1), path_scores@.skip(i + 1));
            assert(fs.drop_first() =~= self.files().skip(i + 1));
            assert(ss.drop_first() =~= path_scores@.skip(i + 1));
            match path_scores[i] {
                Some(score_v) => {
                    if score_v > MIN_SCORE {
                        let boosted = score_v as u64 * 13 / 10;
                        let priority: u32 = if boosted > u32::MAX as u64 {
                            u32::MAX
                        } else {
                            boosted as u32
                        };
                        let r = ResearchResult {
                            path: self.markdown_paths[i].clone(),
                            title: None,
                            priority,
                        };
                        assert(r@.path == fs[0]);
                        assert(path_matches(fs, ss) =~= seq![r@] + rest);
                        assert((seq![r@] + rest).drop_first() =~= rest);
                        results.push(r);
                    } else {
                        assert(path_matches(fs, ss) == rest);
                    }
                },
                None => {
                    assert(path_matches(fs, ss) == rest);
                },
            }
            i = i + 1;
        }
        assert(path_matches(self.files().skip(nf as int), path_scores@.skip(nf as int))
            =~= Seq::<ResultView>::empty());
        results.results(limit as usize)
    }

    /// Fuzzy query over the headings and the paths of the index: the query is lowercased,
    /// scored against each heading and each path, and the matches are ranked as
    /// `rank_scored` does.
    pub fn search(&self, raw: &str, limit: u8, sender: Option<Sender<ResearchResult>>) -> (r: Vec<
        ResearchResult,
    >)
        requires
            self.wf(),
        ensures
            result_views(r@) == ranked(
                insert_all(
                    Seq::empty(),
                    title_matches(
                        self.keys(),
                        self.key_paths(),
                        Seq::new(
                            self.keys().len(),
                            |k: int| fuzzy_score(lower_of(raw@), self.keys()[k], false),
                        ),
                    ) + path_matches(
                        self.files(),
                        Seq::new(
                            self.files().len(),
                            |i: int| fuzzy_score(lower_of(raw@), self.files()[i], true),
                        ),
                    ),
                ),
                limit as nat,
            ),
    {
        let query = lowercase(raw);
        let nk = self.title_keys.len();
        let mut title_scores: Vec<Option<u32>> = Vec::new();
        let mut k: usize = 0;
        while k < nk
            invariant
                nk == self.title_keys@.len(),
                k <= nk,
                query@ == lower_of(raw@),
                title_scores@.len() == k,
                forall|j: int| 0 <= j < k ==> title_scores@[j] == fuzzy_score(
                    lower_of(raw@),
                    #[trigger] self.keys()[j],
                    false,
                ),
            decreases nk - k,
        {
            title_scores.push(score_text(query.as_str(), self.title_keys[k].as_str(), false));
            k = k + 1;
        }
        let nf = self.markdown_paths.len();
        let mut path_scores: Vec<Option<u32>> = Vec::new();
        let mut i: usize = 0;
        while i < nf
            invariant
                nf == self.markdown_paths@.len(),
                i <= nf,
                query@ == lower_of(raw@),
                path_scores@.len() == i,
                forall|j: int| 0 <= j < i ==> path_scores@[j] == fuzzy_score(
                    lower_of(raw@),
                    #[trigger] self.files()[j],
                    true,
                ),
            decreases nf - i,
        {
            path_scores.push(score_text(query.as_str(), self.markdown_paths[i].as_str(), true));
            i = i + 1;
        }
        assert(title_scores@ =~= Seq::new(
            self.keys().len(),
            |k: int| fuzzy_score(lower_of(raw@), self.keys()[k], false),
        ));
        assert(path_scores@ =~= Seq::new(
            self.files().len(),
            |i: int| fuzzy_score(lower_of(raw@), self.files()[i], true),
        ));
        self.rank_scored(&title_scores, &path_scores, limit, sender)
    }

    /// The number of files that each worker takes: the files shared out evenly, rounded
    /// up, and 1 when there are fewer files than workers.
    pub fn chunk_size(&self) -> (r: usize)
        requires
            self.wf(),
        ensures
            r == chunk_size_of(self.files().len(), self.threads() as nat),
            r >= 1,
    {
        let n = self.markdown_paths.len();
        let t = self.max_nb_threads;
        if n < t {
            1
        } else {
            let q = n / t;
            proof {
                if n % t != 0 {
                    assert(t >= 2);
                    assert(q <= n / 2) by (nonlinear_arith)
                        requires q == n / t, t >= 2;
                }
            }
            let r = if n % t == 0 { q } else { q + 1 };
            proof {
                assert(n as int == t * q + n % t) by (nonlinear_arith)
                    requires q == n / t, t > 0;
                assert(q >= 1) by (nonlinear_arith)
                    requires q == n / t, n >= t, t > 0;
                let ni = n as int;
                let ti = t as int;
                if n % t == 0 {
                    assert((ni + ti - 1) / ti == q) by (nonlinear_arith)
                        requires ni == ti * q, ti > 0;
                } else {
                    assert((ni + ti - 1) / ti == q + 1) by (nonlinear_arith)
                        requires ni == ti * q + (ni % ti), 0 < ni % ti < ti, ti > 0;
                }
            }
            r
        }
    }

    /// The files shared out to the workers: consecutive runs of `chunk_size` files, the
    /// last one possibly shorter, together the whole list in order.
    pub fn chunks(&self) -> (r: Vec<Vec<String>>)
        requires
            self.wf(),
        ensures
            concat_all(Seq::new(r@.len(), |k: int| views(r@[k]@))) == self.files(),
            forall|k: int|
                0 <= k < r@.len() ==> 1 <= #[trigger] r@[k]@.len() <= chunk_size_of(
                    self.files().len(),
                    self.threads() as nat,
                ),
            forall|k: int|
                0 <= k < r@.len() - 1 ==> #[trigger] r@[k]@.len() == chunk_size_of(
                    self.files().len(),
                    self.threads() as nat,
                ),
    {
        let size = self.chunk_size();
        let n = self.markdown_paths.len();
        let mut out: Vec<Vec<String>> = Vec::new();
        let mut i: usize = 0;
        while i < n
            invariant
                n == self.markdown_paths@.len(),
                size >= 1,
                size == chunk_size_of(self.files().len(), self.threads() as nat),
                i <= n,
                concat_all(Seq::new(out@.len(), |k: int| views(out@[k]@))) == self.files().take(i as int),
                forall|k: int| 0 <= k < out@.len() ==> 1 <= #[trigger] out@[k]@.len() <= size,
                forall|k: int| 0 <= k < out@.len() - 1 ==> #[trigger] out@[k]@.len() == size,
                out@.len() > 0 && i < n ==> out@[out@.len() - 1]@.len() == size,
            decreases n - i,
        {
            let end = if n - i < size { n } else { i + size };
            let mut c: Vec<String> = Vec::new();
            let mut j = i;
            while j < end
                invariant
                    n == self.markdown_paths@.len(),
                    i <= j <= end <= n,
                    views(c@) == self.files().subrange(i as int, j as int),
                decreases end - j,
            {
                let ghost old_c = views(c@);
                let item = self.markdown_paths[j].clone();
                assert(item@ == self.files()[j as int]);
                c.push(item);
                assert(views(c@) =~= old_c.push(item@));
                assert(views(c@) =~= self.files().subrange(i as int, j + 1));
                j = j + 1;
            }
            let ghost before = Seq::new(out@.len(), |k: int| views(out@[k]@));
            let ghost cv = views(c@);
            out.push(c);
            proof {
                let after = Seq::new(out@.len(), |k: int| views(out@[k]@));
                assert(after =~= before.push(cv));
                assert(after.drop_last() =~= before);
                assert(self.files().take(end as int) =~= self.files().take(i as int) + cv);
            }
            i = end;
        }
        assert(self.files().take(n as int) =~= self.files());
        out
    }
}

/// Something that can be searched quickly: the index of a folder here, other sources
/// (a remote repository, an archive) elsewhere.
pub trait Researcher {
    /// Whether the value is in a usable state.
    spec fn ready(&self) -> bool;

    /// Starts indexing the given files.
    fn start(&mut self, paths: Vec<String>)
        requires
            old(self).ready(),
        ensures
            final(self).ready(),
    ;

    /// How far indexing has gone, in percent.
    fn progress(&self) -> Progress
        requires
            self.ready(),
    ;

    /// The ranked matches of a query, also sent on `sender` as they are found.
    fn search(&self, raw: &str, limit: u8, sender: Option<Sender<ResearchResult>>) -> Vec<
        ResearchResult,
    >
        requires
            self.ready(),
    ;

    fn stats(&self) -> IndexStat
        requires
            self.ready(),
    ;
}

impl Researcher for DiskResearcher {
    open spec fn ready(&self) -> bool {
        self.wf()
    }

    fn start(&mut self, paths: Vec<String>) {
        DiskResearcher::start(self, paths)
    }

    fn progress(&self) -> Progress {
        DiskResearcher::progress(self)
    }

    fn search(&self, raw: &str, limit: u8, sender: Option<Sender<ResearchResult>>) -> Vec<
        ResearchResult,
    > {
        DiskResearcher::search(self, raw, limit, sender)
    }

    fn stats(&self) -> IndexStat {
        DiskResearcher::stats(self)
    }
}

} // verus!
