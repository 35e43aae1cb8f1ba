use mdsearch::disk::DiskResearcher;
use mdsearch::headings::extract_markdown_titles;
use mdsearch::results::{OrderedResults, Progress, ResearchResult};

fn s(x: &str) -> String {
    x.to_string()
}

/// A small tree of Markdown files, held in memory: (path, content).
fn tree() -> Vec<(String, String)> {
    vec![
        (s("test/depth1/hello.md"), s("some text without heading\n")),
        (s("test/depth1/test4.md"), s("# Hello\nworld\n")),
        (s("test/depth2/test.md"), s("# Introduction\n## Usage\n")),
    ]
}

fn indexed(threads: usize) -> DiskResearcher {
    let files = tree();
    let mut search = DiskResearcher::new(s("test"));
    search.set_max_nb_threads(threads).unwrap();
    search.start(files.iter().map(|f| f.0.clone()).collect());
    for chunk in search.chunks() {
        let work: Vec<(String, String)> = files
            .iter()
            .filter(|f| chunk.contains(&f.0))
            .cloned()
            .collect();
        search.index_chunk(work);
    }
    search
}

#[test]
fn test_that_progress_is_zero_at_start() {
    let search = DiskResearcher::new("test".parse().unwrap());
    assert_eq!(search.progress(), Progress(0));
}

#[test]
fn test_heading_extractions() {
    let content = "
# heyo  
some content ** ## yoo 
## oups \t
```bash
# super comment
echo saasdf
```

### 4. Open a pull request with your example

# aa";

    assert_eq!(
        extract_markdown_titles(content),
        vec![
            "heyo",
            "oups",
            "4. Open a pull request with your example",
            "aa"
        ]
    );
}

#[test]
fn heading_extraction_of_empty_text_is_empty() {
    assert!(extract_markdown_titles("").is_empty());
}

#[test]
fn tilde_fences_hide_headings_and_hash_without_space_is_no_heading() {
    let content = "~~~\n# hidden\n~~~\n#nospace\n##   spaced out   \n";
    assert_eq!(extract_markdown_titles(content), vec!["spaced out"]);
}

#[test]
fn crlf_lines_are_trimmed() {
    assert_eq!(extract_markdown_titles("# one\r\n# two\r\n"), vec!["one", "two"]);
}

#[test]
fn test_that_progress_is_one_hundred_at_end() {
    let search = indexed(2);
    assert_eq!(search.progress(), Progress(100));
}

#[test]
fn progress_rounds_up_and_counts_by_chunk() {
    let mut search = DiskResearcher::new(s("x"));
    search.start(vec![s("a.md"), s("b.md"), s("c.md")]);
    search.index_chunk(vec![(s("a.md"), s("# A\n"))]);
    assert_eq!(search.progress(), Progress(34));
}

#[test]
fn empty_index_has_progress_zero_and_no_results() {
    let mut search = DiskResearcher::new(s("test/depth2/depth3/depth4/"));
    search.start(vec![]);
    assert_eq!(search.progress(), Progress(0));
    assert_eq!(search.search("hello", 10, None).len(), 0);
}

#[test]
fn thread_count_rules() {
    let mut search = DiskResearcher::new(s("test"));
    assert!(search.set_max_nb_threads(0).is_err());
    assert!(search.set_max_nb_threads(3).is_ok());
    assert_eq!(search.max_nb_threads(), 3);
    search.start(vec![]);
    assert!(search.set_max_nb_threads(2).is_err());
    assert_eq!(search.max_nb_threads(), 3);
}

#[test]
fn chunks_cover_the_files_in_order() {
    let mut search = DiskResearcher::new(s("x"));
    search.set_max_nb_threads(2).unwrap();
    let files: Vec<String> = (0..5).map(|i| format!("f{i}.md")).collect();
    search.start(files.clone());
    let chunks = search.chunks();
    assert_eq!(chunks.len(), 2);
    assert_eq!(chunks[0].len(), 3);
    assert_eq!(chunks.concat(), files);
}

#[test]
fn every_heading_lists_its_files() {
    let search = indexed(1);
    let stats = search.stats();
    assert_eq!(stats.markdown_paths_count, 3);
    assert_eq!(stats.headings_count, 3);
}

#[test]
fn test_mixed_search() {
    let search = indexed(2);
    let results = search.search("hello", 10, None);
    assert_eq!(results.len(), 2);
    assert_eq!(results[0].path, "test/depth1/hello.md");
    assert_eq!(results[0].title, None);
    assert_eq!(results[1].path, "test/depth1/test4.md");
    assert_eq!(results[1].title, Some(s("Hello")));
    assert!(results[0].priority > results[1].priority);
}

#[test]
fn search_lowercases_the_query() {
    let search = indexed(2);
    let lower = search.search("hello", 10, None);
    let upper = search.search("HELLO", 10, None);
    assert_eq!(lower, upper);
}

#[test]
fn test_that_limit_works() {
    let search = indexed(2);
    let results = search.search("hello", 1, None);
    assert_eq!(results.len(), 1);
}

#[test]
fn test_priority_is_respected() {
    let search = indexed(2);
    let results = search.search("t", 100, None);
    assert!(!results.is_empty());
    assert!(results.windows(2).all(|w| w[0].priority >= w[1].priority));
    let top = results[0].priority;
    assert!(results.iter().all(|r| r.priority >= top - top / 4));
}

#[test]
fn streamed_results_reach_the_channel() {
    let search = indexed(2);
    let (tx, rx) = std::sync::mpsc::channel();
    let results = search.search("hello", 10, Some(tx));
    let streamed: Vec<ResearchResult> = rx.iter().collect();
    assert_eq!(streamed.len(), results.len());
}

#[test]
fn closed_channel_keeps_results() {
    let search = indexed(2);
    let (tx, rx) = std::sync::mpsc::channel();
    drop(rx);
    let results = search.search("hello", 10, Some(tx));
    assert_eq!(results.len(), 2);
}

fn r(path: &str, priority: u32) -> ResearchResult {
    ResearchResult { path: s(path), title: None, priority }
}

#[test]
fn ordered_results_keep_insertion_order_for_ties_and_trim_the_tail() {
    let mut o = OrderedResults::new(None);
    o.push(r("a", 126));
    o.push(r("b", 663));
    o.push(r("c", 523));
    o.push(r("d", 663));
    o.push(r("e", 234));
    assert_eq!(o.len(), 5);
    let out = o.results(10);
    let paths: Vec<&str> = out.iter().map(|x| x.path.as_str()).collect();
    // 663 - 663/4 = 498: 234 and 126 are cut
    assert_eq!(paths, vec!["b", "d", "c"]);
    let out = o.results(1);
    assert_eq!(out.len(), 1);
    assert_eq!(out[0].path, "b");
    assert!(o.results(0).is_empty());
}

#[test]
fn path_scores_get_a_thirty_percent_boost() {
    let mut search = DiskResearcher::new(s("x"));
    search.start(vec![s("a.md")]);
    let out = search.rank_scored(&vec![], &vec![Some(100)], 10, None);
    assert_eq!(out.len(), 1);
    assert_eq!(out[0].priority, 130);
    let out = search.rank_scored(&vec![], &vec![Some(10)], 10, None);
    assert!(out.is_empty());
    let out = search.rank_scored(&vec![], &vec![Some(u32::MAX)], 10, None);
    assert_eq!(out[0].priority, u32::MAX);
}
