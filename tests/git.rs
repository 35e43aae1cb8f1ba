use mdsearch::git::GitRepos;

#[test]
fn test_extract_repos_name_from_https_url() {
    assert_eq!(
        GitRepos::validate_and_extract_repos_name_from_https_url(
            "https://codeberg.org/samuelroland/productivity"
        )
        .unwrap(),
        "productivity".to_string()
    );
    assert_eq!(
        GitRepos::validate_and_extract_repos_name_from_https_url(
            "https://github.com/tree-sitter/tree-sitter-rust.git"
        )
        .unwrap(),
        "tree-sitter-rust".to_string()
    );
    assert!(GitRepos::validate_and_extract_repos_name_from_https_url(
        "git@github.com:samuelroland/cloneme.git" // valid url but not https form
    )
    .is_err());
    assert!(GitRepos::validate_and_extract_repos_name_from_https_url(
        "https://github.com/tree-sitter"
    )
    .is_err());
    assert!(GitRepos::validate_and_extract_repos_name_from_https_url("blabl").is_err());
    assert!(GitRepos::validate_and_extract_repos_name_from_https_url(
        "https://github.com/tree-sitter/tree-sitter-rust.git$243536"
    )
    .is_err());
}

#[test]
fn url_case_is_ignored_and_hosts_need_a_dot() {
    assert_eq!(
        GitRepos::validate_and_extract_repos_name_from_https_url("HTTPS://GitHub.com/Owner/Repo.GIT")
            .unwrap(),
        "Repo"
    );
    assert!(GitRepos::validate_and_extract_repos_name_from_https_url("https://localhost/a/b").is_err());
    assert!(GitRepos::validate_and_extract_repos_name_from_https_url("https://a..b/o/r").is_err());
    assert!(GitRepos::validate_and_extract_repos_name_from_https_url("https://a.b/o/r/x").is_err());
    assert_eq!(
        GitRepos::validate_and_extract_repos_name_from_https_url("https://a.b/o/.git").unwrap(),
        ".git"
    );
    assert_eq!(
        GitRepos::validate_and_extract_repos_name_from_https_url("https://a.b/o/x.git.git").unwrap(),
        "x.git"
    );
}

#[test]
fn test_from_clone_with_invalid_link() {
    assert!(GitRepos::from_clone("not a valid URL", &"target/tests".to_string(), true).is_err());
}

#[test]
fn from_clone_names_the_folder_after_the_repository() {
    let repos = GitRepos::from_clone(
        "https://github.com/samuelroland/cloneme.git",
        &"base".to_string(),
        true,
    )
    .unwrap();
    assert_eq!(repos.path(), "base/cloneme");
    let repos = GitRepos::from_clone("https://a.b/o/r", &"base/".to_string(), true).unwrap();
    assert_eq!(repos.path(), "base/r");
    assert!(GitRepos::from_clone("https://a.b/o/r", &"base".to_string(), false).is_err());
}

#[test]
fn test_from_existing_folder_with_local_normal_folder_fails() {
    assert!(GitRepos::from_existing_folder(&"target".to_string(), true, false).is_err());
    assert!(GitRepos::from_existing_folder(&"nowhere".to_string(), false, false).is_err());
    let repos = GitRepos::from_existing_folder(&"repo".to_string(), true, true).unwrap();
    assert_eq!(repos.path(), "repo");
}

#[test]
fn clone_arguments() {
    assert_eq!(
        GitRepos::clone_args("https://a.b/o/r", Some(12), true),
        vec!["clone", "https://a.b/o/r", "--depth", "12", "--single-branch"]
    );
    assert_eq!(GitRepos::clone_args("u", None, false), vec!["clone", "u"]);
}

#[test]
fn pull_reports_changes() {
    let repos = GitRepos::from_existing_folder(&"repo".to_string(), true, true).unwrap();
    assert_eq!(repos.pull(true, &"abc".to_string(), &"abc".to_string()), Ok(false));
    assert_eq!(repos.pull(true, &"abc".to_string(), &"def".to_string()), Ok(true));
    assert!(repos.pull(false, &"abc".to_string(), &"def".to_string()).is_err());
}
