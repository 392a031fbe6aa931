use devfolio_cli_rust::generate::{
    normalize_options, score_repos, select_repos, tally_languages, Options, RunError,
};
use devfolio_cli_rust::model::Repo;

fn repo(name: &str, stars: u32, lang: &str) -> Repo {
    Repo {
        name: name.into(),
        language: lang.into(),
        stargazers_count: stars,
        ..Default::default()
    }
}

#[test]
fn normalize_fills_defaults() {
    let o = normalize_options(Options {
        login: "octocat".into(),
        out_dir: String::new(),
        max_repos: 0,
        skip_readme: true,
    })
    .unwrap();
    assert_eq!(o.login, "octocat");
    assert_eq!(o.out_dir, "devfolio-out");
    assert_eq!(o.max_repos, 12);
    assert!(o.skip_readme);
    let o = normalize_options(Options {
        login: "x".into(),
        out_dir: "out".into(),
        max_repos: 5,
        skip_readme: false,
    })
    .unwrap();
    assert_eq!(o.out_dir, "out");
    assert_eq!(o.max_repos, 5);
}

#[test]
fn normalize_refuses_empty_login() {
    let r = normalize_options(Options {
        login: String::new(),
        out_dir: "out".into(),
        max_repos: 3,
        skip_readme: false,
    });
    assert!(matches!(r, Err(RunError::MissingLogin)));
}

#[test]
fn normalize_is_idempotent() {
    let once = normalize_options(Options {
        login: "a".into(),
        out_dir: String::new(),
        max_repos: 0,
        skip_readme: false,
    })
    .unwrap();
    let twice = normalize_options(Options {
        login: once.login.clone(),
        out_dir: once.out_dir.clone(),
        max_repos: once.max_repos,
        skip_readme: once.skip_readme,
    })
    .unwrap();
    assert_eq!(once.out_dir, twice.out_dir);
    assert_eq!(once.max_repos, twice.max_repos);
}

#[test]
fn selection_orders_by_stars_then_name() {
    let repos = vec![
        repo("b", 1, ""),
        repo("zeta", 10, ""),
        repo("a", 1, ""),
        repo("alpha", 10, ""),
        repo("Beta", 1, ""),
    ];
    let out = select_repos(repos, 12);
    let names: Vec<&str> = out.iter().map(|r| r.name.as_str()).collect();
    assert_eq!(names, vec!["alpha", "zeta", "Beta", "a", "b"]);
}

#[test]
fn selection_truncates_to_limit() {
    let repos = vec![repo("a", 1, ""), repo("b", 5, ""), repo("c", 3, ""), repo("d", 4, "")];
    let out = select_repos(repos, 2);
    let names: Vec<&str> = out.iter().map(|r| r.name.as_str()).collect();
    assert_eq!(names, vec!["b", "d"]);
    assert_eq!(select_repos(Vec::new(), 3).len(), 0);
}

#[test]
fn selection_is_stable_for_full_ties() {
    let mut first = repo("same", 2, "");
    first.description = "first".into();
    let mut second = repo("same", 2, "");
    second.description = "second".into();
    let out = select_repos(vec![first, repo("top", 9, ""), second], 12);
    assert_eq!(out[0].name, "top");
    assert_eq!(out[1].description, "first");
    assert_eq!(out[2].description, "second");
}

#[test]
fn names_compare_by_code_point() {
    let out = select_repos(vec![repo("é", 0, ""), repo("z", 0, ""), repo("ab", 0, ""), repo("a", 0, "")], 12);
    let names: Vec<&str> = out.iter().map(|r| r.name.as_str()).collect();
    assert_eq!(names, vec!["a", "ab", "z", "é"]);
}

#[test]
fn languages_are_counted_and_ordered() {
    let repos = vec![
        repo("a", 0, "Rust"),
        repo("b", 0, "Go"),
        repo("c", 0, ""),
        repo("d", 0, "Rust"),
        repo("e", 0, "C"),
        repo("f", 0, "Go"),
        repo("g", 0, "Zig"),
    ];
    let langs = tally_languages(&repos);
    let got: Vec<(&str, u32)> = langs.iter().map(|(l, n)| (l.as_str(), *n)).collect();
    assert_eq!(got, vec![("Go", 2), ("Rust", 2), ("C", 1), ("Zig", 1)]);
    let total: u32 = langs.iter().map(|(_, n)| *n).sum();
    assert_eq!(total, 6);
    assert!(tally_languages(&vec![repo("x", 0, "")]).is_empty());
}

#[test]
fn scoring_keeps_order_and_fields() {
    let mut a = repo("a", 4, "Rust");
    a.readme = "# Title\n".into();
    let b = repo("b", 2, "");
    let out = score_repos(vec![a, b]);
    assert_eq!(out.len(), 2);
    assert_eq!(out[0].name, "a");
    assert_eq!(out[0].stargazers_count, 4);
    assert_eq!(out[0].readme, "# Title\n");
    assert_eq!(out[0].score.total, 20);
    assert_eq!(out[0].score.max, 100);
    assert_eq!(out[1].score.total, 0);
    assert_eq!(out[1].score.grade, "F");
}
