use devfolio_cli_rust::github::{
    bearer, is_success, pick_token, readme_path, readme_reply, repos_from_api, repos_path,
    request_url, user_from_api, user_path, ApiRepo, ApiUser, ReadmeReply, API_BASE_URL,
};

fn api_repo(name: &str, fork: bool) -> ApiRepo {
    ApiRepo {
        name: name.into(),
        full_name: format!("octocat/{name}"),
        description: None,
        html_url: format!("https://github.com/octocat/{name}"),
        language: None,
        stargazers_count: 0,
        forks_count: 0,
        fork,
        archived: false,
        topics: Vec::new(),
        default_branch: None,
    }
}

#[test]
fn user_record_fills_missing_text() {
    let u = user_from_api(ApiUser {
        login: "octocat".into(),
        name: Some("The Octocat".into()),
        bio: None,
        company: None,
        blog: Some("https://github.blog".into()),
        location: None,
        avatar_url: Some("https://x/a.png".into()),
        html_url: None,
        public_repos: 2,
        followers: 1,
        following: 3,
    });
    assert_eq!(u.login, "octocat");
    assert_eq!(u.name, "The Octocat");
    assert_eq!(u.bio, "");
    assert_eq!(u.blog, "https://github.blog");
    assert_eq!(u.html_url, "");
    assert_eq!((u.public_repos, u.followers, u.following), (2, 1, 3));
}

#[test]
fn forks_are_left_out_and_defaults_filled() {
    let mut full = api_repo("Hello-World", false);
    full.description = Some("demo".into());
    full.language = Some("Rust".into());
    full.stargazers_count = 10;
    full.topics = vec!["demo".into()];
    full.default_branch = Some("trunk".into());
    let raw = vec![full, api_repo("forked", true), api_repo("second", false)];
    let out = repos_from_api(raw);
    assert_eq!(out.len(), 2);
    assert_eq!(out[0].name, "Hello-World");
    assert_eq!(out[0].description, "demo");
    assert_eq!(out[0].language, "Rust");
    assert_eq!(out[0].stargazers_count, 10);
    assert_eq!(out[0].topics, vec!["demo".to_string()]);
    assert_eq!(out[0].default_branch, "trunk");
    assert_eq!(out[0].readme, "");
    assert_eq!(out[0].score.max, 0);
    assert_eq!(out[1].name, "second");
    assert_eq!(out[1].description, "");
    assert_eq!(out[1].default_branch, "main");
    assert!(!out[1].fork);
}

#[test]
fn request_paths() {
    assert_eq!(user_path("octocat"), "/users/octocat");
    assert_eq!(
        repos_path("octocat"),
        "/users/octocat/repos?per_page=100&sort=updated&type=owner"
    );
    assert_eq!(readme_path("octocat", "Hello-World"), "/repos/octocat/Hello-World/readme");
    assert_eq!(
        request_url(API_BASE_URL, "/users/octocat"),
        "https://api.github.com/users/octocat"
    );
    assert_eq!(bearer("abc"), "Bearer abc");
}

#[test]
fn token_choice() {
    assert_eq!(pick_token(Some("a".into()), Some("b".into())), Some("a".to_string()));
    assert_eq!(pick_token(None, Some("b".into())), Some("b".to_string()));
    assert_eq!(pick_token(None, None), None);
}

#[test]
fn status_handling() {
    assert!(is_success(200));
    assert!(is_success(299));
    assert!(!is_success(199));
    assert!(!is_success(300));
    assert_eq!(readme_reply(404), ReadmeReply::Missing);
    assert_eq!(readme_reply(200), ReadmeReply::Body);
    assert_eq!(readme_reply(204), ReadmeReply::Body);
    assert_eq!(readme_reply(403), ReadmeReply::Failed);
    assert_eq!(readme_reply(500), ReadmeReply::Failed);
    assert_eq!(readme_reply(301), ReadmeReply::Failed);
}
