use devfolio_cli_rust::emit::{render_index, render_scorecard_html, render_scorecard_md};
use devfolio_cli_rust::model::{CheckResult, Portfolio, ReadmeScore, Repo, User};

fn sample() -> Portfolio {
    Portfolio {
        user: User {
            login: "octocat".into(),
            name: "The <Octo> & cat".into(),
            bio: "GitHub mascot".into(),
            avatar_url: "https://example.com/a.png".into(),
            html_url: "https://github.com/octocat".into(),
            public_repos: 8,
            followers: 1234,
            ..Default::default()
        },
        repos: vec![Repo {
            name: "Hello-World".into(),
            description: "demo".into(),
            html_url: "https://github.com/octocat/Hello-World".into(),
            language: "Rust".into(),
            stargazers_count: 3,
            score: ReadmeScore {
                total: 50,
                max: 100,
                grade: "D".into(),
                summary: "Improve: install".into(),
                checks: vec![CheckResult {
                    id: "install".into(),
                    label: "Install".into(),
                    passed: false,
                    weight: 20,
                    detail: "missing".into(),
                }],
            },
            ..Default::default()
        }],
        languages: vec![("Rust".into(), 1)],
        generated_at_utc: "2026-08-02T00:00:00Z".into(),
    }
}

#[test]
fn index_page_matches_template() {
    let p = sample();
    let card = "\n      <article class=\"card\">\n        <h3><a href=\"https://github.com/octocat/Hello-World\">Hello-World</a></h3>\n        <p class=\"muted\">demo</p>\n        <p class=\"meta\">★ 3 · Rust · README D (50/100)</p>\n      </article>";
    let expected = format!(
        r#"<!doctype html>
<html lang="en">
<head>
  <meta charset="utf-8"/>
  <meta name="viewport" content="width=device-width, initial-scale=1"/>
  <title>{title} · Devfolio</title>
  <link rel="stylesheet" href="styles.css"/>
</head>
<body>
  <header class="hero">
    <img class="avatar" src="{avatar}" alt="avatar"/>
    <div>
      <p class="eyebrow">devfolio-cli-rust</p>
      <h1>{title}</h1>
      <p class="bio">{bio}</p>
      <p class="meta"><a href="{html_url}">@{login}</a> · {repos_n} public repos · {followers} followers · avg README {avg}/100</p>
    </div>
  </header>
  <main>
    <section>
      <h2>Languages</h2>
      <ul class="langs">{langs}</ul>
    </section>
    <section>
      <h2>Repositories</h2>
      <div class="grid">{repo_cards}</div>
    </section>
    <p class="footer"><a href="scorecard.html">Open README scorecard</a> · generated {when} UTC</p>
  </main>
</body>
</html>
"#,
        title = "The &lt;Octo&gt; &amp; cat",
        avatar = "https://example.com/a.png",
        bio = "GitHub mascot",
        html_url = "https://github.com/octocat",
        login = "octocat",
        repos_n = 8,
        followers = 1234,
        avg = "50",
        langs = "<li><span>Rust</span><span>1</span></li>",
        repo_cards = card,
        when = "2026-08-02T00:00:00Z",
    );
    assert_eq!(render_index(&p, "50"), expected);
}

#[test]
fn index_falls_back_to_login_and_na() {
    let mut p = sample();
    p.user.name = String::new();
    p.languages.clear();
    p.repos[0].language = String::new();
    let out = render_index(&p, "0");
    assert!(out.contains("<title>octocat · Devfolio</title>"));
    assert!(out.contains("<h1>octocat</h1>"));
    assert!(out.contains("<ul class=\"langs\"><li><span>n/a</span><span>0</span></li></ul>"));
    assert!(out.contains("★ 3 · n/a · README D (50/100)"));
}

#[test]
fn scorecard_html_matches_template() {
    let p = sample();
    let expected = "<!doctype html>\n<html lang=\"en\"><head><meta charset=\"utf-8\"/><title>Scorecard · octocat</title><link rel=\"stylesheet\" href=\"styles.css\"/></head>\n<body><main><p><a href=\"index.html\">← Portfolio</a></p><h1>README scorecard</h1><p class=\"muted\">@octocat · avg 50/100</p><h3>Hello-World — D (50/100)</h3><ul><li><strong>FAIL</strong> [install] Install — missing</li></ul></main></body></html>";
    assert_eq!(render_scorecard_html(&p, "50"), expected);
}

#[test]
fn scorecard_markdown_matches_template() {
    let p = sample();
    let expected = "# README scorecard — @octocat\n\nAverage score: **50.0 / 100** · generated 2026-08-02T00:00:00Z UTC\n\n## Hello-World — grade D (50/100)\n\nImprove: install\n\n| Check | Result | Weight | Detail |\n|---|---|---:|---|\n| Install | FAIL | 20 | missing |\n\n";
    assert_eq!(render_scorecard_md(&p, "50.0"), expected);
}

#[test]
fn escaping_applies_to_repo_text() {
    let mut p = sample();
    p.repos[0].name = "a<b>&c".into();
    p.repos[0].score.checks[0].passed = true;
    p.repos[0].score.checks[0].detail = "ok".into();
    let html = render_scorecard_html(&p, "7");
    assert!(html.contains("<h3>a&lt;b&gt;&amp;c — D (50/100)</h3>"));
    assert!(html.contains("<li><strong>PASS</strong> [install] Install — ok</li>"));
    let md = render_scorecard_md(&p, "7.0");
    assert!(md.contains("## a<b>&c — grade D (50/100)"));
    assert!(md.contains("| Install | PASS | 20 | ok |"));
}

#[test]
fn numbers_are_written_in_decimal() {
    let mut p = sample();
    p.user.public_repos = 0;
    p.user.followers = u32::MAX;
    p.repos[0].stargazers_count = 1000000;
    let out = render_index(&p, "0");
    assert!(out.contains("· 0 public repos · 4294967295 followers ·"));
    assert!(out.contains("★ 1000000 ·"));
}

#[test]
fn fields_add_no_tags_to_the_index() {
    let plain = sample();
    let mut hostile = sample();
    hostile.user.name = "<script>x</script>".into();
    hostile.user.bio = "<b>bold</b>".into();
    hostile.repos[0].name = "<script>x</script>".into();
    hostile.repos[0].description = "<img src=x>".into();
    hostile.languages[0].0 = "<i>".into();
    hostile.generated_at_utc = "<".into();
    let a = render_index(&plain, "50");
    let b = render_index(&hostile, "50");
    assert_eq!(a.matches('<').count(), b.matches('<').count());
    assert!(!b.contains("<script"));
    assert!(b.contains("&lt;script&gt;x&lt;/script&gt;"));
}
