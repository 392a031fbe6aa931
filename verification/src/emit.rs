use vstd::prelude::*;

use crate::model::{CheckResult, Portfolio, Repo, User};
use crate::text::{decimal, u32_text};

verus! {

/// How `html_escape::encode_text` writes one character: `&`, `<` and `>` become entities.
pub open spec fn escape_char(c: char) -> Seq<char> {
    if c == '&' {
        "&amp;"@
    } else if c == '<' {
        "&lt;"@
    } else if c == '>' {
        "&gt;"@
    } else {
        seq![c]
    }
}

/// Text made safe to stand between HTML tags, character by character.
pub open spec fn escaped(s: Seq<char>) -> Seq<char>
    decreases s.len(),
{
    if s.len() == 0 {
        Seq::empty()
    } else {
        escaped(s.drop_last()) + escape_char(s.last())
    }
}

/// Calls `html_escape::encode_text`, which (by its documentation and source) replaces each
/// `&`, `<` and `>` by `&amp;`, `&lt;` and `&gt;` and keeps every other character.
#[verifier::external_body]
fn escape_text(s: &str) -> (r: String)
    ensures
        r@ == escaped(s@),
{
    html_escape::encode_text(s).into_owned()
}

/// The pieces `f` gives for the items of `s`, one after another.
pub open spec fn concat_map<T>(s: Seq<T>, f: spec_fn(T) -> Seq<char>) -> Seq<char>
    decreases s.len(),
{
    if s.len() == 0 {
        Seq::empty()
    } else {
        concat_map(s.drop_last(), f) + f(s.last())
    }
}

pub proof fn lemma_concat_map_step<T>(s: Seq<T>, f: spec_fn(T) -> Seq<char>, i: int)
    requires
        0 <= i < s.len(),
    ensures
        concat_map(s.take(i + 1), f) == concat_map(s.take(i), f) + f(s[i]),
{
    assert(s.take(i + 1).drop_last() =~= s.take(i));
}

/// The name the portfolio goes by: the account's display name, else its login.
pub open spec fn display_name(u: User) -> Seq<char> {
    if u.name@.len() == 0 {
        u.login@
    } else {
        u.name@
    }
}

/// The language a card shows: the repository's, else `n/a`.
pub open spec fn lang_label(r: Repo) -> Seq<char> {
    if r.language@.len() == 0 {
        "n/a"@
    } else {
        r.language@
    }
}

/// A repository's card on the portfolio page.
pub open spec fn repo_card(r: Repo) -> Seq<char> {
    "\n      <article class=\"card\">\n        <h3><a href=\""@
        + escaped(r.html_url@)
        + "\">"@
        + escaped(r.name@)
        + "</a></h3>\n        <p class=\"muted\">"@
        + escaped(r.description@)
        + "</p>\n        <p class=\"meta\">★ "@
        + decimal(r.stargazers_count as nat)
        + " · "@
        + escaped(lang_label(r))
        + " · README "@
        + escaped(r.score.grade@)
        + " ("@
        + decimal(r.score.total as nat)
        + "/"@
        + decimal(r.score.max as nat)
        + ")</p>\n      </article>"@
}

pub open spec fn card_fn() -> spec_fn(Repo) -> Seq<char> {
    |r: Repo| repo_card(r)
}

/// A language and its repository count in the portfolio's language list.
pub open spec fn lang_item(l: (String, u32)) -> Seq<char> {
    "<li><span>"@ + escaped(l.0@) + "</span><span>"@ + decimal(l.1 as nat) + "</span></li>"@
}

pub open spec fn lang_fn() -> spec_fn((String, u32)) -> Seq<char> {
    |l: (String, u32)| lang_item(l)
}

/// The language list: one item per language, or a single `n/a` item when there are none.
pub open spec fn langs_html(langs: Seq<(String, u32)>) -> Seq<char> {
    if langs.len() == 0 {
        "<li><span>n/a</span><span>0</span></li>"@
    } else {
        concat_map(langs, lang_fn())
    }
}

/// The portfolio page, with `avg` the average README score rounded to a whole number.
pub open spec fn index_page(p: Portfolio, avg: Seq<char>) -> Seq<char> {
    index_page_head(p, avg) + concat_map(p.repos@, card_fn()) + index_page_tail(p)
}

/// What comes before the repository cards on the portfolio page.
pub open spec fn index_page_head(p: Portfolio, avg: Seq<char>) -> Seq<char> {
    "<!doctype html>\n<html lang=\"en\">\n<head>\n  <meta charset=\"utf-8\"/>\n  <meta name=\"viewport\" content=\"width=device-width, initial-scale=1\"/>\n  <title>"@
        + escaped(display_name(p.user))
        + " · Devfolio</title>\n  <link rel=\"stylesheet\" href=\"styles.css\"/>\n</head>\n<body>\n  <header class=\"hero\">\n    <img class=\"avatar\" src=\""@
        + escaped(p.user.avatar_url@)
        + "\" alt=\"avatar\"/>\n    <div>\n      <p class=\"eyebrow\">devfolio-cli-rust</p>\n      <h1>"@
        + escaped(display_name(p.user))
        + "</h1>\n      <p class=\"bio\">"@
        + escaped(p.user.bio@)
        + "</p>\n      <p class=\"meta\"><a href=\""@
        + escaped(p.user.html_url@)
        + "\">@"@
        + escaped(p.user.login@)
        + "</a> · "@
        + decimal(p.user.public_repos as nat)
        + " public repos · "@
        + decimal(p.user.followers as nat)
        + " followers · avg README "@
        + avg
        + "/100</p>\n    </div>\n  </header>\n  <main>\n    <section>\n      <h2>Languages</h2>\n      <ul class=\"langs\">"@
        + langs_html(p.languages@)
        + "</ul>\n    </section>\n    <section>\n      <h2>Repositories</h2>\n      <div class=\"grid\">"@
}

/// What comes after the repository cards on the portfolio page.
pub open spec fn index_page_tail(p: Portfolio) -> Seq<char> {
    "</div>\n    </section>\n    <p class=\"footer\"><a href=\"scorecard.html\">Open README scorecard</a> · generated "@
        + escaped(p.generated_at_utc@) + " UTC</p>\n  </main>\n</body>\n</html>\n"@
}

/// The result of a check as both scorecards write it.
pub open spec fn mark(passed: bool) -> Seq<char> {
    if passed {
        "PASS"@
    } else {
        "FAIL"@
    }
}

/// A check's line in the HTML scorecard.
pub open spec fn check_item(c: CheckResult) -> Seq<char> {
    "<li><strong>"@ + mark(c.passed) + "</strong> ["@ + escaped(c.id@) + "] "@ + escaped(c.label@)
        + " — "@ + escaped(c.detail@) + "</li>"@
}

pub open spec fn check_item_fn() -> spec_fn(CheckResult) -> Seq<char> {
    |c: CheckResult| check_item(c)
}

/// A repository's part of the HTML scorecard: heading with grade and points, then its checks.
pub open spec fn scorecard_section(r: Repo) -> Seq<char> {
    "<h3>"@ + escaped(r.name@) + " — "@ + escaped(r.score.grade@) + " ("@ + decimal(
        r.score.total as nat,
    ) + "/"@ + decimal(r.score.max as nat) + ")</h3><ul>"@ + concat_map(r.score.checks@, check_item_fn())
        + "</ul>"@
}

pub open spec fn section_fn() -> spec_fn(Repo) -> Seq<char> {
    |r: Repo| scorecard_section(r)
}

/// The HTML scorecard, with `avg` the average README score rounded to a whole number.
pub open spec fn scorecard_page(p: Portfolio, avg: Seq<char>) -> Seq<char> {
    scorecard_head(p, avg) + concat_map(p.repos@, section_fn()) + "</main></body></html>"@
}

/// What comes before the repository sections of the HTML scorecard.
pub open spec fn scorecard_head(p: Portfolio, avg: Seq<char>) -> Seq<char> {
    "<!doctype html>\n<html lang=\"en\"><head><meta charset=\"utf-8\"/><title>Scorecard · "@
        + escaped(p.user.login@)
        + "</title><link rel=\"stylesheet\" href=\"styles.css\"/></head>\n<body><main><p><a href=\"index.html\">← Portfolio</a></p><h1>README scorecard</h1><p class=\"muted\">@"@
        + escaped(p.user.login@)
        + " · avg "@
        + avg
        + "/100</p>"@
}

/// A check's row in the markdown scorecard's table.
pub open spec fn md_row(c: CheckResult) -> Seq<char> {
    "| "@ + c.label@ + " | "@ + mark(c.passed) + " | "@ + decimal(c.weight as nat) + " | "@ + c.detail@
        + " |\n"@
}

pub open spec fn md_row_fn() -> spec_fn(CheckResult) -> Seq<char> {
    |c: CheckResult| md_row(c)
}

/// A repository's part of the markdown scorecard: heading, summary and table of checks.
pub open spec fn md_section(r: Repo) -> Seq<char> {
    "## "@ + r.name@ + " — grade "@ + r.score.grade@ + " ("@ + decimal(r.score.total as nat) + "/"@
        + decimal(r.score.max as nat) + ")\n\n"@ + r.score.summary@
        + "\n\n| Check | Result | Weight | Detail |\n|---|---|---:|---|\n"@ + concat_map(
        r.score.checks@,
        md_row_fn(),
    ) + "\n"@
}

pub open spec fn md_section_fn() -> spec_fn(Repo) -> Seq<char> {
    |r: Repo| md_section(r)
}

/// The markdown scorecard, with `avg` the average README score written to one decimal.
pub open spec fn scorecard_markdown(p: Portfolio, avg: Seq<char>) -> Seq<char> {
    markdown_head(p, avg) + concat_map(p.repos@, md_section_fn())
}

/// What comes before the repository sections of the markdown scorecard.
pub open spec fn markdown_head(p: Portfolio, avg: Seq<char>) -> Seq<char> {
    "# README scorecard — @"@ + p.user.login@ + "\n\nAverage score: **"@ + avg
        + " / 100** · generated "@ + p.generated_at_utc@ + " UTC\n\n"@
}

fn repo_card_text(r: &Repo) -> (s: String)
    ensures
        s@ == repo_card(*r),
{
    let url = escape_text(r.html_url.as_str());
    let name = escape_text(r.name.as_str());
    let desc = escape_text(r.description.as_str());
    let stars = u32_text(r.stargazers_count);
    let lang = escape_text(
        if r.language.as_str().is_empty() {
            "n/a"
        } else {
            r.language.as_str()
        },
    );
    let grade = escape_text(r.score.grade.as_str());
    let total = u32_text(r.score.total);
    let max = u32_text(r.score.max);
    let mut s = String::new();
    s.append("\n      <article class=\"card\">\n        <h3><a href=\"");
    s.append(url.as_str());
    s.append("\">");
    s.append(name.as_str());
    s.append("</a></h3>\n        <p class=\"muted\">");
    s.append(desc.as_str());
    s.append("</p>\n        <p class=\"meta\">★ ");
    s.append(stars.as_str());
    s.append(" · ");
    s.append(lang.as_str());
    s.append(" · README ");
    s.append(grade.as_str());
    s.append(" (");
    s.append(total.as_str());
    s.append("/");
    s.append(max.as_str());
    s.append(")</p>\n      </article>");
    assert(s@ =~= repo_card(*r));
    s
}

fn lang_item_text(l: &(String, u32)) -> (s: String)
    ensures
        s@ == lang_item(*l),
{
    let mut s = "<li><span>".to_owned();
    let name = escape_text(l.0.as_str());
    s.append(name.as_str());
    s.append("</span><span>");
    let n = u32_text(l.1);
    s.append(n.as_str());
    s.append("</span></li>");
    assert(s@ =~= lang_item(*l));
    s
}

fn check_item_text(c: &CheckResult) -> (s: String)
    ensures
        s@ == check_item(*c),
{
    let mut s = "<li><strong>".to_owned();
    s.append(
        if c.passed {
            "PASS"
        } else {
            "FAIL"
        },
    );
    s.append("</strong> [");
    let id = escape_text(c.id.as_str());
    s.append(id.as_str());
    s.append("] ");
    let label = escape_text(c.label.as_str());
    s.append(label.as_str());
    s.append(" — ");
    let detail = escape_text(c.detail.as_str());
    s.append(detail.as_str());
    s.append("</li>");
    assert(s@ =~= check_item(*c));
    s
}

fn md_row_text(c: &CheckResult) -> (s: String)
    ensures
        s@ == md_row(*c),
{
    let mut s = "| ".to_owned();
    s.append(c.label.as_str());
    s.append(" | ");
    s.append(
        if c.passed {
            "PASS"
        } else {
            "FAIL"
        },
    );
    s.append(" | ");
    let w = u32_text(c.weight);
    s.append(w.as_str());
    s.append(" | ");
    s.append(c.detail.as_str());
    s.append(" |\n");
    assert(s@ =~= md_row(*c));
    s
}

fn check_items_text(checks: &Vec<CheckResult>) -> (s: String)
    ensures
        s@ == concat_map(checks@, check_item_fn()),
{
    let mut s = String::new();
    let mut i: usize = 0;
    while i < checks.len()
        invariant
            i <= checks@.len(),
            s@ == concat_map(checks@.take(i as int), check_item_fn()),
        decreases checks@.len() - i,
    {
        proof {
            lemma_concat_map_step(checks@, check_item_fn(), i as int);
        }
        let t = check_item_text(&checks[i]);
        s.append(t.as_str());
        i = i + 1;
    }
    assert(checks@.take(checks@.len() as int) =~= checks@);
    s
}

fn md_rows_text(checks: &Vec<CheckResult>) -> (s: String)
    ensures
        s@ == concat_map(checks@, md_row_fn()),
{
    let mut s = String::new();
    let mut i: usize = 0;
    while i < checks.len()
        invariant
            i <= checks@.len(),
            s@ == concat_map(checks@.take(i as int), md_row_fn()),
        decreases checks@.len() - i,
    {
        proof {
            lemma_concat_map_step(checks@, md_row_fn(), i as int);
        }
        let t = md_row_text(&checks[i]);
        s.append(t.as_str());
        i = i + 1;
    }
    assert(checks@.take(checks@.len() as int) =~= checks@);
    s
}

fn scorecard_section_text(r: &Repo) -> (s: String)
    ensures
        s@ == scorecard_section(*r),
{
    let mut s = "<h3>".to_owned();
    let name = escape_text(r.name.as_str());
    s.append(name.as_str());
    s.append(" — ");
    let grade = escape_text(r.score.grade.as_str());
    s.append(grade.as_str());
    s.append(" (");
    let total = u32_text(r.score.total);
    s.append(total.as_str());
    s.append("/");
    let max = u32_text(r.score.max);
    s.append(max.as_str());
    s.append(")</h3><ul>");
    let items = check_items_text(&r.score.checks);
    s.append(items.as_str());
    s.append("</ul>");
    assert(s@ =~= scorecard_section(*r));
    s
}

fn md_section_text(r: &Repo) -> (s: String)
    ensures
        s@ == md_section(*r),
{
    let mut s = "## ".to_owned();
    s.append(r.name.as_str());
    s.append(" — grade ");
    s.append(r.score.grade.as_str());
    s.append(" (");
    let total = u32_text(r.score.total);
    s.append(total.as_str());
    s.append("/");
    let max = u32_text(r.score.max);
    s.append(max.as_str());
    s.append(")\n\n");
    s.append(r.score.summary.as_str());
    s.append("\n\n| Check | Result | Weight | Detail |\n|---|---|---:|---|\n");
    let rows = md_rows_text(&r.score.checks);
    s.append(rows.as_str());
    s.append("\n");
    assert(s@ =~= md_section(*r));
    s
}

/// Renders the portfolio page; `avg_s` is the average README score rounded to a whole number.
pub fn render_index(p: &Portfolio, avg_s: &str) -> (s: String)
    ensures
        s@ == index_page(*p, avg_s@),
{
    let mut cards = String::new();
    let mut i: usize = 0;
    while i < p.repos.len()
        invariant
            i <= p.repos@.len(),
            cards@ == concat_map(p.repos@.take(i as int), card_fn()),
        decreases p.repos@.len() - i,
    {
        proof {
            lemma_concat_map_step(p.repos@, card_fn(), i as int);
        }
        let t = repo_card_text(&p.repos[i]);
        cards.append(t.as_str());
        i = i + 1;
    }
    assert(p.repos@.take(p.repos@.len() as int) =~= p.repos@);
    let mut langs = String::new();
    if p.languages.len() == 0 {
        langs.append("<li><span>n/a</span><span>0</span></li>");
    } else {
        let mut j: usize = 0;
        while j < p.languages.len()
            invariant
                j <= p.languages@.len(),
                langs@ == concat_map(p.languages@.take(j as int), lang_fn()),
            decreases p.languages@.len() - j,
        {
            proof {
                lemma_concat_map_step(p.languages@, lang_fn(), j as int);
            }
            let t = lang_item_text(&p.languages[j]);
            langs.append(t.as_str());
            j = j + 1;
        }
        assert(p.languages@.take(p.languages@.len() as int) =~= p.languages@);
    }
    let title = escape_text(
        if p.user.name.as_str().is_empty() {
            p.user.login.as_str()
        } else {
            p.user.name.as_str()
        },
    );
    let avatar = escape_text(p.user.avatar_url.as_str());
    let bio = escape_text(p.user.bio.as_str());
    let html_url = escape_text(p.user.html_url.as_str());
    let login = escape_text(p.user.login.as_str());
    let repos_n = u32_text(p.user.public_repos);
    let followers = u32_text(p.user.followers);
    let when = escape_text(p.generated_at_utc.as_str());
    let mut s = String::new();
    s.append("<!doctype html>\n<html lang=\"en\">\n<head>\n  <meta charset=\"utf-8\"/>\n  <meta name=\"viewport\" content=\"width=device-width, initial-scale=1\"/>\n  <title>");
    s.append(title.as_str());
    s.append(" · Devfolio</title>\n  <link rel=\"stylesheet\" href=\"styles.css\"/>\n</head>\n<body>\n  <header class=\"hero\">\n    <img class=\"avatar\" src=\"");
    s.append(avatar.as_str());
    s.append("\" alt=\"avatar\"/>\n    <div>\n      <p class=\"eyebrow\">devfolio-cli-rust</p>\n      <h1>");
    s.append(title.as_str());
    s.append("</h1>\n      <p class=\"bio\">");
    s.append(bio.as_str());
    s.append("</p>\n      <p class=\"meta\"><a href=\"");
    s.append(html_url.as_str());
    s.append("\">@");
    s.append(login.as_str());
    s.append("</a> · ");
    s.append(repos_n.as_str());
    s.append(" public repos · ");
    s.append(followers.as_str());
    s.append(" followers · avg README ");
    s.append(avg_s);
    s.append("/100</p>\n    </div>\n  </header>\n  <main>\n    <section>\n      <h2>Languages</h2>\n      <ul class=\"langs\">");
    s.append(langs.as_str());
    s.append("</ul>\n    </section>\n    <section>\n      <h2>Repositories</h2>\n      <div class=\"grid\">");
    s.append(cards.as_str());
    s.append("</div>\n    </section>\n    <p class=\"footer\"><a href=\"scorecard.html\">Open README scorecard</a> · generated ");
    s.append(when.as_str());
    s.append(" UTC</p>\n  </main>\n</body>\n</html>\n");
    assert(s@ =~= index_page(*p, avg_s@));
    s
}

/// Renders the HTML scorecard; `avg_s` is the average README score rounded to a whole number.
pub fn render_scorecard_html(p: &Portfolio, avg_s: &str) -> (s: String)
    ensures
        s@ == scorecard_page(*p, avg_s@),
{
    let mut body = String::new();
    let mut i: usize = 0;
    while i < p.repos.len()
        invariant
            i <= p.repos@.len(),
            body@ == concat_map(p.repos@.take(i as int), section_fn()),
        decreases p.repos@.len() - i,
    {
        proof {
            lemma_concat_map_step(p.repos@, section_fn(), i as int);
        }
        let t = scorecard_section_text(&p.repos[i]);
        body.append(t.as_str());
        i = i + 1;
    }
    assert(p.repos@.take(p.repos@.len() as int) =~= p.repos@);
    let login = escape_text(p.user.login.as_str());
    let mut s = String::new();
    s.append("<!doctype html>\n<html lang=\"en\"><head><meta charset=\"utf-8\"/><title>Scorecard · ");
    s.append(login.as_str());
    s.append("</title><link rel=\"stylesheet\" href=\"styles.css\"/></head>\n<body><main><p><a href=\"index.html\">← Portfolio</a></p><h1>README scorecard</h1><p class=\"muted\">@");
    s.append(login.as_str());
    s.append(" · avg ");
    s.append(avg_s);
    s.append("/100</p>");
    s.append(body.as_str());
    s.append("</main></body></html>");
    assert(s@ =~= scorecard_page(*p, avg_s@));
    s
}

/// Renders the markdown scorecard; `avg_s` is the average README score written to one
/// decimal.
pub fn render_scorecard_md(p: &Portfolio, avg_s: &str) -> (s: String)
    ensures
        s@ == scorecard_markdown(*p, avg_s@),
{
    let mut s = "# README scorecard — @".to_owned();
    s.append(p.user.login.as_str());
    s.append("\n\nAverage score: **");
    s.append(avg_s);
    s.append(" / 100** · generated ");
    s.append(p.generated_at_utc.as_str());
    s.append(" UTC\n\n");
    let ghost head = s@;
    let mut i: usize = 0;
    while i < p.repos.len()
        invariant
            i <= p.repos@.len(),
            s@ == head + concat_map(p.repos@.take(i as int), md_section_fn()),
        decreases p.repos@.len() - i,
    {
        proof {
            lemma_concat_map_step(p.repos@, md_section_fn(), i as int);
        }
        let t = md_section_text(&p.repos[i]);
        s.append(t.as_str());
        i = i + 1;
    }
    assert(p.repos@.take(p.repos@.len() as int) =~= p.repos@);
    assert(s@ =~= scorecard_markdown(*p, avg_s@));
    s
}

/// Escaped text holds no `<` or `>`, so it cannot open or close a tag.
pub proof fn law_escaped_has_no_angle_brackets(s: Seq<char>)
    ensures
        forall|i: int| 0 <= i < escaped(s).len() ==> #[trigger] escaped(s)[i] != '<' && escaped(s)[i] != '>',
    decreases s.len(),
{
    if s.len() > 0 {
        law_escaped_has_no_angle_brackets(s.drop_last());
        reveal_strlit("&amp;");
        reveal_strlit("&lt;");
        reveal_strlit("&gt;");
        let a = escaped(s.drop_last());
        let b = escape_char(s.last());
        assert forall|i: int| 0 <= i < escaped(s).len() implies #[trigger] escaped(s)[i] != '<' && escaped(s)[i] != '>' by {
            if i >= a.len() {
                assert(escaped(s)[i] == b[i - a.len()]);
            } else {
                assert(escaped(s)[i] == a[i]);
            }
        }
    }
}

/// Text without `&`, `<` and `>` comes out of escaping unchanged.
pub proof fn law_plain_text_escapes_to_itself(s: Seq<char>)
    requires
        forall|i: int| 0 <= i < s.len() ==> #[trigger] s[i] != '&' && s[i] != '<' && s[i] != '>',
    ensures
        escaped(s) == s,
    decreases s.len(),
{
    if s.len() > 0 {
        law_plain_text_escapes_to_itself(s.drop_last());
        assert(s.drop_last().push(s.last()) =~= s);
    }
}

/// How many `<` characters, the only way a tag can open, `s` holds.
pub open spec fn tag_openers(s: Seq<char>) -> nat
    decreases s.len(),
{
    if s.len() == 0 {
        0
    } else {
        tag_openers(s.drop_last()) + if s.last() == '<' {
            1nat
        } else {
            0nat
        }
    }
}

pub broadcast proof fn lemma_tag_openers_concat(a: Seq<char>, b: Seq<char>)
    ensures
        #[trigger] tag_openers(a + b) == tag_openers(a) + tag_openers(b),
    decreases b.len(),
{
    if b.len() == 0 {
        assert(a + b =~= a);
    } else {
        assert((a + b).drop_last() =~= a + b.drop_last());
        lemma_tag_openers_concat(a, b.drop_last());
    }
}

proof fn lemma_no_openers(s: Seq<char>)
    requires
        forall|i: int| 0 <= i < s.len() ==> #[trigger] s[i] != '<',
    ensures
        tag_openers(s) == 0,
    decreases s.len(),
{
    if s.len() > 0 {
        lemma_no_openers(s.drop_last());
    }
}

pub broadcast proof fn lemma_escaped_opens_no_tag(s: Seq<char>)
    ensures
        #[trigger] tag_openers(escaped(s)) == 0,
{
    law_escaped_has_no_angle_brackets(s);
    lemma_no_openers(escaped(s));
}

pub broadcast proof fn lemma_decimal_opens_no_tag(n: nat)
    ensures
        #[trigger] tag_openers(decimal(n)) == 0,
    decreases n,
{
    if n >= 10 {
        lemma_decimal_opens_no_tag(n / 10);
        assert(decimal(n) =~= decimal(n / 10) + seq![crate::text::digit_char(n % 10)]);
        lemma_tag_openers_concat(decimal(n / 10), seq![crate::text::digit_char(n % 10)]);
        reveal_with_fuel(tag_openers, 2);
    } else {
        reveal_with_fuel(tag_openers, 2);
    }
}

proof fn lemma_cards_open_alike(a: Seq<Repo>, b: Seq<Repo>)
    requires
        a.len() == b.len(),
    ensures
        tag_openers(concat_map(a, card_fn())) == tag_openers(concat_map(b, card_fn())),
    decreases a.len(),
{
    broadcast use lemma_tag_openers_concat, lemma_escaped_opens_no_tag, lemma_decimal_opens_no_tag;

    if a.len() > 0 {
        lemma_cards_open_alike(a.drop_last(), b.drop_last());
        let x = a.last();
        let y = b.last();
        assert(tag_openers(repo_card(x)) == tag_openers(repo_card(y)));
    }
}

proof fn lemma_lang_items_open_alike(a: Seq<(String, u32)>, b: Seq<(String, u32)>)
    requires
        a.len() == b.len(),
    ensures
        tag_openers(concat_map(a, lang_fn())) == tag_openers(concat_map(b, lang_fn())),
    decreases a.len(),
{
    broadcast use lemma_tag_openers_concat, lemma_escaped_opens_no_tag, lemma_decimal_opens_no_tag;

    if a.len() > 0 {
        lemma_lang_items_open_alike(a.drop_last(), b.drop_last());
        assert(tag_openers(lang_item(a.last())) == tag_openers(lang_item(b.last())));
    }
}

/// No field of the portfolio can add a tag to its page: whatever text the account, its
/// repositories and its languages hold, the page opens exactly as many tags as for any
/// other portfolio with as many repositories and languages. The average score is written
/// as given, so it must itself hold no `<`.
pub proof fn law_index_fields_add_no_tags(p: Portfolio, q: Portfolio, avg: Seq<char>)
    requires
        p.repos@.len() == q.repos@.len(),
        p.languages@.len() == q.languages@.len(),
        forall|i: int| 0 <= i < avg.len() ==> #[trigger] avg[i] != '<',
    ensures
        tag_openers(index_page(p, avg)) == tag_openers(index_page(q, avg)),
{
    broadcast use lemma_tag_openers_concat, lemma_escaped_opens_no_tag, lemma_decimal_opens_no_tag;

    lemma_cards_open_alike(p.repos@, q.repos@);
    lemma_lang_items_open_alike(p.languages@, q.languages@);
    lemma_no_openers(avg);
    assert(tag_openers(langs_html(p.languages@)) == tag_openers(langs_html(q.languages@)));
    assert(tag_openers(index_page(p, avg)) == tag_openers(index_page(q, avg)));
}

pub proof fn lemma_concat_map_add<T>(a: Seq<T>, b: Seq<T>, f: spec_fn(T) -> Seq<char>)
    ensures
        concat_map(a + b, f) == concat_map(a, f) + concat_map(b, f),
    decreases b.len(),
{
    if b.len() == 0 {
        assert(a + b =~= a);
        assert(concat_map(a, f) + concat_map(b, f) =~= concat_map(a, f));
    } else {
        assert((a + b).drop_last() =~= a + b.drop_last());
        lemma_concat_map_add(a, b.drop_last(), f);
        assert(concat_map(a, f) + concat_map(b, f) =~= concat_map(a, f) + concat_map(b.drop_last(), f)
            + f(b.last()));
    }
}

/// Each item's piece stands in the joined text, between the pieces of the items before it
/// and those after it.
pub proof fn lemma_concat_map_piece<T>(s: Seq<T>, f: spec_fn(T) -> Seq<char>, i: int)
    requires
        0 <= i < s.len(),
    ensures
        concat_map(s, f) == concat_map(s.take(i), f) + f(s[i]) + concat_map(s.skip(i + 1), f),
{
    assert(s =~= s.take(i) + (seq![s[i]] + s.skip(i + 1)));
    lemma_concat_map_add(s.take(i), seq![s[i]] + s.skip(i + 1), f);
    lemma_concat_map_add(seq![s[i]], s.skip(i + 1), f);
    assert(seq![s[i]].drop_last() =~= Seq::<T>::empty());
    reveal_with_fuel(concat_map, 2);
    assert(concat_map(seq![s[i]], f) =~= f(s[i]));
    assert(concat_map(s.take(i), f) + (f(s[i]) + concat_map(s.skip(i + 1), f)) =~= concat_map(s.take(i), f)
        + f(s[i]) + concat_map(s.skip(i + 1), f));
}

/// The portfolio page shows a card for every repository of the portfolio.
pub proof fn law_index_shows_every_repo(p: Portfolio, avg: Seq<char>, i: int)
    requires
        0 <= i < p.repos@.len(),
    ensures
        exists|pre: Seq<char>, post: Seq<char>| index_page(p, avg) == pre + repo_card(p.repos@[i]) + post,
{
    let cards = concat_map(p.repos@, card_fn());
    lemma_concat_map_piece(p.repos@, card_fn(), i);
    let a = concat_map(p.repos@.take(i), card_fn());
    let b = concat_map(p.repos@.skip(i + 1), card_fn());
    let page = index_page(p, avg);
    let head = index_page_head(p, avg);
    let tail = index_page_tail(p);
    assert(page =~= (head + a) + repo_card(p.repos@[i]) + (b + tail));
}


/// The HTML scorecard has a section for every repository of the portfolio.
pub proof fn law_scorecard_shows_every_repo(p: Portfolio, avg: Seq<char>, i: int)
    requires
        0 <= i < p.repos@.len(),
    ensures
        exists|pre: Seq<char>, post: Seq<char>| scorecard_page(p, avg) == pre + scorecard_section(p.repos@[i]) + post,
{
    let body = concat_map(p.repos@, section_fn());
    lemma_concat_map_piece(p.repos@, section_fn(), i);
    let a = concat_map(p.repos@.take(i), section_fn());
    let b = concat_map(p.repos@.skip(i + 1), section_fn());
    let page = scorecard_page(p, avg);
    let tail = "</main></body></html>"@;
    let head = scorecard_head(p, avg);
    assert(page =~= (head + a) + scorecard_section(p.repos@[i]) + (b + tail));
}

/// The markdown scorecard has a section for every repository of the portfolio, whatever
/// its score.
pub proof fn law_markdown_shows_every_repo(p: Portfolio, avg: Seq<char>, i: int)
    requires
        0 <= i < p.repos@.len(),
    ensures
        exists|pre: Seq<char>, post: Seq<char>| scorecard_markdown(p, avg) == pre + md_section(p.repos@[i]) + post,
{
    let body = concat_map(p.repos@, md_section_fn());
    lemma_concat_map_piece(p.repos@, md_section_fn(), i);
    let a = concat_map(p.repos@.take(i), md_section_fn());
    let b = concat_map(p.repos@.skip(i + 1), md_section_fn());
    let page = scorecard_markdown(p, avg);
    let head = markdown_head(p, avg);
    assert(page =~= (head + a) + md_section(p.repos@[i]) + b);
}

/// Every repository's markdown section opens with its heading: its name and its grade.
pub proof fn law_markdown_section_opens_with_heading(r: Repo)
    ensures
        ({
            let h = "## "@ + r.name@ + " — grade "@ + r.score.grade@;
            &&& md_section(r).len() > h.len()
            &&& md_section(r).take(h.len() as int) == h
        }),
{
    let h = "## "@ + r.name@ + " — grade "@ + r.score.grade@;
    let rest = " ("@ + decimal(r.score.total as nat) + "/"@ + decimal(r.score.max as nat) + ")\n\n"@
        + r.score.summary@ + "\n\n| Check | Result | Weight | Detail |\n|---|---|---:|---|\n"@
        + concat_map(r.score.checks@, md_row_fn()) + "\n"@;
    reveal_strlit("\n");
    assert(md_section(r) =~= h + rest);
    assert((h + rest).take(h.len() as int) =~= h);
}

/// Every repository's section in the HTML scorecard opens with its escaped name.
pub proof fn law_scorecard_section_opens_with_name(r: Repo)
    ensures
        ({
            let h = "<h3>"@ + escaped(r.name@) + " — "@ + escaped(r.score.grade@);
            &&& scorecard_section(r).len() > h.len()
            &&& scorecard_section(r).take(h.len() as int) == h
        }),
{
    let h = "<h3>"@ + escaped(r.name@) + " — "@ + escaped(r.score.grade@);
    let rest = " ("@ + decimal(r.score.total as nat) + "/"@ + decimal(r.score.max as nat) + ")</h3><ul>"@
        + concat_map(r.score.checks@, check_item_fn()) + "</ul>"@;
    reveal_strlit("</ul>");
    assert(scorecard_section(r) =~= h + rest);
    assert((h + rest).take(h.len() as int) =~= h);
}

/// A repository's card shows its star count, written in decimal, after the star sign.
pub proof fn law_card_shows_stars(r: Repo)
    ensures
        exists|pre: Seq<char>, post: Seq<char>|
            repo_card(r) == pre + "★ "@ + decimal(r.stargazers_count as nat) + " · "@ + post,
{
    let lead = "</p>\n        <p class=\"meta\">★ "@;
    let lead0 = "</p>\n        <p class=\"meta\">"@;
    reveal_strlit("</p>\n        <p class=\"meta\">★ ");
    reveal_strlit("</p>\n        <p class=\"meta\">");
    reveal_strlit("★ ");
    assert(lead =~= lead0 + "★ "@);
    let pre = "\n      <article class=\"card\">\n        <h3><a href=\""@ + escaped(r.html_url@) + "\">"@
        + escaped(r.name@) + "</a></h3>\n        <p class=\"muted\">"@ + escaped(r.description@) + lead0;
    let post = escaped(lang_label(r)) + " · README "@ + escaped(r.score.grade@) + " ("@ + decimal(
        r.score.total as nat,
    ) + "/"@ + decimal(r.score.max as nat) + ")</p>\n      </article>"@;
    assert(repo_card(r) =~= pre + "★ "@ + decimal(r.stargazers_count as nat) + " · "@ + post);
}

/// A card shows only the repository's link, name, description, stars, language and score:
/// two repositories that agree on those get the same card, whatever their forks, topics or
/// other fields.
pub proof fn law_card_depends_on_shown_fields_only(r1: Repo, r2: Repo)
    requires
        r1.html_url@ == r2.html_url@,
        r1.name@ == r2.name@,
        r1.description@ == r2.description@,
        r1.stargazers_count == r2.stargazers_count,
        r1.language@ == r2.language@,
        r1.score.grade@ == r2.score.grade@,
        r1.score.total == r2.score.total,
        r1.score.max == r2.score.max,
    ensures
        repo_card(r1) == repo_card(r2),
{
}

} // verus!
