use vstd::prelude::*;

use crate::model::{ReadmeScore, Repo, User};

verus! {

/// The GitHub REST API that requests go to unless another base is given.
pub const API_BASE_URL: &'static str = "https://api.github.com";

/// The `User-Agent` every request carries.
pub const USER_AGENT_VALUE: &'static str = "devfolio-cli-rust";

/// The `Accept` value for JSON records.
pub const ACCEPT_JSON: &'static str = "application/vnd.github+json";

/// The `Accept` value that asks for a README's raw text.
pub const ACCEPT_RAW: &'static str = "application/vnd.github.raw";

/// The API version every request asks for.
pub const API_VERSION: &'static str = "2022-11-28";

/// A user record as the API sends it; absent text fields are `None`.
pub struct ApiUser {
    pub login: String,
    pub name: Option<String>,
    pub bio: Option<String>,
    pub company: Option<String>,
    pub blog: Option<String>,
    pub location: Option<String>,
    pub avatar_url: Option<String>,
    pub html_url: Option<String>,
    pub public_repos: u32,
    pub followers: u32,
    pub following: u32,
}

/// A repository record as the API sends it.
pub struct ApiRepo {
    pub name: String,
    pub full_name: String,
    pub description: Option<String>,
    pub html_url: String,
    pub language: Option<String>,
    pub stargazers_count: u32,
    pub forks_count: u32,
    pub fork: bool,
    pub archived: bool,
    pub topics: Vec<String>,
    pub default_branch: Option<String>,
}

/// The text of an optional field, empty when it is absent.
pub open spec fn or_empty(s: Option<String>) -> Seq<char> {
    match s {
        Some(t) => t@,
        None => Seq::empty(),
    }
}

fn text_or_empty(s: Option<String>) -> (r: String)
    ensures
        r@ == or_empty(s),
{
    match s {
        Some(t) => t,
        None => String::new(),
    }
}

/// The portfolio's account record from the API's: absent text fields become empty.
pub fn user_from_api(u: ApiUser) -> (r: User)
    ensures
        r.login == u.login,
        r.name@ == or_empty(u.name),
        r.bio@ == or_empty(u.bio),
        r.company@ == or_empty(u.company),
        r.blog@ == or_empty(u.blog),
        r.location@ == or_empty(u.location),
        r.avatar_url@ == or_empty(u.avatar_url),
        r.html_url@ == or_empty(u.html_url),
        r.public_repos == u.public_repos,
        r.followers == u.followers,
        r.following == u.following,
{
    User {
        login: u.login,
        name: text_or_empty(u.name),
        bio: text_or_empty(u.bio),
        company: text_or_empty(u.company),
        blog: text_or_empty(u.blog),
        location: text_or_empty(u.location),
        avatar_url: text_or_empty(u.avatar_url),
        html_url: text_or_empty(u.html_url),
        public_repos: u.public_repos,
        followers: u.followers,
        following: u.following,
    }
}

/// `r` is the portfolio's record of the API repository `a`: absent description and
/// language become empty, an absent default branch becomes `main`, and there is no README
/// or score yet.
pub open spec fn converted_repo(r: Repo, a: ApiRepo) -> bool {
    &&& r.name == a.name
    &&& r.full_name == a.full_name
    &&& r.description@ == or_empty(a.description)
    &&& r.html_url == a.html_url
    &&& r.language@ == or_empty(a.language)
    &&& r.stargazers_count == a.stargazers_count
    &&& r.forks_count == a.forks_count
    &&& r.fork == a.fork
    &&& r.archived == a.archived
    &&& r.topics == a.topics
    &&& r.default_branch@ == match a.default_branch {
        Some(b) => b@,
        None => "main"@,
    }
    &&& r.readme@.len() == 0
    &&& r.score.total == 0
    &&& r.score.max == 0
    &&& r.score.checks@.len() == 0
    &&& r.score.grade@.len() == 0
    &&& r.score.summary@.len() == 0
}

/// The repositories that are not forks, in the order the API sent them.
pub open spec fn own_repos(raw: Seq<ApiRepo>) -> Seq<ApiRepo> {
    raw.filter(|a: ApiRepo| !a.fork)
}

fn repo_from_api(a: ApiRepo) -> (r: Repo)
    ensures
        converted_repo(r, a),
{
    let ghost g = a;
    let default_branch = match a.default_branch {
        Some(b) => b,
        None => "main".to_owned(),
    };
    Repo {
        name: a.name,
        full_name: a.full_name,
        description: text_or_empty(a.description),
        html_url: a.html_url,
        language: text_or_empty(a.language),
        stargazers_count: a.stargazers_count,
        forks_count: a.forks_count,
        fork: a.fork,
        archived: a.archived,
        topics: a.topics,
        default_branch,
        readme: String::new(),
        score: ReadmeScore::default(),
    }
}

proof fn lemma_own_step(raw: Seq<ApiRepo>, i: int)
    requires
        0 <= i < raw.len(),
    ensures
        own_repos(raw.take(i + 1)) == if raw[i].fork {
            own_repos(raw.take(i))
        } else {
            own_repos(raw.take(i)).push(raw[i])
        },
{
    let f = |a: ApiRepo| !a.fork;
    let t = raw.take(i + 1);
    assert(t.drop_last() =~= raw.take(i));
    reveal_with_fuel(Seq::filter, 1);
    assert(t.filter(f) == if f(t.last()) {
        t.drop_last().filter(f).push(t.last())
    } else {
        t.drop_last().filter(f)
    });
}

/// The portfolio's records of the account's own repositories: forks are left out and the
/// others keep the order the API sent them in.
pub fn repos_from_api(raw: Vec<ApiRepo>) -> (out: Vec<Repo>)
    ensures
        out@.len() == own_repos(raw@).len(),
        forall|k: int| 0 <= k < out@.len() ==> converted_repo(#[trigger] out@[k], own_repos(raw@)[k]),
        forall|k: int| 0 <= k < out@.len() ==> !(#[trigger] out@[k]).fork,
        forall|k: int|
            0 <= k < out@.len() && own_repos(raw@)[k].language is None ==> (#[trigger] out@[k]).language@.len()
                == 0,
        forall|k: int|
            0 <= k < out@.len() ==> match own_repos(raw@)[k].language {
                Some(l) => (#[trigger] out@[k]).language@ == l@,
                None => true,
            },
{
    let ghost inp = raw@;
    let n = raw.len();
    let mut rest = raw;
    let mut out: Vec<Repo> = Vec::new();
    let mut m: usize = 0;
    while rest.len() > 0
        invariant
            m <= n,
            inp.len() == n,
            rest@ == inp.skip(m as int),
            out@.len() == own_repos(inp.take(m as int)).len(),
            forall|k: int|
                0 <= k < out@.len() ==> converted_repo(#[trigger] out@[k], own_repos(inp.take(m as int))[k]),
        decreases rest@.len(),
    {
        assert(m < n);
        proof {
            lemma_own_step(inp, m as int);
        }
        let a = rest.remove(0);
        assert(a == inp[m as int]);
        if !a.fork {
            out.push(repo_from_api(a));
        }
        assert(inp.skip(m + 1) =~= inp.skip(m as int).remove(0));
        m = m + 1;
    }
    assert(inp.take(m as int) =~= inp);
    assert forall|k: int| 0 <= k < out@.len() implies !(#[trigger] out@[k]).fork by {
        inp.lemma_filter_pred(|a: ApiRepo| !a.fork, k);
    }
    assert forall|k: int| 0 <= k < out@.len() implies {
        &&& own_repos(inp)[k].language is None ==> (#[trigger] out@[k]).language@.len() == 0
        &&& match own_repos(inp)[k].language {
            Some(l) => out@[k].language@ == l@,
            None => true,
        }
    } by {
        law_language_is_kept_or_left_empty(out@[k], own_repos(inp)[k]);
    }
    out
}

/// The API path of a user's record.
pub fn user_path(login: &str) -> (p: String)
    ensures
        p@ == "/users/"@ + login@,
{
    let mut p = "/users/".to_owned();
    p.append(login);
    p
}

/// The API path of a user's repositories: up to a hundred of the repositories they own,
/// most recently updated first.
pub fn repos_path(login: &str) -> (p: String)
    ensures
        p@ == "/users/"@ + login@ + "/repos?per_page=100&sort=updated&type=owner"@,
{
    let mut p = "/users/".to_owned();
    p.append(login);
    p.append("/repos?per_page=100&sort=updated&type=owner");
    p
}

/// The API path of a repository's README.
pub fn readme_path(owner: &str, repo: &str) -> (p: String)
    ensures
        p@ == "/repos/"@ + owner@ + "/"@ + repo@ + "/readme"@,
{
    let mut p = "/repos/".to_owned();
    p.append(owner);
    p.append("/");
    p.append(repo);
    p.append("/readme");
    p
}

/// The URL of an API path under a base URL.
pub fn request_url(base: &str, path: &str) -> (u: String)
    ensures
        u@ == base@ + path@,
{
    let mut u = base.to_owned();
    u.append(path);
    u
}

/// The `Authorization` value for a token.
pub fn bearer(token: &str) -> (v: String)
    ensures
        v@ == "Bearer "@ + token@,
{
    let mut v = "Bearer ".to_owned();
    v.append(token);
    v
}

/// The token to send: the one given, else the one from the environment.
pub fn pick_token(given: Option<String>, from_env: Option<String>) -> (t: Option<String>)
    ensures
        t == if given is Some {
            given
        } else {
            from_env
        },
{
    match given {
        Some(t) => Some(t),
        None => from_env,
    }
}

/// An HTTP status in the success class, 200 to 299.
pub open spec fn success_status(status: u16) -> bool {
    200 <= status <= 299
}

pub fn is_success(status: u16) -> (b: bool)
    ensures
        b == success_status(status),
{
    200 <= status && status <= 299
}

/// What to make of the reply to a README request.
#[derive(Debug, Clone, Copy, PartialEq, Eq)]
pub enum ReadmeReply {
    /// The repository has no README: its text is empty.
    Missing,
    /// The body is the README's text.
    Body,
    /// The request failed.
    Failed,
}

/// A 404 means there is no README, another success status carries it, anything else is a
/// failure.
pub fn readme_reply(status: u16) -> (r: ReadmeReply)
    ensures
        status == 404 ==> r == ReadmeReply::Missing,
        status != 404 && success_status(status) ==> r == ReadmeReply::Body,
        status != 404 && !success_status(status) ==> r == ReadmeReply::Failed,
{
    if status == 404 {
        ReadmeReply::Missing
    } else if is_success(status) {
        ReadmeReply::Body
    } else {
        ReadmeReply::Failed
    }
}

/// An absent text field reads as empty text, a present one as itself.
pub proof fn law_absent_text_is_empty(s: Option<String>)
    ensures
        s is None ==> or_empty(s).len() == 0,
        s matches Some(t) ==> or_empty(s) == t@,
{
}

/// A repository record keeps the API's language, and one without a language gets an
/// empty language, so the language tally leaves it out.
pub proof fn law_language_is_kept_or_left_empty(r: Repo, a: ApiRepo)
    requires
        converted_repo(r, a),
    ensures
        a.language is None ==> r.language@.len() == 0,
        a.language matches Some(l) ==> r.language@ == l@,
        a.description is None ==> r.description@.len() == 0,
        a.default_branch is None ==> r.default_branch@ == "main"@,
{
}

} // verus!
