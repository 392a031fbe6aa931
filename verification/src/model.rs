use vstd::prelude::*;

verus! {

/// A GitHub account as the portfolio shows it.
#[derive(Debug, Clone, Default)]
pub struct User {
    pub login: String,
    pub name: String,
    pub bio: String,
    pub company: String,
    pub blog: String,
    pub location: String,
    pub avatar_url: String,
    pub html_url: String,
    pub public_repos: u32,
    pub followers: u32,
    pub following: u32,
}

/// One item of the README rubric and whether the README meets it.
#[derive(Debug, Clone, Default)]
pub struct CheckResult {
    pub id: String,
    pub label: String,
    pub passed: bool,
    pub weight: u32,
    pub detail: String,
}

/// The rubric's verdict on one README.
#[derive(Debug, Clone)]
pub struct ReadmeScore {
    pub total: u32,
    pub max: u32,
    pub checks: Vec<CheckResult>,
    pub grade: String,
    pub summary: String,
}

/// A repository of the account, with its README and the README's score.
#[derive(Debug, Clone, Default)]
pub struct Repo {
    pub name: String,
    pub full_name: String,
    pub description: String,
    pub html_url: String,
    pub language: String,
    pub stargazers_count: u32,
    pub forks_count: u32,
    pub fork: bool,
    pub archived: bool,
    pub topics: Vec<String>,
    pub default_branch: String,
    pub readme: String,
    pub score: ReadmeScore,
}

/// The mathematical content of a [`CheckResult`].
pub struct CheckView {
    pub id: Seq<char>,
    pub label: Seq<char>,
    pub passed: bool,
    pub weight: u32,
    pub detail: Seq<char>,
}

impl View for CheckResult {
    type V = CheckView;

    open spec fn view(&self) -> CheckView {
        CheckView {
            id: self.id@,
            label: self.label@,
            passed: self.passed,
            weight: self.weight,
            detail: self.detail@,
        }
    }
}

/// The mathematical content of a [`ReadmeScore`].
pub struct ScoreView {
    pub total: u32,
    pub max: u32,
    pub checks: Seq<CheckView>,
    pub grade: Seq<char>,
    pub summary: Seq<char>,
}

impl View for ReadmeScore {
    type V = ScoreView;

    open spec fn view(&self) -> ScoreView {
        ScoreView {
            total: self.total,
            max: self.max,
            checks: self.checks@.map_values(|c: CheckResult| c@),
            grade: self.grade@,
            summary: self.summary@,
        }
    }
}

impl Default for ReadmeScore {
    /// The score of a repository that has not been scored yet: nothing counted, no checks.
    fn default() -> (s: Self)
        ensures
            s.total == 0,
            s.max == 0,
            s.checks@.len() == 0,
            s.grade@.len() == 0,
            s.summary@.len() == 0,
    {
        ReadmeScore {
            total: 0,
            max: 0,
            checks: Vec::new(),
            grade: String::new(),
            summary: String::new(),
        }
    }
}

/// What the pages show: the account, its selected repositories and its language tally.
/// The average README score is a float; the renderers take it already written out.
#[derive(Debug, Clone, Default)]
pub struct Portfolio {
    pub user: User,
    pub repos: Vec<Repo>,
    pub languages: Vec<(String, u32)>,
    pub generated_at_utc: String,
}

} // verus!
