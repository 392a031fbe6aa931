use vstd::prelude::*;

use crate::model::{CheckResult, CheckView, ReadmeScore, ScoreView};
use crate::text::{join, trimmed, trimmed_len};

verus! {

/// A markdown heading of level one to three with some text after it.
pub const HEADING_PATTERN: &'static str = r"(?m)^#{1,3}\s+\S+";

/// A shields.io-style badge image, or a linked image that links somewhere.
pub const BADGE_PATTERN: &'static str = r"(?i)!\[.*?\]\(https?://.*(shields\.io|badge|img\.shields\.io).*\)|\[!\[.*?\]\(https?://.*\)\]\(https?://.*\)";

/// An install / getting-started / usage heading, or a typical install command.
pub const INSTALL_PATTERN: &'static str = r"(?im)^#{1,3}\s+.*(install|getting started|quick ?start|usage).*$|go install |npm (i|install) |pip install |cargo install |docker (compose )?up";

/// A demo / screenshot / preview heading, or a linked animation or recording.
pub const DEMO_PATTERN: &'static str = r"(?im)^#{1,3}\s+.*(demo|screenshot|preview).*$|\.(gif|webm|mp4)\)|ASCIinema|loom\.com";

/// A license heading or a well-known license mention.
pub const LICENSE_PATTERN: &'static str = r"(?im)^#{1,3}\s+.*license.*$|mit license|apache license|spdx-license";

/// An architecture / design / how-it-works / overview heading.
pub const ARCH_PATTERN: &'static str = r"(?im)^#{1,3}\s+.*(architecture|design|how it works|overview).*$";

/// A line that opens or closes a code fence.
pub const CODE_FENCE_PATTERN: &'static str = r"(?m)^```";

/// What compiling `pattern` with `regex::Regex::new` and asking `is_match` on `haystack`
/// gives: `None` when the pattern does not compile, else whether it matches somewhere.
pub uninterp spec fn regex_finds(pattern: Seq<char>, haystack: Seq<char>) -> Option<bool>;

/// Compiles `pattern` with `regex::Regex::new` and, when that succeeds, asks
/// `Regex::is_match` about `haystack`. The contract claims only that the answer is the
/// same for the same pattern and haystack; what the regex engine decides is not stated.
#[verifier::external_body]
fn regex_is_match(pattern: &str, haystack: &str) -> (r: Option<bool>)
    ensures
        r == regex_finds(pattern@, haystack@),
{
    match regex::Regex::new(pattern) {
        Ok(re) => Some(re.is_match(haystack)),
        Err(_) => None,
    }
}

/// Whether `pattern` matches somewhere in `haystack` (a pattern that does not compile
/// matches nothing).
pub open spec fn pattern_found(pattern: Seq<char>, haystack: Seq<char>) -> bool {
    regex_finds(pattern, haystack) == Some(true)
}

pub fn find_pattern(pattern: &str, haystack: &str) -> (b: bool)
    ensures
        b == pattern_found(pattern@, haystack@),
{
    match regex_is_match(pattern, haystack) {
        Some(b) => b,
        None => false,
    }
}

/// What a rubric check reports: its detail is `ok` when it passed and the advice otherwise.
pub open spec fn check_view(
    id: Seq<char>,
    label: Seq<char>,
    weight: u32,
    passed: bool,
    detail: Seq<char>,
) -> CheckView {
    CheckView { id, label, passed, weight, detail: if passed { "ok"@ } else { detail } }
}

pub fn check(id: &str, label: &str, weight: u32, passed: bool, detail: &str) -> (c: CheckResult)
    ensures
        c@ == check_view(id@, label@, weight, passed, detail@),
{
    CheckResult {
        id: id.to_owned(),
        label: label.to_owned(),
        passed,
        weight,
        detail: if passed {
            "ok".to_owned()
        } else {
            detail.to_owned()
        },
    }
}

/// The letter grade of `total` out of `max`: the percentage `100 * total / max` against
/// the thresholds 90, 80, 70 and 55; `F` when nothing can be scored.
pub open spec fn grade_of(total: u32, max: u32) -> Seq<char> {
    if max == 0 {
        "F"@
    } else if 100 * total >= 90 * max {
        "A"@
    } else if 100 * total >= 80 * max {
        "B"@
    } else if 100 * total >= 70 * max {
        "C"@
    } else if 100 * total >= 55 * max {
        "D"@
    } else {
        "F"@
    }
}

pub fn grade(total: u32, max: u32) -> (g: String)
    ensures
        g@ == grade_of(total, max),
{
    if max == 0 {
        return "F".to_owned();
    }
    let t = total as u64 * 100;
    let m = max as u64;
    if t >= 90 * m {
        "A".to_owned()
    } else if t >= 80 * m {
        "B".to_owned()
    } else if t >= 70 * m {
        "C".to_owned()
    } else if t >= 55 * m {
        "D".to_owned()
    } else {
        "F".to_owned()
    }
}

/// The ids of the checks that failed, in rubric order.
pub open spec fn failed_ids(checks: Seq<CheckView>) -> Seq<Seq<char>> {
    checks.filter(|c: CheckView| !c.passed).map_values(|c: CheckView| c.id)
}

/// The summary line: a compliment when no check failed, else the ids of the failed checks.
pub open spec fn summary_text(checks: Seq<CheckView>) -> Seq<char> {
    if failed_ids(checks).len() == 0 {
        "Excellent README coverage."@
    } else {
        "Improve: "@ + join(failed_ids(checks), ", "@)
    }
}

pub open spec fn views(checks: Seq<CheckResult>) -> Seq<CheckView> {
    checks.map_values(|c: CheckResult| c@)
}

proof fn lemma_failed_step(checks: Seq<CheckView>, i: int)
    requires
        0 <= i < checks.len(),
    ensures
        failed_ids(checks.take(i + 1)) == if checks[i].passed {
            failed_ids(checks.take(i))
        } else {
            failed_ids(checks.take(i)).push(checks[i].id)
        },
{
    let p = |c: CheckView| !c.passed;
    let t = checks.take(i + 1);
    assert(t.drop_last() =~= checks.take(i));
    reveal_with_fuel(Seq::filter, 1);
    assert(t.filter(p) == if p(t.last()) {
        t.drop_last().filter(p).push(t.last())
    } else {
        t.drop_last().filter(p)
    });
    assert(failed_ids(checks.take(i + 1)) =~= if checks[i].passed {
        failed_ids(checks.take(i))
    } else {
        failed_ids(checks.take(i)).push(checks[i].id)
    });
}

pub fn summarize(checks: &[CheckResult]) -> (s: String)
    ensures
        s@ == summary_text(views(checks@)),
{
    let ghost cv = views(checks@);
    let mut out = String::new();
    let mut any = false;
    let mut i: usize = 0;
    while i < checks.len()
        invariant
            i <= checks@.len(),
            cv == views(checks@),
            any == (failed_ids(cv.take(i as int)).len() > 0),
            out@ == join(failed_ids(cv.take(i as int)), ", "@),
        decreases checks@.len() - i,
    {
        proof {
            lemma_failed_step(cv, i as int);
        }
        let c = &checks[i];
        if !c.passed {
            let ghost before = failed_ids(cv.take(i as int));
            if any {
                out.append(", ");
            }
            out.append(c.id.as_str());
            any = true;
            proof {
                let after = before.push(cv[i as int].id);
                assert(after.drop_last() =~= before);
                if before.len() == 0 {
                    assert(out@ =~= join(after, ", "@));
                }
            }
        }
        i = i + 1;
    }
    assert(cv.take(checks@.len() as int) =~= cv);
    if !any {
        "Excellent README coverage.".to_owned()
    } else {
        let mut s = "Improve: ".to_owned();
        s.append(out.as_str());
        s
    }
}

/// The findings the rubric grades a README on, one per check.
#[derive(Debug, Clone, Copy)]
pub struct ReadmeSignals {
    pub non_empty: bool,
    pub title: bool,
    pub length: bool,
    pub install: bool,
    pub demo: bool,
    pub badges: bool,
    pub license: bool,
    pub architecture: bool,
    pub code_samples: bool,
}

/// The findings on a README: the two on its trimmed text and, for the others, whether
/// the rubric's pattern matches somewhere in it.
pub open spec fn readme_signals(md: Seq<char>) -> ReadmeSignals {
    ReadmeSignals {
        non_empty: trimmed(md).len() > 0,
        title: pattern_found(HEADING_PATTERN@, md),
        length: trimmed(md).len() >= 400,
        install: pattern_found(INSTALL_PATTERN@, md),
        demo: pattern_found(DEMO_PATTERN@, md),
        badges: pattern_found(BADGE_PATTERN@, md),
        license: pattern_found(LICENSE_PATTERN@, md),
        architecture: pattern_found(ARCH_PATTERN@, md),
        code_samples: pattern_found(CODE_FENCE_PATTERN@, md),
    }
}

/// The rubric's nine checks, in order, with their weights and advice.
pub open spec fn rubric(s: ReadmeSignals) -> Seq<CheckView> {
    seq![
        check_view("non_empty"@, "README is non-empty"@, 10, s.non_empty, "file missing or empty"@),
        check_view("title"@, "Has a markdown heading"@, 10, s.title, "add an H1/H2 title"@),
        check_view("length"@, "Adequate length (≥400 chars)"@, 10, s.length, "expand the README"@),
        check_view("install"@, "Install / getting started section"@, 20, s.install, "document how to install/run"@),
        check_view("demo"@, "Demo / screenshot evidence"@, 15, s.demo, "add a GIF, screenshot, or demo link"@),
        check_view("badges"@, "Status badges"@, 10, s.badges, "add shields.io (or similar) badges"@),
        check_view("license"@, "License mentioned"@, 10, s.license, "add a License section"@),
        check_view("architecture"@, "Architecture / how-it-works"@, 10, s.architecture, "sketch architecture briefly"@),
        check_view("code_samples"@, "Code fences / examples"@, 5, s.code_samples, "include copy-pasteable examples"@),
    ]
}

/// The sum of the weights of all checks.
pub open spec fn total_weight(checks: Seq<CheckView>) -> int
    decreases checks.len(),
{
    if checks.len() == 0 {
        0
    } else {
        total_weight(checks.drop_last()) + checks.last().weight
    }
}

/// The sum of the weights of the checks that passed.
pub open spec fn passed_weight(checks: Seq<CheckView>) -> int
    decreases checks.len(),
{
    if checks.len() == 0 {
        0
    } else {
        passed_weight(checks.drop_last()) + if checks.last().passed {
            checks.last().weight as int
        } else {
            0
        }
    }
}

/// The score of a README with the given findings.
pub open spec fn score_view(s: ReadmeSignals) -> ScoreView {
    let checks = rubric(s);
    let total = passed_weight(checks) as u32;
    let max = total_weight(checks) as u32;
    ScoreView {
        total,
        max,
        checks,
        grade: grade_of(total, max),
        summary: summary_text(checks),
    }
}

/// The rubric's weights add up to one hundred, and what a README earns lies between
/// nothing and that.
pub proof fn lemma_rubric_weights(s: ReadmeSignals)
    ensures
        total_weight(rubric(s)) == 100,
        0 <= passed_weight(rubric(s)) <= 100,
{
    let c = rubric(s);
    reveal_with_fuel(total_weight, 10);
    reveal_with_fuel(passed_weight, 10);
    assert(c.drop_last().drop_last().drop_last().drop_last().drop_last().drop_last().drop_last().drop_last().drop_last().len() == 0);
}

/// Scores a README from its findings: the nine checks in rubric order, the weights earned
/// and available, the letter grade and the summary.
pub fn score_signals(s: ReadmeSignals) -> (r: ReadmeScore)
    ensures
        r@ == score_view(s),
{
    let mut checks: Vec<CheckResult> = Vec::new();
    checks.push(check("non_empty", "README is non-empty", 10, s.non_empty, "file missing or empty"));
    checks.push(check("title", "Has a markdown heading", 10, s.title, "add an H1/H2 title"));
    checks.push(check("length", "Adequate length (≥400 chars)", 10, s.length, "expand the README"));
    checks.push(check("install", "Install / getting started section", 20, s.install, "document how to install/run"));
    checks.push(check("demo", "Demo / screenshot evidence", 15, s.demo, "add a GIF, screenshot, or demo link"));
    checks.push(check("badges", "Status badges", 10, s.badges, "add shields.io (or similar) badges"));
    checks.push(check("license", "License mentioned", 10, s.license, "add a License section"));
    checks.push(check("architecture", "Architecture / how-it-works", 10, s.architecture, "sketch architecture briefly"));
    checks.push(check("code_samples", "Code fences / examples", 5, s.code_samples, "include copy-pasteable examples"));
    let ghost cv = views(checks@);
    assert(cv =~= rubric(s));
    let mut total: u32 = 0;
    let mut max: u32 = 0;
    let mut i: usize = 0;
    while i < checks.len()
        invariant
            i <= checks@.len(),
            checks@.len() == 9,
            cv == views(checks@),
            forall|k: int| 0 <= k < 9 ==> #[trigger] cv[k].weight <= 20,
            total == passed_weight(cv.take(i as int)),
            max == total_weight(cv.take(i as int)),
            total <= max <= 20 * i,
        decreases checks@.len() - i,
    {
        proof {
            assert(cv.take(i + 1).drop_last() =~= cv.take(i as int));
        }
        let c = &checks[i];
        assert(cv[i as int].weight == c.weight);
        max = max + c.weight;
        if c.passed {
            total = total + c.weight;
        }
        i = i + 1;
    }
    assert(cv.take(9) =~= cv);
    let g = grade(total, max);
    let summary = summarize(checks.as_slice());
    ReadmeScore { grade: g, summary, total, max, checks }
}

/// Scores README markdown against the rubric (at most 100 points).
pub fn score_readme(md: &str) -> (r: ReadmeScore)
    ensures
        r@ == score_view(readme_signals(md@)),
{
    let n = trimmed_len(md);
    let s = ReadmeSignals {
        non_empty: n != 0,
        title: find_pattern(HEADING_PATTERN, md),
        length: n >= 400,
        install: find_pattern(INSTALL_PATTERN, md),
        demo: find_pattern(DEMO_PATTERN, md),
        badges: find_pattern(BADGE_PATTERN, md),
        license: find_pattern(LICENSE_PATTERN, md),
        architecture: find_pattern(ARCH_PATTERN, md),
        code_samples: find_pattern(CODE_FENCE_PATTERN, md),
    };
    score_signals(s)
}

/// The rank of a letter grade, from `F` (0) up to `A` (4).
pub open spec fn grade_rank(g: Seq<char>) -> int {
    if g == "A"@ {
        4
    } else if g == "B"@ {
        3
    } else if g == "C"@ {
        2
    } else if g == "D"@ {
        1
    } else {
        0
    }
}

proof fn lemma_grade_letters_distinct()
    ensures
        "A"@ != "B"@,
        "A"@ != "C"@,
        "A"@ != "D"@,
        "A"@ != "F"@,
        "B"@ != "C"@,
        "B"@ != "D"@,
        "B"@ != "F"@,
        "C"@ != "D"@,
        "C"@ != "F"@,
        "D"@ != "F"@,
{
    reveal_strlit("A");
    reveal_strlit("B");
    reveal_strlit("C");
    reveal_strlit("D");
    reveal_strlit("F");
    assert("A"@[0] != "B"@[0]);
    assert("A"@[0] != "C"@[0]);
    assert("A"@[0] != "D"@[0]);
    assert("A"@[0] != "F"@[0]);
    assert("B"@[0] != "C"@[0]);
    assert("B"@[0] != "D"@[0]);
    assert("B"@[0] != "F"@[0]);
    assert("C"@[0] != "D"@[0]);
    assert("C"@[0] != "F"@[0]);
    assert("D"@[0] != "F"@[0]);
}

/// More points out of the same maximum never earn a worse grade.
pub proof fn law_grade_monotone(lower: u32, higher: u32, max: u32)
    requires
        lower <= higher,
    ensures
        grade_rank(grade_of(lower, max)) <= grade_rank(grade_of(higher, max)),
{
    lemma_grade_letters_distinct();
}

/// Every README is scored out of exactly 100 points and earns between none and all of them.
pub proof fn law_score_out_of_hundred(s: ReadmeSignals)
    ensures
        score_view(s).max == 100,
        0 <= score_view(s).total <= 100,
        score_view(s).checks.len() == 9,
{
    lemma_rubric_weights(s);
}

/// A README earns all 100 points exactly when it passes every check.
pub proof fn law_full_marks_iff_every_check_passes(s: ReadmeSignals)
    ensures
        score_view(s).total == 100 <==> (s.non_empty && s.title && s.length && s.install && s.demo
            && s.badges && s.license && s.architecture && s.code_samples),
{
    lemma_rubric_weights(s);
    reveal_with_fuel(passed_weight, 10);
}

/// The summary praises the README exactly when no check failed; otherwise it starts with
/// `Improve: `.
pub proof fn law_summary_praises_iff_nothing_failed(checks: Seq<CheckView>)
    ensures
        (summary_text(checks) == "Excellent README coverage."@) <==> (forall|k: int|
            0 <= k < checks.len() ==> (#[trigger] checks[k]).passed),
{
    let p = |c: CheckView| !c.passed;
    reveal_strlit("Excellent README coverage.");
    reveal_strlit("Improve: ");
    broadcast use Seq::lemma_filter_contains;
    checks.lemma_filter_len(p);
    if failed_ids(checks).len() != 0 {
        assert(summary_text(checks)[0] != "Excellent README coverage."@[0]);
        let f = checks.filter(p);
        assert(f.len() > 0);
        checks.lemma_filter_pred(p, 0);
        checks.lemma_filter_contains_rev(p, f[0]);
        assert(checks.contains(f[0]));
        let k = choose|k: int| 0 <= k < checks.len() && checks[k] == f[0];
        assert(!checks[k].passed);
    } else {
        assert forall|k: int| 0 <= k < checks.len() implies (#[trigger] checks[k]).passed by {
            if !checks[k].passed {
                checks.lemma_filter_contains(p, k);
                assert(checks.filter(p).len() > 0);
            }
        }
    }
}

/// A README that is empty or only whitespace fails the presence and length checks.
pub proof fn law_blank_readme_fails_presence(md: Seq<char>)
    requires
        forall|i: int| 0 <= i < md.len() ==> crate::text::is_ws(#[trigger] md[i]),
    ensures
        !readme_signals(md).non_empty,
        !readme_signals(md).length,
{
    crate::text::lemma_blank_trims_to_nothing(md);
}

/// The grade looks only at the percentage: scaling points and maximum alike keeps it.
pub proof fn law_grade_depends_on_percentage_only(total: u32, max: u32, k: u32)
    requires
        k > 0,
        total * k <= u32::MAX,
        max * k <= u32::MAX,
    ensures
        grade_of((total * k) as u32, (max * k) as u32) == grade_of(total, max),
{
    let t = total as int;
    let m = max as int;
    let kk = k as int;
    assert forall|c: int| #![trigger (c * m)] 0 <= c ==> (100 * (t * kk) >= c * (m * kk) <==> 100 * t >= c * m) by {
        if 0 <= c {
            assert(100 * (t * kk) == (100 * t) * kk) by (nonlinear_arith);
            assert(c * (m * kk) == (c * m) * kk) by (nonlinear_arith);
            assert((100 * t) * kk >= (c * m) * kk <==> 100 * t >= c * m) by (nonlinear_arith)
                requires
                    kk > 0,
            ;
        }
    }
    assert(100 * (t * kk) >= 90 * (m * kk) <==> 100 * t >= 90 * m);
    assert(100 * (t * kk) >= 80 * (m * kk) <==> 100 * t >= 80 * m);
    assert(100 * (t * kk) >= 70 * (m * kk) <==> 100 * t >= 70 * m);
    assert(100 * (t * kk) >= 55 * (m * kk) <==> 100 * t >= 55 * m);
    assert((m * kk == 0) <==> (m == 0)) by (nonlinear_arith)
        requires
            kk > 0,
            m >= 0,
    ;
}

/// Appending text to a README never makes its presence or length check fail. (The other
/// checks are decided by the regular expressions, whose matching is not stated here.)
pub proof fn law_appending_keeps_presence_and_length(md: Seq<char>, more: Seq<char>)
    ensures
        readme_signals(md).non_empty ==> readme_signals(md + more).non_empty,
        readme_signals(md).length ==> readme_signals(md + more).length,
{
    crate::text::law_trimmed_grows_when_appending(md, more);
}

/// Each of the nine checks, in order, is decided by its own finding on the README: the
/// presence and length checks by the trimmed text, each other check by its own pattern;
/// a check that passes reports `ok`; the points are the weights of the passed checks.
pub proof fn law_each_check_decided_by_its_own_finding(md: Seq<char>)
    ensures
        ({
            let v = score_view(readme_signals(md));
            &&& v.checks.len() == 9
            &&& v.checks[0].id == "non_empty"@ && v.checks[0].weight == 10
            &&& (v.checks[0].passed <==> trimmed(md).len() > 0)
            &&& v.checks[1].id == "title"@ && v.checks[1].weight == 10
            &&& (v.checks[1].passed <==> regex_finds(HEADING_PATTERN@, md) == Some(true))
            &&& v.checks[2].id == "length"@ && v.checks[2].weight == 10
            &&& (v.checks[2].passed <==> trimmed(md).len() >= 400)
            &&& v.checks[3].id == "install"@ && v.checks[3].weight == 20
            &&& (v.checks[3].passed <==> regex_finds(INSTALL_PATTERN@, md) == Some(true))
            &&& v.checks[4].id == "demo"@ && v.checks[4].weight == 15
            &&& (v.checks[4].passed <==> regex_finds(DEMO_PATTERN@, md) == Some(true))
            &&& v.checks[5].id == "badges"@ && v.checks[5].weight == 10
            &&& (v.checks[5].passed <==> regex_finds(BADGE_PATTERN@, md) == Some(true))
            &&& v.checks[6].id == "license"@ && v.checks[6].weight == 10
            &&& (v.checks[6].passed <==> regex_finds(LICENSE_PATTERN@, md) == Some(true))
            &&& v.checks[7].id == "architecture"@ && v.checks[7].weight == 10
            &&& (v.checks[7].passed <==> regex_finds(ARCH_PATTERN@, md) == Some(true))
            &&& v.checks[8].id == "code_samples"@ && v.checks[8].weight == 5
            &&& (v.checks[8].passed <==> regex_finds(CODE_FENCE_PATTERN@, md) == Some(true))
            &&& forall|k: int| 0 <= k < 9 ==> (#[trigger] v.checks[k]).passed ==> v.checks[k].detail == "ok"@
            &&& v.max == 100
            &&& v.total == (if v.checks[0].passed { 10int } else { 0 }) + (if v.checks[1].passed { 10int } else { 0 })
                + (if v.checks[2].passed { 10int } else { 0 }) + (if v.checks[3].passed { 20int } else { 0 })
                + (if v.checks[4].passed { 15int } else { 0 }) + (if v.checks[5].passed { 10int } else { 0 })
                + (if v.checks[6].passed { 10int } else { 0 }) + (if v.checks[7].passed { 10int } else { 0 })
                + (if v.checks[8].passed { 5int } else { 0 })
        }),
{
    let s = readme_signals(md);
    lemma_rubric_weights(s);
    reveal_with_fuel(passed_weight, 10);
}

/// Whether the install check passes depends on the install pattern alone: two READMEs on
/// which that pattern agrees get the same install result, whatever else they hold (code
/// fences included).
pub proof fn law_install_check_follows_install_pattern(md1: Seq<char>, md2: Seq<char>)
    requires
        regex_finds(INSTALL_PATTERN@, md1) == regex_finds(INSTALL_PATTERN@, md2),
    ensures
        score_view(readme_signals(md1)).checks[3].passed == score_view(readme_signals(md2)).checks[3].passed,
{
    law_each_check_decided_by_its_own_finding(md1);
    law_each_check_decided_by_its_own_finding(md2);
}

/// The letter grade in terms of the percentage `100 * total / max`: A from 90, B from 80,
/// C from 70, D from 55, F below that, and F when there is nothing to score.
pub proof fn law_grade_by_percentage(total: u32, max: u32)
    ensures
        max == 0 ==> grade_of(total, max) == "F"@,
        max > 0 ==> (grade_of(total, max) == "A"@ <==> 10 * total >= 9 * max),
        max > 0 ==> (grade_of(total, max) == "B"@ <==> 10 * total < 9 * max && 5 * total >= 4 * max),
        max > 0 ==> (grade_of(total, max) == "C"@ <==> 5 * total < 4 * max && 10 * total >= 7 * max),
        max > 0 ==> (grade_of(total, max) == "D"@ <==> 10 * total < 7 * max && 20 * total >= 11 * max),
        max > 0 ==> (grade_of(total, max) == "F"@ <==> 20 * total < 11 * max),
{
    lemma_grade_letters_distinct();
}

} // verus!
