use devfolio_cli_rust::score::{grade, score_readme, summarize};
use devfolio_cli_rust::model::CheckResult;

#[test]
fn excellent_readme_scores_high() {
    let md = r#"# Devfolio

![ci](https://img.shields.io/badge/ci-passing-brightgreen)

## Install

```
cargo install --path .
```

## Demo

![demo](docs/demo.gif)

## Architecture

CLI → GitHub adapter → scoring domain → static emit.

## License

MIT License
"#;
    let s = score_readme(md);
    assert!(s.total >= 80, "got {}/{} {}", s.total, s.max, s.summary);
    assert!(s.grade == "A" || s.grade == "B");
}

#[test]
fn empty_readme_is_f() {
    let s = score_readme("");
    assert_eq!(s.total, 0);
    assert_eq!(s.grade, "F");
}

#[test]
fn partial_fails_install() {
    let s = score_readme("# Tiny\n\nShort readme without install demo or license.");
    assert!(s.checks.iter().any(|c| c.id == "non_empty" && c.passed));
    assert!(s.checks.iter().any(|c| c.id == "install" && !c.passed));
}

#[test]
fn table_driven_cases() {
    struct Case {
        name: &'static str,
        md: &'static str,
        want_min: u32,
        want_max: u32,
        must_pass: &'static [&'static str],
        must_fail: &'static [&'static str],
    }
    let cases = [
        Case {
            name: "empty",
            md: "",
            want_min: 0,
            want_max: 0,
            must_pass: &[],
            must_fail: &["non_empty", "install"],
        },
        Case {
            name: "title_only",
            md: "# Title\n",
            want_min: 10,
            want_max: 30,
            must_pass: &["non_empty", "title"],
            must_fail: &["install", "demo"],
        },
    ];
    for tc in cases {
        let s = score_readme(tc.md);
        assert!(
            s.total >= tc.want_min && s.total <= tc.want_max,
            "{}: score {} not in [{},{}]",
            tc.name,
            s.total,
            tc.want_min,
            tc.want_max
        );
        for id in tc.must_pass {
            assert!(
                s.checks.iter().any(|c| c.id == *id && c.passed),
                "{}: {} should pass",
                tc.name,
                id
            );
        }
        for id in tc.must_fail {
            assert!(
                s.checks.iter().any(|c| c.id == *id && !c.passed),
                "{}: {} should fail",
                tc.name,
                id
            );
        }
    }
}

#[test]
fn rubric_order_weights_and_details() {
    let s = score_readme("# Title\n");
    let ids: Vec<&str> = s.checks.iter().map(|c| c.id.as_str()).collect();
    assert_eq!(
        ids,
        vec!["non_empty", "title", "length", "install", "demo", "badges", "license", "architecture", "code_samples"]
    );
    let weights: Vec<u32> = s.checks.iter().map(|c| c.weight).collect();
    assert_eq!(weights, vec![10, 10, 10, 20, 15, 10, 10, 10, 5]);
    assert_eq!(s.max, 100);
    assert_eq!(s.total, 20);
    assert_eq!(s.grade, "F");
    assert_eq!(s.checks[0].detail, "ok");
    assert_eq!(s.checks[2].detail, "expand the README");
    assert_eq!(s.checks[2].label, "Adequate length (≥400 chars)");
    assert_eq!(
        s.summary,
        "Improve: length, install, demo, badges, license, architecture, code_samples"
    );
}

#[test]
fn blank_readme_fails_presence_and_length() {
    let s = score_readme(" \n\t\u{3000}\u{a0} ");
    assert!(!s.checks[0].passed);
    assert!(!s.checks[2].passed);
    assert_eq!(s.checks[0].detail, "file missing or empty");
}

#[test]
fn length_counts_trimmed_characters() {
    let mut md = String::from("   ");
    md.push_str(&"é".repeat(399));
    md.push_str("\n\n");
    assert!(!score_readme(&md).checks[2].passed);
    md.push('x');
    assert!(score_readme(&md).checks[2].passed);
}

#[test]
fn every_pattern_can_match() {
    let mut md = String::from(
        "# Title\n\n[![ci](https://img.shields.io/badge/ci-ok-green)](https://ci.example.com)\n\n## Getting started\n\n```\nnpm install x\n```\n\n## Screenshots\n\n![d](d.gif)\n\n## How it works\n\nflow\n\n## License\n\nMIT License\n",
    );
    while md.chars().count() < 420 {
        md.push_str(" word");
    }
    let s = score_readme(&md);
    assert!(s.checks.iter().all(|c| c.passed), "{}", s.summary);
    assert_eq!(s.total, 100);
    assert_eq!(s.grade, "A");
    assert_eq!(s.summary, "Excellent README coverage.");
}

#[test]
fn grade_thresholds() {
    assert_eq!(grade(0, 0), "F");
    assert_eq!(grade(90, 100), "A");
    assert_eq!(grade(89, 100), "B");
    assert_eq!(grade(80, 100), "B");
    assert_eq!(grade(79, 100), "C");
    assert_eq!(grade(70, 100), "C");
    assert_eq!(grade(69, 100), "D");
    assert_eq!(grade(55, 100), "D");
    assert_eq!(grade(54, 100), "F");
    assert_eq!(grade(9, 10), "A");
    assert_eq!(grade(11, 20), "D");
    assert_eq!(grade(7, 10), "C");
    assert_eq!(grade(120, 100), "A");
}

#[test]
fn grade_is_monotone_in_points() {
    let rank = |g: String| "FDCBA".find(g.as_str()).unwrap();
    for max in [1u32, 7, 20, 100] {
        for t in 0..max {
            assert!(rank(grade(t, max)) <= rank(grade(t + 1, max)));
        }
    }
}

#[test]
fn summary_lists_failed_ids() {
    let c = |id: &str, passed: bool| CheckResult {
        id: id.to_string(),
        label: String::new(),
        passed,
        weight: 1,
        detail: String::new(),
    };
    assert_eq!(summarize(&[]), "Excellent README coverage.");
    assert_eq!(summarize(&[c("a", true), c("b", true)]), "Excellent README coverage.");
    assert_eq!(summarize(&[c("a", false)]), "Improve: a");
    assert_eq!(summarize(&[c("a", false), c("b", true), c("c", false)]), "Improve: a, c");
}

#[test]
fn appending_keeps_presence_and_length() {
    let base = "  # Title\n".to_string() + &"x".repeat(400);
    for extra in ["", "   ", "\n\n# More", "tail"] {
        let before = score_readme(&base);
        let after = score_readme(&(base.clone() + extra));
        for i in [0usize, 2] {
            assert!(!before.checks[i].passed || after.checks[i].passed);
        }
    }
    let short = score_readme(" a ");
    let longer = score_readme(&(" a ".to_string() + &"b".repeat(398)));
    assert!(!short.checks[2].passed);
    assert!(longer.checks[2].passed);
}
