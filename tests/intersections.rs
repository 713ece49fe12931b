use cargo_scout_lib::git::Section;
use cargo_scout_lib::linter::{Lint, Location};
use cargo_scout_lib::scout::{files_match, lines_in_range, lints_from_diff};

type TestSection = (&'static str, u32, u32);

fn lint_of(s: TestSection) -> Lint {
    Lint {
        message: String::new(),
        location: Location {
            path: String::from(s.0),
            lines: [s.1, s.2],
        },
    }
}

fn section_of(s: TestSection) -> Section {
    Section {
        file_name: String::from(s.0),
        line_start: s.1,
        line_end: s.2,
    }
}

fn in_range(lint_section: TestSection, git_section: TestSection) -> bool {
    lines_in_range(&lint_of(lint_section), &section_of(git_section))
}

#[test]
fn test_files_match() {
    let files_to_test = vec![
        (("foo.rs", 1, 10), ("foo.rs", 5, 12)),
        (("bar.rs", 1, 10), ("bar.rs", 5, 12)),
        (("foo/bar/baz.rs", 1, 10), ("foo/bar/baz.rs", 5, 12)),
        (("foo\\bar\\baz.rs", 1, 10), ("foo/bar/baz.rs", 9, 12)),
        (("foo/1.rs", 1, 10), ("foo/1.rs", 5, 12)),
    ];
    for (l, g) in files_to_test {
        assert!(
            files_match(&lint_of(l), &section_of(g)),
            "Expected files match for {} and {}",
            l.0,
            g.0
        );
    }
}

#[test]
fn test_files_dont_match() {
    let files_to_test = vec![
        (("foo.rs", 1, 10), ("foo1.rs", 5, 12)),
        (("bar.rs", 1, 10), ("baz.rs", 5, 12)),
        (("bar.rs", 1, 10), ("bar.js", 5, 12)),
        (("foo/bar/baz.rs", 1, 10), ("/foo/bar/baz.rs", 5, 12)),
        (("foo\\\\bar\\baz.rs", 1, 10), ("foo/bar/baz.rs", 9, 12)),
        (("foo/1.rs", 1, 10), ("foo/2.rs", 5, 12)),
    ];
    for (l, g) in files_to_test {
        assert!(
            !files_match(&lint_of(l), &section_of(g)),
            "Expected files not to match for {} and {}",
            l.0,
            g.0
        );
    }
}

#[test]
fn test_lines_in_range_simple() {
    let ranges_to_test = vec![
        (("foo.rs", 1, 10), ("foo.rs", 5, 12)),
        (("foo.rs", 1, 10), ("foo.rs", 5, 11)),
        (("foo.rs", 1, 10), ("foo.rs", 10, 19)),
        (("foo.rs", 1, 10), ("foo.rs", 9, 12)),
        (("foo.rs", 8, 16), ("foo.rs", 5, 12)),
    ];
    for (lint, section) in ranges_to_test {
        assert!(
            in_range(lint, section),
            "Expected in range, found not in range for {:?} and {:?}",
            lint,
            section
        );
    }
}

#[test]
fn test_lines_not_in_range_simple() {
    let ranges_to_test = vec![
        (("foo.rs", 1, 10), ("foo.rs", 11, 12)),
        (("foo.rs", 2, 10), ("foo.rs", 0, 1)),
        (("foo.rs", 15, 20), ("foo.rs", 21, 30)),
        (("foo.rs", 15, 20), ("foo.rs", 10, 14)),
        (("foo.rs", 1, 1), ("foo.rs", 2, 2)),
    ];
    for (lint, section) in ranges_to_test {
        assert!(
            !in_range(lint, section),
            "Expected not in range, found in range for {:?} and {:?}",
            lint,
            section
        );
    }
}

#[test]
fn backslashes_match_slashes() {
    assert!(files_match(
        &lint_of(("foo\\bar\\baz.rs", 1, 1)),
        &section_of(("foo/bar/baz.rs", 1, 1))
    ));
    assert!(!files_match(
        &lint_of(("foo.rs", 1, 1)),
        &section_of(("foo1.rs", 1, 1))
    ));
    assert!(files_match(
        &lint_of(("a\\b.rs", 1, 1)),
        &section_of(("a\\b.rs", 1, 1))
    ));
    assert!(!files_match(&lint_of(("Foo.rs", 1, 1)), &section_of(("foo.rs", 1, 1))));
}

#[test]
fn overlap_examples() {
    assert!(in_range(("f.rs", 1, 10), ("f.rs", 5, 12)));
    assert!(!in_range(("f.rs", 1, 10), ("f.rs", 11, 12)));
    assert!(in_range(("f.rs", 1, 10), ("f.rs", 10, 19)));
    assert!(in_range(("f.rs", 5, 5), ("f.rs", 5, 5)));
    assert!(in_range(("f.rs", 3, 4), ("f.rs", 0, 10)));
}

#[test]
fn only_findings_on_changed_lines_are_kept() {
    let lints = vec![
        Lint::new("foo/bar.rs".to_string(), 2, 2, "Test lint".to_string()),
        Lint::new(
            "foo/bar.rs".to_string(),
            12,
            22,
            "This lint is not in diff".to_string(),
        ),
    ];
    let diff = vec![section_of(("foo/bar.rs", 0, 10))];
    let kept = lints_from_diff(&lints, &diff);
    assert_eq!(
        vec![Lint::new("foo/bar.rs".to_string(), 2, 2, "Test lint".to_string())],
        kept
    );
}

#[test]
fn finding_in_two_changes_is_kept_once() {
    let lints = vec![Lint::new("a.rs".to_string(), 5, 20, "wide".to_string())];
    let diff = vec![section_of(("a.rs", 1, 6)), section_of(("a.rs", 18, 30))];
    let kept = lints_from_diff(&lints, &diff);
    assert_eq!(lints, kept);
}

#[test]
fn identical_findings_collapse() {
    let one = Lint::new("a.rs".to_string(), 5, 5, "same".to_string());
    let other = Lint::new("a.rs".to_string(), 5, 5, "different".to_string());
    let lints = vec![one.clone(), one.clone(), other.clone()];
    let diff = vec![section_of(("a.rs", 1, 6))];
    let kept = lints_from_diff(&lints, &diff);
    assert_eq!(vec![one, other], kept);
}

#[test]
fn findings_in_other_files_are_dropped() {
    let lints = vec![Lint::new("b.rs".to_string(), 5, 5, "m".to_string())];
    let diff = vec![section_of(("a.rs", 1, 6))];
    assert!(lints_from_diff(&lints, &diff).is_empty());
    assert!(lints_from_diff(&lints, &[]).is_empty());
    assert!(lints_from_diff(&[], &diff).is_empty());
}

#[test]
fn windows_paths_are_filtered_like_unix_ones() {
    let lints = vec![Lint::new("src\\main.rs".to_string(), 3, 3, "m".to_string())];
    let diff = vec![section_of(("src/main.rs", 1, 4))];
    assert_eq!(lints, lints_from_diff(&lints, &diff));
}
