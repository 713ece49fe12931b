use cargo_scout_lib::git::{Parser, Section, SectionBuilder};

fn section(file_name: &str, line_start: u32, line_end: u32) -> Section {
    Section {
        file_name: file_name.to_string(),
        line_start,
        line_end,
    }
}

#[test]
fn git_test_set_verbose() {
    let mut parser = Parser::new();
    assert_eq!(false, parser.verbose());

    let verbose_parser = parser.set_verbose(true);
    assert_eq!(true, verbose_parser.verbose());

    let quiet_parser = verbose_parser.set_verbose(false);
    assert_eq!(false, quiet_parser.verbose());
}

#[test]
fn test_empty_diff() {
    let diff = r#""#;
    let expected_sections: Vec<Section> = vec![];
    let parser = Parser::new();
    let actual_sections = parser.sections(diff);
    assert_eq!(expected_sections, actual_sections);
}

#[test]
fn hunk_with_counts() {
    let diff = "diff --git a/Cargo.toml b/Cargo.toml\n\
                index 1111111..2222222 100644\n\
                --- a/Cargo.toml\n\
                +++ b/Cargo.toml\n\
                @@ -33,6 +33,9 @@ version = \"0.1.0\"\n \
                context\n\
                +added\n";
    assert_eq!(
        vec![section("Cargo.toml", 33, 42)],
        Parser::new().sections(diff)
    );
}

#[test]
fn hunk_without_count() {
    let diff = "+++ b/src/lib.rs\n@@ -5 +5 @@\n-old\n+new\n";
    assert_eq!(vec![section("src/lib.rs", 5, 6)], Parser::new().sections(diff));
}

#[test]
fn several_files_and_hunks() {
    let diff = "--- a/src/clippy.rs\n\
                +++ b/src/clippy.rs\n\
                @@ -124,5 +124,5 @@ fn x()\n\
                -a\n\
                +b\n\
                --- a/src/git.rs\n\
                +++ b/src/git.rs\n\
                @@ -4,6 +4,7 @@ use std;\n\
                +c\n\
                @@ -114,6 +117,64 @@ impl Parser {\n\
                +d\n";
    assert_eq!(
        vec![
            section("src/clippy.rs", 124, 129),
            section("src/git.rs", 4, 11),
            section("src/git.rs", 117, 181),
        ],
        Parser::new().sections(diff)
    );
}

#[test]
fn crlf_line_endings() {
    let diff = "+++ b/a.rs\r\n@@ -1,2 +3,4 @@\r\n+x\r\n";
    assert_eq!(vec![section("a.rs", 3, 7)], Parser::new().sections(diff));
}

#[test]
fn hunk_before_any_file_is_dropped() {
    let diff = "@@ -1,2 +3,4 @@\n+++ b/a.rs\n@@ -1 +1,2 @@\n";
    assert_eq!(vec![section("a.rs", 1, 3)], Parser::new().sections(diff));
}

#[test]
fn malformed_headers_are_skipped() {
    let diff = "+++ b/a.rs\n\
                @@\n\
                @@ -1,2 +x,4 @@\n\
                @@ -1,2\n\
                @@ -1,2 +7,zz @@\n\
                @@ -1,2 +4294967295,1 @@\n\
                +++ nothing\n\
                @@ -1 +9,1 @@\n";
    assert_eq!(
        vec![section("a.rs", 7, 8), section("a.rs", 9, 10)],
        Parser::new().sections(diff)
    );
}

#[test]
fn parsing_twice_gives_the_same_sections() {
    let diff = "+++ b/x/y.rs\n@@ -10,3 +12,5 @@\n+a\n+++ b/z.rs\n@@ -1 +1 @@\n";
    let parser = Parser::new();
    let first = parser.sections(diff);
    let second = parser.sections(diff);
    assert_eq!(first, second);
    assert_eq!(2, first.len());
}

#[test]
fn builder_needs_every_part() {
    let mut b = SectionBuilder::new();
    b.file_name("f.rs".to_string());
    b.line_start(3);
    assert_eq!(None, b.build());

    let mut b = SectionBuilder::new();
    b.file_name("f.rs".to_string());
    b.line_start(3);
    b.line_end(9);
    assert_eq!(Some(section("f.rs", 3, 9)), b.build());
}
