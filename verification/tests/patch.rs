use keifu::git::patch::{
    extract_hunk_from_working_tree, render_hunk_patch, HunkPatch, LineOrigin, PatchLine, PatchLineKind, RawHunk,
    RawLine,
};

fn ctx(s: &str) -> PatchLine {
    PatchLine {
        kind: PatchLineKind::Context,
        content: s.to_string(),
    }
}
fn add(s: &str) -> PatchLine {
    PatchLine {
        kind: PatchLineKind::Addition,
        content: s.to_string(),
    }
}
fn del(s: &str) -> PatchLine {
    PatchLine {
        kind: PatchLineKind::Deletion,
        content: s.to_string(),
    }
}

#[test]
fn renders_headers_and_body_for_a_simple_hunk() {
    let hunk = HunkPatch {
        old_start: 1,
        old_lines: 3,
        new_start: 1,
        new_lines: 3,
        lines: vec![ctx("l1\n"), del("l2\n"), add("CHG\n"), ctx("l3\n")],
    };
    let patch = render_hunk_patch("src/foo.rs", &hunk);
    assert_eq!(
        patch,
        "--- a/src/foo.rs\n\
         +++ b/src/foo.rs\n\
         @@ -1,3 +1,3 @@\n\
         \x20l1\n\
         -l2\n\
         +CHG\n\
         \x20l3\n"
    );
}

#[test]
fn renders_a_hunk_taken_from_the_middle_of_a_file() {
    // A hunk whose start positions are well past line 1 (i.e. the second
    // hunk of a multi-hunk file) must carry those exact positions.
    let hunk = HunkPatch {
        old_start: 40,
        old_lines: 6,
        new_start: 42,
        new_lines: 7,
        lines: vec![
            ctx("a\n"),
            ctx("b\n"),
            ctx("c\n"),
            del("old\n"),
            add("new1\n"),
            add("new2\n"),
            ctx("d\n"),
            ctx("e\n"),
            ctx("f\n"),
        ],
    };
    let patch = render_hunk_patch("x.txt", &hunk);
    assert!(patch.contains("@@ -40,6 +42,7 @@\n"));
    assert!(patch.starts_with("--- a/x.txt\n+++ b/x.txt\n"));
}

#[test]
fn renders_pure_addition_hunk_at_file_start() {
    // Inserting at the very top of a file: old side is empty (0 lines).
    let hunk = HunkPatch {
        old_start: 0,
        old_lines: 0,
        new_start: 1,
        new_lines: 2,
        lines: vec![add("first\n"), add("second\n")],
    };
    let patch = render_hunk_patch("a", &hunk);
    assert_eq!(
        patch,
        "--- a/a\n+++ b/a\n@@ -0,0 +1,2 @@\n+first\n+second\n"
    );
}

#[test]
fn no_newline_on_both_sides_marks_the_context_line() {
    // Context line at EOF with no trailing newline (both sides).
    let hunk = HunkPatch {
        old_start: 1,
        old_lines: 3,
        new_start: 1,
        new_lines: 3,
        lines: vec![ctx("l1\n"), del("l2\n"), add("CHG\n"), ctx("l3")],
    };
    let patch = render_hunk_patch("f.txt", &hunk);
    assert!(patch.ends_with(" l3\n\\ No newline at end of file\n"));
}

#[test]
fn no_newline_on_new_side_only() {
    // Old side had a trailing newline; new side does not (LF removed).
    let hunk = HunkPatch {
        old_start: 1,
        old_lines: 3,
        new_start: 1,
        new_lines: 3,
        lines: vec![ctx("a\n"), ctx("b\n"), del("c\n"), add("c")],
    };
    let patch = render_hunk_patch("f.txt", &hunk);
    assert_eq!(
        patch,
        "--- a/f.txt\n+++ b/f.txt\n@@ -1,3 +1,3 @@\n a\n b\n-c\n+c\n\\ No newline at end of file\n"
    );
}

#[test]
fn no_newline_on_old_side_only() {
    // Old side lacked a trailing newline; new side adds one (LF added).
    let hunk = HunkPatch {
        old_start: 1,
        old_lines: 3,
        new_start: 1,
        new_lines: 3,
        lines: vec![ctx("x\n"), ctx("y\n"), del("z"), add("z\n")],
    };
    let patch = render_hunk_patch("f.txt", &hunk);
    assert_eq!(
        patch,
        "--- a/f.txt\n+++ b/f.txt\n@@ -1,3 +1,3 @@\n x\n y\n-z\n\\ No newline at end of file\n+z\n"
    );
}

#[test]
fn crlf_line_endings_pass_through_unchanged() {
    let hunk = HunkPatch {
        old_start: 1,
        old_lines: 3,
        new_start: 1,
        new_lines: 3,
        lines: vec![ctx("p\r\n"), del("q\r\n"), add("Q\r\n"), ctx("r\r\n")],
    };
    let patch = render_hunk_patch("h.txt", &hunk);
    assert_eq!(
        patch,
        "--- a/h.txt\n+++ b/h.txt\n@@ -1,3 +1,3 @@\n p\r\n-q\r\n+Q\r\n r\r\n"
    );
    // No spurious no-newline markers for CRLF lines.
    assert!(!patch.contains("No newline"));
}

#[test]
fn context_only_change_is_rendered_verbatim() {
    // Windows path separators are normalised to forward slashes.
    let hunk = HunkPatch {
        old_start: 5,
        old_lines: 2,
        new_start: 5,
        new_lines: 3,
        lines: vec![ctx("keep\n"), add("inserted\n"), ctx("tail\n")],
    };
    let patch = render_hunk_patch("dir\\sub\\file.rs", &hunk);
    assert!(patch.starts_with("--- a/dir/sub/file.rs\n+++ b/dir/sub/file.rs\n"));
    assert!(patch.contains(" keep\n+inserted\n tail\n"));
}

fn raw(origin: LineOrigin, content: &str) -> RawLine {
    RawLine { origin, content: content.to_string() }
}

#[test]
fn hunks_are_taken_by_index_without_notes() {
    let hunks = vec![
        RawHunk { old_start: 1, old_lines: 1, new_start: 1, new_lines: 1, lines: vec![] },
        RawHunk {
            old_start: 7,
            old_lines: 2,
            new_start: 8,
            new_lines: 2,
            lines: vec![
                raw(LineOrigin::Context, "a\n"),
                raw(LineOrigin::Deletion, "b"),
                raw(LineOrigin::Other, "\\ No newline at end of file\n"),
                raw(LineOrigin::Addition, "c\n"),
            ],
        },
    ];
    let hunk = extract_hunk_from_working_tree(Some(&hunks), 1).unwrap();
    assert_eq!((hunk.old_start, hunk.old_lines, hunk.new_start, hunk.new_lines), (7, 2, 8, 2));
    assert_eq!(
        render_hunk_patch("f", &hunk),
        "--- a/f\n+++ b/f\n@@ -7,2 +8,2 @@\n a\n-b\n\\ No newline at end of file\n+c\n"
    );
    assert!(extract_hunk_from_working_tree(Some(&hunks), 2).is_none());
    assert!(extract_hunk_from_working_tree(None, 0).is_none());
}
