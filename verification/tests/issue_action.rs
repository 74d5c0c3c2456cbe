use keifu::gh::Output;
use keifu::issue_action::{
    action_result, after_upload, attachment_args, attachment_uploader_available, body_with_attachment,
    edit_args, parse_created_issue_number, run_action, success_message, upload_attachment, uploader_args,
    ActionEvent, ActionStep, IssueAction, IssueActionRunner,
};

fn ran(success: bool, stdout: &str, stderr: &str) -> Result<Output, String> {
    Ok(Output { success, stdout: stdout.to_string(), stderr: stderr.to_string() })
}

fn create(body: &str, repository: Option<&str>, attachment: Option<&str>) -> IssueAction {
    IssueAction::Create {
        title: "t".to_string(),
        body: body.to_string(),
        repository: repository.map(|r| r.to_string()),
        attachment: attachment.map(|p| p.as_bytes().to_vec()),
    }
}

#[test]
fn create_args_include_title_and_body_file() {
    let a = IssueAction::Create {
        title: "Crash on open".to_string(),
        body: "steps".to_string(),
        repository: None,
        attachment: None,
    };
    assert_eq!(a.body(), Some("steps"));
    assert_eq!(
        a.build_args(Some("/tmp/keifu/issue-body.md")),
        vec![
            "issue",
            "create",
            "--title",
            "Crash on open",
            "--body-file",
            "/tmp/keifu/issue-body.md",
        ]
    );
}

#[test]
fn create_without_body_file_omits_flag() {
    let a = IssueAction::Create {
        title: "t".to_string(),
        body: String::new(),
        repository: None,
        attachment: None,
    };
    assert_eq!(a.build_args(None), vec!["issue", "create", "--title", "t"]);
    // Shell-special chars pass through untouched (never a shell).
    let tricky = IssueAction::Create {
        title: "fix: \"q\" & $VAR".to_string(),
        body: String::new(),
        repository: None,
        attachment: None,
    };
    assert_eq!(tricky.build_args(None)[3], "fix: \"q\" & $VAR");
}

#[test]
fn create_can_target_a_repository_independent_of_the_worktree() {
    let action = IssueAction::Create {
        title: "Keifu bug".to_string(),
        body: "steps".to_string(),
        repository: Some("xnmp/keifu".to_string()),
        attachment: None,
    };

    assert_eq!(
        action.build_args(Some("/tmp/body.md")),
        vec![
            "issue",
            "create",
            "--title",
            "Keifu bug",
            "--repo",
            "xnmp/keifu",
            "--body-file",
            "/tmp/body.md",
        ]
    );
}

#[test]
fn attachment_upload_uses_the_same_explicit_repository_target() {
    assert_eq!(
        attachment_args("/tmp/image.png", Some("xnmp/keifu")),
        vec!["image", "/tmp/image.png", "--repo", "xnmp/keifu"]
    );
    assert_eq!(
        attachment_args("/tmp/image.png", None),
        vec!["image", "/tmp/image.png"]
    );
}

#[test]
fn comment_args_include_number_and_body_file() {
    let a = IssueAction::Comment {
        number: 42,
        body: "a comment".to_string(),
    };
    assert_eq!(a.body(), Some("a comment"));
    assert_eq!(
        a.build_args(Some("/p")),
        vec!["issue", "comment", "42", "--body-file", "/p"]
    );
}

#[test]
fn edit_content_args_include_title_and_body_file() {
    let action = IssueAction::EditContent {
        number: 42,
        title: "Updated title".to_string(),
        body: "Updated body".to_string(),
    };
    assert_eq!(action.body(), Some("Updated body"));
    assert_eq!(
        action.build_args(Some("/tmp/body.md")),
        vec![
            "issue",
            "edit",
            "42",
            "--title",
            "Updated title",
            "--body-file",
            "/tmp/body.md",
        ]
    );
    assert_eq!(action.describe(), "Edit issue #42");
    assert_eq!(success_message(&action, ""), "Updated issue #42");
}

#[test]
fn close_and_reopen_take_no_body() {
    let close = IssueAction::Close { number: 7 };
    assert_eq!(close.body(), None);
    assert_eq!(close.build_args(Some("/p")), vec!["issue", "close", "7"]);

    let reopen = IssueAction::Reopen { number: 7 };
    assert_eq!(reopen.body(), None);
    assert_eq!(reopen.build_args(None), vec!["issue", "reopen", "7"]);
}

#[test]
fn edit_labels_emits_repeated_add_and_remove_flags() {
    let a = IssueAction::EditLabels {
        number: 3,
        add: vec!["bug".to_string(), "p1".to_string()],
        remove: vec!["wontfix".to_string()],
    };
    assert_eq!(a.body(), None);
    assert_eq!(
        a.build_args(None),
        vec![
            "issue",
            "edit",
            "3",
            "--add-label",
            "bug",
            "--add-label",
            "p1",
            "--remove-label",
            "wontfix",
        ]
    );
}

#[test]
fn edit_labels_add_only_and_remove_only() {
    let add_only = IssueAction::EditLabels {
        number: 1,
        add: vec!["x".to_string()],
        remove: vec![],
    };
    assert_eq!(
        add_only.build_args(None),
        vec!["issue", "edit", "1", "--add-label", "x"]
    );
    let remove_only = IssueAction::EditLabels {
        number: 1,
        add: vec![],
        remove: vec!["y".to_string()],
    };
    assert_eq!(
        remove_only.build_args(None),
        vec!["issue", "edit", "1", "--remove-label", "y"]
    );
    // No-op edit is just the bare command.
    let noop = IssueAction::EditLabels {
        number: 1,
        add: vec![],
        remove: vec![],
    };
    assert_eq!(noop.build_args(None), vec!["issue", "edit", "1"]);
}

#[test]
fn edit_assignees_uses_assignee_flags() {
    let a = IssueAction::EditAssignees {
        number: 9,
        add: vec!["alice".to_string(), "bob".to_string()],
        remove: vec!["carol".to_string()],
    };
    assert_eq!(
        a.build_args(None),
        vec![
            "issue",
            "edit",
            "9",
            "--add-assignee",
            "alice",
            "--add-assignee",
            "bob",
            "--remove-assignee",
            "carol",
        ]
    );
}

// ── describe / success message ───────────────────────────────────

#[test]
fn describe_gives_imperative_confirm_text() {
    assert_eq!(
        IssueAction::Close { number: 5 }.describe(),
        "Close issue #5"
    );
    assert_eq!(
        IssueAction::Reopen { number: 5 }.describe(),
        "Reopen issue #5"
    );
    assert_eq!(
        IssueAction::Create {
            title: "t".into(),
            body: String::new(),
            repository: None,
            attachment: None,
        }
        .describe(),
        "Create issue"
    );
}

#[test]
fn created_issue_number_parsing() {
    assert_eq!(
        parse_created_issue_number("https://github.com/o/r/issues/123\n"),
        Some(123)
    );
    assert_eq!(parse_created_issue_number("no url here"), None);
}

#[test]
fn success_messages_are_specific() {
    assert_eq!(
        success_message(
            &IssueAction::Create {
                title: "t".into(),
                body: String::new(),
                repository: None,
                attachment: None,
            },
            "https://github.com/o/r/issues/50\n"
        ),
        "Created issue #50"
    );
    assert_eq!(
        success_message(
            &IssueAction::Create {
                title: "t".into(),
                body: String::new(),
                repository: Some("xnmp/keifu".into()),
                attachment: None,
            },
            "https://github.com/xnmp/keifu/issues/51\n"
        ),
        "Created xnmp/keifu issue #51"
    );
    assert_eq!(
        success_message(&IssueAction::Close { number: 8 }, ""),
        "Closed issue #8"
    );
    assert_eq!(
        success_message(&IssueAction::Reopen { number: 8 }, ""),
        "Reopened issue #8"
    );
    assert_eq!(
        success_message(
            &IssueAction::Comment {
                number: 8,
                body: "hi".into()
            },
            ""
        ),
        "Commented on issue #8"
    );
    assert_eq!(
        success_message(
            &IssueAction::EditLabels {
                number: 8,
                add: vec![],
                remove: vec![]
            },
            ""
        ),
        "Updated labels on issue #8"
    );
}

#[test]
fn attachment_markdown_is_appended_without_extra_leading_space() {
    let image = "![clipboard-image.png](https://github.com/user-attachments/assets/id)";
    assert_eq!(body_with_attachment("", image), image);
    assert_eq!(
        body_with_attachment("Repro steps\n", image),
        format!("Repro steps\n\n{image}")
    );
}

#[test]
fn created_issue_number_edges() {
    assert_eq!(parse_created_issue_number("x/issues/"), None);
    assert_eq!(parse_created_issue_number("x/issues/7/issues/8"), Some(7));
    assert_eq!(parse_created_issue_number("x/issues/18446744073709551615"), Some(u64::MAX));
    assert_eq!(parse_created_issue_number("x/issues/18446744073709551616"), None);
    assert_eq!(parse_created_issue_number("x/issues/000000000000000000000012#c"), Some(12));
}

#[test]
fn every_action_is_described_and_reported() {
    let labels = IssueAction::EditLabels { number: 3, add: vec![], remove: vec![] };
    let people = IssueAction::EditAssignees { number: 3, add: vec![], remove: vec![] };
    let comment = IssueAction::Comment { number: 3, body: String::new() };
    assert_eq!(labels.describe(), "Edit labels on issue #3");
    assert_eq!(people.describe(), "Edit assignees on issue #3");
    assert_eq!(comment.describe(), "Comment on issue #3");
    assert_eq!(success_message(&people, ""), "Updated assignees on issue #3");
    assert_eq!(success_message(&create("", None, None), "nothing"), "Created issue");
    assert_eq!(success_message(&create("", Some("o/r"), None), "nothing"), "Created o/r issue");
}

#[test]
fn edits_repeat_their_flags() {
    let add = vec!["a".to_string(), "b".to_string()];
    let remove = vec!["c".to_string()];
    assert_eq!(
        edit_args(1, &add, "--plus", &remove, "--minus"),
        vec!["issue", "edit", "1", "--plus", "a", "--plus", "b", "--minus", "c"]
    );
}

#[test]
fn the_runner_performs_one_action_at_a_time() {
    let mut runner = IssueActionRunner::new();
    assert!(!runner.is_busy());
    assert!(runner.poll(ActionEvent::Died).is_none());
    assert!(runner.start());
    assert!(runner.is_busy());
    assert!(!runner.start(), "an action is in flight");
    assert!(runner.poll(ActionEvent::Pending).is_none());
    let action = IssueAction::Close { number: 5 };
    assert_eq!(
        runner.poll(ActionEvent::Done(action.clone(), Ok("done".to_string()))),
        Some((action, Ok("done".to_string())))
    );
    assert!(!runner.is_busy());
    assert!(runner.start());
    assert_eq!(
        runner.poll(ActionEvent::Died),
        Some((IssueAction::Close { number: 0 }, Err("issue action worker exited".to_string())))
    );
    assert!(!IssueActionRunner::default().is_busy());
}

#[test]
fn actions_without_an_attachment_are_sent_at_once() {
    assert!(matches!(run_action(&create("body", None, None), None), ActionStep::Send(Some(b)) if b == "body"));
    assert!(matches!(run_action(&IssueAction::Close { number: 1 }, None), ActionStep::Send(None)));
}

#[test]
fn attachments_are_uploaded_first() {
    let action = create("body", Some("o/r"), Some("/tmp/i.png"));
    assert!(
        matches!(run_action(&action, Some("/tmp/i.png")), ActionStep::Upload(args) if args == vec!["image", "/tmp/i.png", "--repo", "o/r"])
    );
    assert!(
        matches!(run_action(&action, None), ActionStep::Fail(e) if e == "Clipboard image path is not valid UTF-8")
    );
    let line = "![i](https://github.com/user-attachments/assets/1)";
    let printed = format!("uploading\n  {line}  \nsecond https://github.com/user-attachments/assets/2\n");
    assert!(
        matches!(after_upload(&action, ran(true, &printed, "")), ActionStep::Send(Some(b)) if b == format!("body\n\n{line}"))
    );
    assert!(matches!(after_upload(&action, Err("timeout".to_string())), ActionStep::Fail(e) if e == "timeout"));
}

#[test]
fn failed_uploads_say_why() {
    let hint = "Clipboard upload failed; install/configure gh-image (`gh extension install drogers0/gh-image`): ";
    assert_eq!(upload_attachment(ran(false, "", "no such command\nmore")), Err(format!("{hint}no such command")));
    assert_eq!(upload_attachment(ran(false, "", "")), Err(format!("{hint}gh image failed")));
    assert_eq!(
        upload_attachment(ran(true, "nothing here\n", "")),
        Err("gh image returned no GitHub attachment URL".to_string())
    );
}

#[test]
fn results_come_from_the_run() {
    assert_eq!(action_result(ran(true, "out", "err")), Ok("out".to_string()));
    assert_eq!(action_result(ran(false, "out", "err")), Err("err".to_string()));
    assert_eq!(action_result(ran(false, "out", "")), Err("gh action failed".to_string()));
    assert_eq!(action_result(Err("no gh".to_string())), Err("no gh".to_string()));
}

#[test]
fn the_uploader_is_looked_for() {
    assert_eq!(uploader_args(), vec!["image", "--help"]);
    assert!(attachment_uploader_available(&ran(true, "", "")));
    assert!(!attachment_uploader_available(&ran(false, "", "")));
    assert!(!attachment_uploader_available(&Err("no gh".to_string())));
}

#[test]
fn blank_bodies_give_way_to_the_attachment() {
    assert_eq!(body_with_attachment(" \n\t", "M"), "M");
    assert_eq!(body_with_attachment("  a  ", "M"), "  a\n\nM");
}

#[test]
fn bodies_are_no_arguments() {
    let one = IssueAction::Comment { number: 4, body: "one".to_string() };
    let two = IssueAction::Comment { number: 4, body: "two".to_string() };
    assert_eq!(one.build_args(Some("/f")), two.build_args(Some("/f")));
}
