use keifu::git::branch::BranchInfo;
use keifu::interval_fetch::FetchEvent;
use keifu::merged_branch_fetch::{
    fetch_merged_branches, merged_list_args, parse_merged_pr_list, ClassifyInput, GhMergedPr, MergedBranchFetch,
    MergedClassifier,
};
use keifu::names::NameSet;
use keifu::oid::Oid;
use serde_json::Value;

fn read_merged(json: &str) -> NameSet {
    let records: Option<Vec<GhMergedPr>> = serde_json::from_str::<Value>(json).ok().and_then(|v| {
        let rows = v.as_array()?.clone();
        rows.iter()
            .map(|r| Some(GhMergedPr { head_ref_name: r.get("headRefName")?.as_str()?.to_string() }))
            .collect()
    });
    parse_merged_pr_list(records.as_deref())
}

#[test]
fn parses_merged_head_refs() {
    let json = r#"[
        {"headRefName": "feat/x"},
        {"headRefName": "fix/y"}
    ]"#;
    let set = read_merged(json);
    assert_eq!(set.len(), 2);
    assert!(set.contains("feat/x"));
    assert!(set.contains("fix/y"));
}

#[test]
fn drops_blank_head_refs() {
    let json = r#"[{"headRefName": ""}, {"headRefName": "keep"}]"#;
    let set = read_merged(json);
    assert_eq!(set.len(), 1);
    assert!(set.contains("keep"));
}

#[test]
fn malformed_or_empty_json_yields_empty_set() {
    assert!(read_merged("not json").is_empty());
    assert!(read_merged("").is_empty());
    assert!(read_merged("[]").is_empty());
}

#[test]
fn merged_prs_are_listed_by_head() {
    assert_eq!(merged_list_args(), vec!["pr", "list", "--state", "merged", "--json", "headRefName", "--limit", "100"]);
    assert!(fetch_merged_branches(None).is_none());
    let rows = [GhMergedPr { head_ref_name: "x".to_string() }];
    assert!(fetch_merged_branches(Some(Some(&rows))).unwrap().contains("x"));
    assert!(fetch_merged_branches(Some(None)).unwrap().is_empty());
}

#[test]
fn a_failed_list_counts_as_empty() {
    let mut f = MergedBranchFetch::new();
    assert!(f.maybe_start(0));
    let r = f.poll(FetchEvent::Done(Err("no gh".to_string())), 1);
    assert!(r.unwrap().is_empty());
}

fn branch(name: &str, tip: u8) -> BranchInfo {
    BranchInfo {
        name: name.to_string(),
        is_head: false,
        is_remote: false,
        upstream: None,
        tip_oid: Oid::from_bytes(&[tip; 20]).unwrap(),
        ahead: 0,
        behind: 0,
    }
}

fn input(branches: Vec<BranchInfo>, gh: &[&str]) -> ClassifyInput {
    let gh: Vec<String> = gh.iter().map(|s| s.to_string()).collect();
    ClassifyInput {
        repo_path: "/repo".to_string(),
        base_name: "main".to_string(),
        base_tip: Oid::zero(),
        branches,
        gh_merged: NameSet::from_list(&gh),
    }
}

#[test]
fn fingerprints_ignore_order() {
    let one = input(vec![branch("a", 1), branch("b", 2)], &["x", "y"]);
    let two = input(vec![branch("b", 2), branch("a", 1)], &["y", "x"]);
    let other = input(vec![branch("a", 1), branch("b", 3)], &["x", "y"]);
    assert_eq!(one.signature(), two.signature());
    assert_ne!(one.signature(), other.signature());
}

#[test]
fn unchanged_inputs_are_classified_once() {
    let mut c = MergedClassifier::new();
    let one = input(vec![branch("a", 1)], &[]);
    assert!(c.maybe_start(&one));
    assert!(!c.maybe_start(&one), "in flight");
    assert!(c.poll(FetchEvent::Pending).is_none());
    assert!(c.poll(FetchEvent::Done(Ok(NameSet::new()))).is_some());
    assert!(!c.maybe_start(&one), "unchanged");
    assert!(c.maybe_start(&input(vec![branch("a", 2)], &[])));
    assert!(c.poll(FetchEvent::Died).is_none());
    assert!(c.maybe_start(&input(vec![branch("a", 2)], &[])), "a dead worker is retried");
}

#[test]
fn defaults_are_idle() {
    let mut fetch = MergedBranchFetch::default();
    assert!(fetch.maybe_start(0));
    let mut classifier = MergedClassifier::default();
    assert!(classifier.poll(FetchEvent::Pending).is_none());
}
