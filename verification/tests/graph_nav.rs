use keifu::git::branch::BranchInfo;
use keifu::git::graph::{GraphLayout, GraphNode};
use keifu::graph_nav::{filter_remote_duplicates, GraphNav};
use keifu::oid::Oid;

fn strings(xs: &[&str]) -> Vec<String> {
    xs.iter().map(|s| s.to_string()).collect()
}

#[test]
fn pairs_non_origin_remote_with_its_local_twin() {
    // `upstream/foo` is the remote twin of local `foo` -> deduped away;
    // `upstream/lonely` has no local twin -> kept.
    let names = strings(&["foo", "upstream/foo", "upstream/lonely"]);
    let remotes = strings(&["upstream"]);
    assert_eq!(
        filter_remote_duplicates(&names, &remotes),
        vec!["foo", "upstream/lonely"]
    );
}

#[test]
fn origin_dedup_still_works() {
    let names = strings(&["main", "origin/main", "origin/solo"]);
    let remotes = strings(&["origin"]);
    assert_eq!(
        filter_remote_duplicates(&names, &remotes),
        vec!["main", "origin/solo"]
    );
}

#[test]
fn local_branch_with_slash_is_not_treated_as_remote() {
    // No remote named `feature`, so `feature/x` is a local branch kept as-is.
    let names = strings(&["feature/x", "origin/main"]);
    let remotes = strings(&["origin"]);
    assert_eq!(
        filter_remote_duplicates(&names, &remotes),
        vec!["feature/x", "origin/main"]
    );
}

fn oid(n: u8) -> Oid {
    Oid::from_bytes(&[n; 20]).unwrap()
}

fn row(connector: bool, branches: &[&str], is_head: bool) -> GraphNode {
    GraphNode {
        commit: None,
        lane: 0,
        color_index: 0,
        branch_names: strings(branches),
        tag_names: Vec::new(),
        is_head,
        is_uncommitted: !connector,
        is_stash: false,
        stash_label: None,
        uncommitted_count: None,
        cells: Vec::new(),
        cell_oids: Vec::new(),
    }
}

fn layout() -> GraphLayout {
    GraphLayout {
        nodes: vec![
            row(false, &["main", "origin/main"], true),
            row(true, &[], false),
            row(false, &["topic"], false),
            row(false, &["origin/solo"], false),
        ],
        max_lane: 0,
    }
}

fn nav() -> GraphNav {
    let mut nav = GraphNav::new();
    nav.rebuild_branch_positions(&layout(), &strings(&["origin"]));
    nav
}

#[test]
fn moves_skip_connectors() {
    let layout = layout();
    let mut nav = nav();
    assert_eq!(nav.selected_index(), Some(0));
    nav.move_selection(&layout, 1);
    assert_eq!(nav.selected_index(), Some(2));
    nav.move_selection(&layout, -1);
    assert_eq!(nav.selected_index(), Some(0));
    nav.select_last(&layout);
    assert_eq!(nav.selected_index(), Some(3));
    nav.select_first(&layout);
    assert_eq!(nav.selected_index(), Some(0));
    assert!(nav.is_uncommitted_selected(&layout));
}

#[test]
fn labels_are_walked_in_order() {
    let mut nav = nav();
    let labels: Vec<(usize, &str)> = nav.branch_positions.iter().map(|p| (p.node, p.name.as_str())).collect();
    assert_eq!(labels, vec![(0, "main"), (2, "topic"), (3, "origin/solo")]);
    nav.jump_to_head(Some("topic"));
    assert_eq!(nav.selected_branch_name(), Some("topic"));
    nav.move_to_next_branch();
    assert_eq!(nav.selected_branch_name(), Some("origin/solo"));
    nav.move_to_prev_branch();
    assert_eq!(nav.selected_branch_name(), Some("topic"));
    let branches = vec![BranchInfo {
        name: "topic".to_string(),
        is_head: false,
        is_remote: false,
        upstream: None,
        tip_oid: oid(1),
        ahead: 0,
        behind: 0,
    }];
    assert_eq!(nav.selected_branch(&branches).unwrap().name, "topic");
    assert_eq!(nav.selected_node_branches(), vec!["topic"]);
}

#[test]
fn local_labels_come_before_remote_ones() {
    assert_eq!(
        filter_remote_duplicates(&strings(&["origin/x", "local"]), &strings(&["origin"])),
        vec!["local", "origin/x"]
    );
}
