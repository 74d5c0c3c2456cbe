//! What holds of every classification.
use crate::git::branch::BranchView;
use crate::git::merged;
use crate::git::merged::{EvidenceView, PrCommit, ScannedCommit, TipView};
use crate::oid::Oid;
use crate::search;
use crate::text;
use vstd::prelude::*;

verus! {

/// The list holds a branch of that name on that side.
pub open spec fn lists(bs: Seq<BranchView>, remote: bool, name: Seq<char>) -> bool {
    exists|i: int| 0 <= i < bs.len() && (#[trigger] bs[i]).is_remote == remote && bs[i].name == name
}

proof fn lemma_named(bs: Seq<BranchView>, remote: bool, name: Seq<char>)
    ensures
        merged::named(bs, remote, name) is Some <==> lists(bs, remote, name),
        merged::named(bs, remote, name) matches Some(i) ==> 0 <= i < bs.len() && bs[i].is_remote == remote
            && bs[i].name == name && forall|j: int|
            0 <= j < i ==> !((#[trigger] bs[j]).is_remote == remote && bs[j].name == name),
{
    let p = |i: int| bs[i].is_remote == remote && bs[i].name == name;
    search::lemma_first_such_holds(bs.len() as int, p);
    match merged::named(bs, remote, name) {
        Some(i) => {
            assert(bs[i].is_remote == remote && bs[i].name == name);
            assert forall|j: int| 0 <= j < i implies !((#[trigger] bs[j]).is_remote == remote && bs[j].name == name) by {
                assert(!p(j));
            }
        },
        None => {
            if lists(bs, remote, name) {
                let i = choose|i: int|
                    0 <= i < bs.len() && (#[trigger] bs[i]).is_remote == remote && bs[i].name == name;
                assert(p(i));
            }
        },
    }
}

/// The trunk: a local `main` if there is one; without it a local `master`; without
/// either the remote `origin/main`, and without that `origin/master`. The
/// checked-out branch is the trunk only when none of the four is there, and there
/// is no trunk only when no branch is checked out either. Of several branches of
/// the same name the first counts.
pub proof fn law_trunk_is_main_then_master_then_origin_then_head(bs: Seq<BranchView>)
    ensures
        ({
            let main = lists(bs, false, "main"@);
            let master = lists(bs, false, "master"@);
            let origin_main = lists(bs, true, "origin/main"@);
            let origin_master = lists(bs, true, "origin/master"@);
            match merged::base_index(bs) {
                Some(i) => {
                    &&& 0 <= i < bs.len()
                    &&& main ==> !bs[i].is_remote && bs[i].name == "main"@
                    &&& !main && master ==> !bs[i].is_remote && bs[i].name == "master"@
                    &&& !main && !master && origin_main ==> bs[i].is_remote && bs[i].name == "origin/main"@
                    &&& !main && !master && !origin_main && origin_master ==> bs[i].is_remote && bs[i].name
                        == "origin/master"@
                    &&& !main && !master && !origin_main && !origin_master ==> bs[i].is_head
                    &&& forall|j: int|
                        0 <= j < i ==> !((#[trigger] bs[j]).is_remote == bs[i].is_remote && bs[j].name == bs[i].name
                            && bs[j].is_head == bs[i].is_head)
                },
                None => !main && !master && !origin_main && !origin_master && forall|j: int|
                    0 <= j < bs.len() ==> !(#[trigger] bs[j]).is_head,
            }
        }),
{
    lemma_named(bs, false, "main"@);
    lemma_named(bs, false, "master"@);
    lemma_named(bs, true, "origin/main"@);
    lemma_named(bs, true, "origin/master"@);
    lemma_head(bs);
}

proof fn lemma_head(bs: Seq<BranchView>)
    ensures
        match merged::head_branch(bs) {
            Some(h) => 0 <= h < bs.len() && bs[h].is_head && forall|j: int|
                0 <= j < h ==> !(#[trigger] bs[j]).is_head,
            None => forall|j: int| 0 <= j < bs.len() ==> !(#[trigger] bs[j]).is_head,
        },
{
    let p = |i: int| bs[i].is_head;
    search::lemma_first_such_holds(bs.len() as int, p);
    match merged::head_branch(bs) {
        Some(h) => {
            assert forall|j: int| 0 <= j < h implies !(#[trigger] bs[j]).is_head by {
                assert(!p(j));
            }
        },
        None => {
            assert forall|j: int| 0 <= j < bs.len() implies !(#[trigger] bs[j]).is_head by {
                assert(!p(j));
            }
        },
    }
}

proof fn lemma_with_remote(bs: Seq<BranchView>, name: Seq<char>, tips: Seq<Oid>)
    ensures
        ({
            let out = merged::with_remote(bs, name, tips);
            &&& tips.len() <= out.len() <= tips.len() + 1
            &&& forall|o: Oid| tips.contains(o) ==> #[trigger] out.contains(o)
            &&& tips.no_duplicates() ==> out.no_duplicates()
            &&& tips.len() > 0 ==> out[0] == tips[0]
            &&& lists(bs, true, name) ==> exists|i: int|
                0 <= i < bs.len() && (#[trigger] bs[i]).is_remote && bs[i].name == name && out.contains(bs[i].tip)
            &&& forall|o: Oid| #[trigger] out.contains(o) ==> tips.contains(o) || exists|i: int|
                0 <= i < bs.len() && (#[trigger] bs[i]).is_remote && bs[i].name == name && bs[i].tip == o
        }),
{
    let p = |i: int| bs[i].is_remote && bs[i].name == name && !tips.contains(bs[i].tip);
    search::lemma_first_such_holds(bs.len() as int, p);
    let out = merged::with_remote(bs, name, tips);
    match merged::new_remote(bs, name, tips) {
        Some(i) => {
            assert(out == tips.push(bs[i].tip));
            assert(out[tips.len() as int] == bs[i].tip);
            assert(out.contains(bs[i].tip));
            assert forall|o: Oid| tips.contains(o) implies #[trigger] out.contains(o) by {
                let k = choose|k: int| 0 <= k < tips.len() && tips[k] == o;
                assert(out[k] == o);
            }
        },
        None => {
            if lists(bs, true, name) {
                let i = choose|i: int|
                    0 <= i < bs.len() && (#[trigger] bs[i]).is_remote == true && bs[i].name == name;
                assert(!p(i));
            }
        },
    }
}

/// What is measured against: the trunk first; the branch you are on; a copy of
/// the trunk on `origin`, where the trunk's own name says no remote; and a copy of
/// the line you are on, under its upstream's name, or under `origin/` where it has
/// no upstream. Nothing else, and nothing twice.
pub proof fn law_trunk_tips(bs: Seq<BranchView>, base_tip: Oid, base: Seq<char>, o: Oid)
    ensures
        ({
            let tips = merged::trunk_tips(bs, base_tip, base);
            let head = |h: int|
                0 <= h < bs.len() && bs[h].is_head && forall|j: int| 0 <= j < h ==> !(#[trigger] bs[j]).is_head;
            let copied = |name: Seq<char>|
                exists|i: int| 0 <= i < bs.len() && (#[trigger] bs[i]).is_remote && bs[i].name == name && tips.contains(
                    bs[i].tip,
                );
            let from = |name: Seq<char>|
                exists|i: int| 0 <= i < bs.len() && (#[trigger] bs[i]).is_remote && bs[i].name == name && bs[i].tip == o;
            &&& tips.len() > 0 && tips[0] == base_tip
            &&& tips.no_duplicates()
            &&& tips.len() <= 4
            &&& !base.contains('/') && lists(bs, true, "origin/"@ + base) ==> copied("origin/"@ + base)
            &&& forall|h: int| #[trigger] head(h) ==> tips.contains(bs[h].tip) && (match bs[h].upstream {
                Some(u) => lists(bs, true, u) ==> copied(u),
                None => lists(bs, true, "origin/"@ + bs[h].name) ==> copied("origin/"@ + bs[h].name),
            })
            &&& tips.contains(o) ==> {
                ||| o == base_tip
                ||| !base.contains('/') && from("origin/"@ + base)
                ||| exists|h: int| #[trigger] head(h) && (o == bs[h].tip || (match bs[h].upstream {
                    Some(u) => from(u),
                    None => from("origin/"@ + bs[h].name),
                }))
            }
        }),
{
    text::law_find_char(base, '/');
    lemma_head(bs);
    let tips = merged::trunk_tips(bs, base_tip, base);
    let head = |h: int|
        0 <= h < bs.len() && bs[h].is_head && forall|j: int| 0 <= j < h ==> !(#[trigger] bs[j]).is_head;
    let start = seq![base_tip];
    assert(start[0] == base_tip);
    let first = if !base.contains('/') {
        merged::with_remote(bs, "origin/"@ + base, start)
    } else {
        start
    };
    lemma_with_remote(bs, "origin/"@ + base, start);
    assert forall|x: Oid| #[trigger] start.contains(x) implies x == base_tip by {}
    match merged::head_branch(bs) {
        Some(h) => {
            let second = if first.contains(bs[h].tip) {
                first
            } else {
                first.push(bs[h].tip)
            };
            assert(second.contains(bs[h].tip)) by {
                if !first.contains(bs[h].tip) {
                    assert(second[first.len() as int] == bs[h].tip);
                }
            }
            assert forall|x: Oid| first.contains(x) implies #[trigger] second.contains(x) by {
                let k = choose|k: int| 0 <= k < first.len() && first[k] == x;
                assert(second[k] == x);
            }
            lemma_with_remote(bs, merged::upstream_of(bs[h]), second);
            assert(head(h));
            assert forall|g: int| #[trigger] head(g) implies g == h by {
                if g < h {
                    assert(!bs[g].is_head);
                } else if h < g {
                    assert(!bs[h].is_head);
                }
            }
        },
        None => {},
    }
}

/// A branch as a forge names it: a remote one without the remote's name, which
/// holds no slash, a local one as it is.
pub proof fn law_forge_name(b: BranchView, remote: Seq<char>, rest: Seq<char>)
    requires
        !remote.contains('/'),
        b.name == remote + seq!['/'] + rest,
    ensures
        merged::forge_name(b) == (if b.is_remote {
            rest
        } else {
            b.name
        }),
{
    text::law_after_first(remote, '/', rest);
}

/// A copy of the trunk on any remote stays visible, as do the trunk, the branch
/// you are on, local branches called `main` or `master`, and whatever points
/// where a trunk points.
pub proof fn law_trunks_are_never_hidden(
    bs: Seq<BranchView>,
    e: EvidenceView,
    tips: Seq<Oid>,
    base: Seq<char>,
    gh: Set<Seq<char>>,
    b: BranchView,
    remote: Seq<char>,
)
    requires
        ({
            ||| b.is_head
            ||| b.name == base
            ||| tips.contains(b.tip)
            ||| !b.is_remote && (b.name == "main"@ || b.name == "master"@)
            ||| b.is_remote && !base.contains('/') && !remote.contains('/') && b.name == remote + seq!['/'] + base
        }),
    ensures
        !merged::merged_branch(b, bs, e, tips, base, gh),
{
    if b.is_remote && !base.contains('/') && !remote.contains('/') && b.name == remote + seq!['/'] + base {
        text::law_after_first(remote, '/', base);
        text::law_find_char(base, '/');
    }
}

/// A commit that brought the whole of a branch: one parent, the branch's own
/// patch-id, and nothing of the branch missing from it.
pub open spec fn brings(c: ScannedCommit, patch: Option<Oid>) -> bool {
    patch is Some && c.patch_id == patch && c.parent_count == 1 && c.contains_branch
}

/// A squash commit is found exactly if one of the four hundred newest commits of
/// the trunk since the fork point brings the whole branch; it is the newest such.
/// Unrelated histories have none, nor has a branch whose tip is the fork point.
pub proof fn law_squash_commit_is_the_newest_that_brings_the_branch(e: TipView, tip: Oid)
    ensures
        match e.squash_target(tip) {
            Some(o) => e.fork is Some && e.fork != Some(tip) && exists|i: int|
                0 <= i < e.walk.len() && i < 400 && (#[trigger] e.walk[i]).oid == o && brings(
                    e.walk[i],
                    e.branch_patch,
                ) && forall|j: int| 0 <= j < i ==> !brings(#[trigger] e.walk[j], e.branch_patch),
            None => e.fork is None || e.fork == Some(tip) || forall|i: int|
                0 <= i < e.walk.len() && i < 400 ==> !brings(#[trigger] e.walk[i], e.branch_patch),
        },
{
    if e.branch_patch is Some {
        let patch = e.branch_patch->0;
        let p = |i: int| merged::is_squash_commit(e.walk[i], patch);
        search::lemma_first_such_holds(e.scanned(), p);
        match search::first_such(e.scanned(), p) {
            Some(i) => {
                assert(brings(e.walk[i], e.branch_patch));
                assert forall|j: int| 0 <= j < i implies !brings(#[trigger] e.walk[j], e.branch_patch) by {
                    assert(!p(j));
                }
            },
            None => {
                assert forall|i: int| 0 <= i < e.walk.len() && i < 400 implies !brings(
                    #[trigger] e.walk[i],
                    e.branch_patch,
                ) by {
                    assert(!p(i));
                }
            },
        }
    }
}

/// A branch that is neither a trunk nor the one you are on, and that does not
/// merely lag its own line, is hidden if some trunk tip descends from it, by a
/// merge or a fast-forward.
pub proof fn law_merges_and_fast_forwards_are_found(
    bs: Seq<BranchView>,
    e: EvidenceView,
    tips: Seq<Oid>,
    base: Seq<char>,
    gh: Set<Seq<char>>,
    b: BranchView,
    k: int,
)
    requires
        !b.is_head,
        b.name != base,
        !tips.contains(b.tip),
        !b.is_remote,
        b.name != "main"@,
        b.name != "master"@,
        b.ahead > 0 || b.behind == 0,
        0 <= k < e.tips.len(),
        e.tips[k].descends,
    ensures
        merged::merged_branch(b, bs, e, tips, base, gh),
{
    assert(merged::landed_on(e.tips[k], b.tip, merged::lags(b, bs, e.descends)));
}

/// A branch whose whole diff one commit of a trunk brings is hidden, also when
/// its ref lags its upstream.
pub proof fn law_squashes_are_found(
    bs: Seq<BranchView>,
    e: EvidenceView,
    tips: Seq<Oid>,
    base: Seq<char>,
    gh: Set<Seq<char>>,
    b: BranchView,
    k: int,
    i: int,
)
    requires
        !b.is_head,
        b.name != base,
        !tips.contains(b.tip),
        !b.is_remote,
        b.name != "main"@,
        b.name != "master"@,
        0 <= k < e.tips.len(),
        e.tips[k].fork is Some,
        e.tips[k].fork != Some(b.tip),
        0 <= i < e.tips[k].walk.len(),
        i < 400,
        brings(e.tips[k].walk[i], e.tips[k].branch_patch),
    ensures
        merged::merged_branch(b, bs, e, tips, base, gh),
{
    law_squash_commit_is_the_newest_that_brings_the_branch(e.tips[k], b.tip);
    assert(merged::landed_on(e.tips[k], b.tip, merged::lags(b, bs, e.descends)));
}

/// A branch is hidden only for a reason: some trunk tip descends from it or forks
/// off at its very tip, some commit of a trunk brings its whole diff, or a pull
/// request of its name was merged and merging the branch into some trunk tip is
/// clean and changes nothing.
pub proof fn law_branches_are_hidden_for_a_reason(
    bs: Seq<BranchView>,
    e: EvidenceView,
    tips: Seq<Oid>,
    base: Seq<char>,
    gh: Set<Seq<char>>,
    b: BranchView,
)
    requires
        merged::merged_branch(b, bs, e, tips, base, gh),
    ensures
        exists|k: int|
            0 <= k < e.tips.len() && {
                let t = #[trigger] e.tips[k];
                ||| t.descends
                ||| t.fork == Some(b.tip)
                ||| exists|i: int| 0 <= i < t.walk.len() && i < 400 && brings(#[trigger] t.walk[i], t.branch_patch)
                ||| gh.contains(merged::forge_name(b)) && t.trial is Some && !(t.trial->0).conflicts && (
                t.trial->0).merged_tree == Some((t.trial->0).base_tree)
            },
{
    let stale = merged::lags(b, bs, e.descends);
    if exists|k: int| 0 <= k < e.tips.len() && merged::landed_on(#[trigger] e.tips[k], b.tip, stale) {
        let k = choose|k: int| 0 <= k < e.tips.len() && merged::landed_on(#[trigger] e.tips[k], b.tip, stale);
        let t = e.tips[k];
        law_squash_commit_is_the_newest_that_brings_the_branch(t, b.tip);
        assert(t.descends || t.fork == Some(b.tip) || t.squash_target(b.tip) is Some);
    } else {
        let k = choose|k: int| 0 <= k < e.tips.len() && (#[trigger] e.tips[k]).contained();
        assert(e.tips[k].trial is Some);
    }
}

/// A branch that is only behind its upstream, with nothing of its own, is hidden
/// for no ancestry: a trunk that descends from it, or forks off at its tip, says
/// only that the ref is old.
pub proof fn law_stale_refs_are_not_called_merged(
    bs: Seq<BranchView>,
    e: EvidenceView,
    tips: Seq<Oid>,
    base: Seq<char>,
    gh: Set<Seq<char>>,
    b: BranchView,
)
    requires
        !b.is_remote,
        b.ahead == 0,
        b.behind > 0,
        !gh.contains(b.name),
        forall|k: int, i: int|
            0 <= k < e.tips.len() && 0 <= i < e.tips[k].walk.len() ==> !brings(
                #[trigger] e.tips[k].walk[i],
                e.tips[k].branch_patch,
            ),
    ensures
        !merged::merged_branch(b, bs, e, tips, base, gh),
{
    assert forall|k: int| 0 <= k < e.tips.len() implies !merged::landed_on(#[trigger] e.tips[k], b.tip, true) by {
        law_squash_commit_is_the_newest_that_brings_the_branch(e.tips[k], b.tip);
    }
}

/// The same for a copy on a remote that a local branch of its name has moved on
/// from.
pub proof fn law_stale_copies_are_not_called_merged(
    bs: Seq<BranchView>,
    e: EvidenceView,
    tips: Seq<Oid>,
    base: Seq<char>,
    gh: Set<Seq<char>>,
    b: BranchView,
    remote: Seq<char>,
    own: int,
)
    requires
        b.is_remote,
        !remote.contains('/'),
        0 <= own < bs.len(),
        own < e.descends.len(),
        !bs[own].is_remote,
        b.name == remote + seq!['/'] + bs[own].name,
        bs[own].tip != b.tip,
        e.descends[own],
        !gh.contains(bs[own].name),
        forall|k: int, i: int|
            0 <= k < e.tips.len() && 0 <= i < e.tips[k].walk.len() ==> !brings(
                #[trigger] e.tips[k].walk[i],
                e.tips[k].branch_patch,
            ),
    ensures
        !merged::merged_branch(b, bs, e, tips, base, gh),
{
    law_forge_name(b, remote, bs[own].name);
    assert(merged::lags(b, bs, e.descends));
    assert forall|k: int| 0 <= k < e.tips.len() implies !merged::landed_on(#[trigger] e.tips[k], b.tip, true) by {
        law_squash_commit_is_the_newest_that_brings_the_branch(e.tips[k], b.tip);
    }
}

/// A merged pull request of a branch's name hides the branch exactly where the
/// content of the branch is in a trunk tip.
pub proof fn law_merged_pull_requests_need_the_content(
    bs: Seq<BranchView>,
    e: EvidenceView,
    tips: Seq<Oid>,
    base: Seq<char>,
    b: BranchView,
    k: int,
)
    requires
        !b.is_head,
        b.name != base,
        !tips.contains(b.tip),
        !b.is_remote,
        b.name != "main"@,
        b.name != "master"@,
        0 <= k < e.tips.len(),
        e.tips[k].trial is Some,
        !(e.tips[k].trial->0).conflicts,
        (e.tips[k].trial->0).merged_tree == Some((e.tips[k].trial->0).base_tree),
    ensures
        merged::merged_branch(b, bs, e, tips, base, set![b.name]),
{
    assert(e.tips[k].contained());
}

/// The link of a merged branch leads to a commit of a trunk that brings the whole
/// branch.
pub proof fn law_links_lead_to_squash_commits(
    bs: Seq<BranchView>,
    es: Seq<EvidenceView>,
    tips: Seq<Oid>,
    base: Seq<char>,
    gh: Set<Seq<char>>,
    n: nat,
    name: Seq<char>,
)
    requires
        n <= bs.len(),
        merged::merged_targets(bs, es, tips, base, gh, n).dom().contains(name),
    ensures
        exists|r: int, k: int, i: int|
            0 <= r < n && r < es.len() && bs[r].name == name && 0 <= k < es[r].tips.len() && 0 <= i
                < es[r].tips[k].walk.len() && brings(
                #[trigger] es[r].tips[k].walk[i],
                es[r].tips[k].branch_patch,
            ) && es[r].tips[k].walk[i].oid == merged::merged_targets(bs, es, tips, base, gh, n)[name],
    decreases n,
{
    let r = n - 1;
    let b = bs[r];
    let rest = merged::merged_targets(bs, es, tips, base, gh, (n - 1) as nat);
    if merged::merged_at(bs, es, tips, base, gh, r) && merged::first_target(es[r], b.tip) is Some && b.name == name {
        let p = |i: int| es[r].tips[i].squash_target(b.tip) is Some;
        search::lemma_first_such_holds(es[r].tips.len() as int, p);
        let k = search::first_such(es[r].tips.len() as int, p)->0;
        law_squash_commit_is_the_newest_that_brings_the_branch(es[r].tips[k], b.tip);
        let t = es[r].tips[k];
        let o = t.squash_target(b.tip)->0;
        let i = choose|i: int|
            0 <= i < t.walk.len() && i < 400 && (#[trigger] t.walk[i]).oid == o && brings(t.walk[i], t.branch_patch)
                && forall|j: int| 0 <= j < i ==> !brings(#[trigger] t.walk[j], t.branch_patch);
        assert(brings(es[r].tips[k].walk[i], es[r].tips[k].branch_patch));
    } else {
        law_links_lead_to_squash_commits(bs, es, tips, base, gh, (n - 1) as nat, name);
    }
}

/// A commit of a pull request counts as a base update exactly if it is among the
/// four hundred newest of the request's own, has at least two parents, and its
/// second one is the base's tip or below it.
pub proof fn law_base_updates_merge_the_base_in(walks: Seq<Seq<PrCommit>>, base_tip: Oid, oid: Oid)
    ensures
        merged::updates_base(walks, base_tip, oid) <==> exists|i: int, k: int|
            0 <= i < walks.len() && 0 <= k < walks[i].len() && k < 400 && {
                let c = #[trigger] walks[i][k];
                &&& c.oid == oid
                &&& c.parent_count >= 2
                &&& c.second_parent is Some
                &&& c.second_parent->0 == base_tip || c.second_on_base
            },
{
    if merged::updates_base(walks, base_tip, oid) {
        let (i, k) = choose|i: int, k: int|
            0 <= i < walks.len() && 0 <= k < walks[i].len() && k < merged::BASE_UPDATE_SCAN_LIMIT
                && (#[trigger] walks[i][k]).oid == oid && merged::is_base_update(walks[i][k], base_tip);
        assert(walks[i][k].oid == oid);
    }
}

/// The words of a trace: ids by their first seven digits, how far a tip is ahead
/// of the fork unless that is too far to look, and the tips one after the other.
pub proof fn law_words_of_a_trace(o: Oid, e: TipView, tips: Seq<Oid>, t: Oid)
    ensures
        merged::short(o).len() == 7,
        merged::short(o) == o.hex().subrange(0, 7),
        merged::yes_no(true) == "true"@,
        merged::yes_no(false) == "false"@,
        e.fork is None ==> merged::distance_text(e) == "-"@,
        e.fork is Some ==> (match e.distance {
            None => merged::distance_text(e) == "?"@,
            Some(n) => merged::distance_text(e) == (if n <= 400 {
                text::decimal(n as nat)
            } else {
                ">400 (CAP!)"@
            }),
        }),
        merged::listed(tips, 0).len() == 0,
        merged::listed(tips.push(t), tips.len() + 1) == (if tips.len() == 0 {
            merged::short(t)
        } else {
            merged::listed(tips, tips.len()) + ", "@ + merged::short(t)
        }),
{
    assert(o.hex().take(7) =~= o.hex().subrange(0, 7));
    lemma_listed(tips, t, tips.len());
}

proof fn lemma_listed(tips: Seq<Oid>, t: Oid, n: nat)
    requires
        n <= tips.len(),
    ensures
        merged::listed(tips.push(t), n) == merged::listed(tips, n),
    decreases n,
{
    if n > 0 {
        lemma_listed(tips, t, (n - 1) as nat);
    }
}

/// What a trunk tip says of a branch: that it landed by ancestry, unless the
/// branch is stale, and otherwise by a squash, if there is one.
pub proof fn law_verdict_of_a_tip(t: Oid, e: TipView, branch_tip: Oid, stale: bool)
    ensures
        e.descends && !stale ==> merged::tip_verdict(t, e, branch_tip, stale) == Some(
            "MERGED (ancestry into "@ + merged::short(t) + ")"@,
        ),
        !(e.descends && !stale) ==> (match e.squash_target(branch_tip) {
            Some(s) => merged::tip_verdict(t, e, branch_tip, stale) == Some(
                "MERGED (squash target "@ + merged::short(s) + ")"@,
            ),
            None => merged::tip_verdict(t, e, branch_tip, stale) is None,
        }),
{
}

/// The trace of a branch names the branch first. Of a branch that is never hidden
/// it gives the reason and nothing else; of any other it gives the verdict last.
pub proof fn law_trace_of_a_branch(
    out: Seq<char>,
    b: BranchView,
    bs: Seq<BranchView>,
    e: EvidenceView,
    tips: Seq<Oid>,
    base_name: Seq<char>,
    gh: Set<Seq<char>>,
)
    ensures
        ({
            let trace = merged::branch_trace(out, b, bs, e, tips, base_name, gh);
            let title = out + "\n"@ + (if b.is_remote { "remote"@ } else { "local "@ }) + " "@ + b.name + " @ "@
                + merged::short(b.tip) + "\n"@;
            let trunk = b.name == base_name || tips.contains(b.tip);
            let mirror = b.is_remote && merged::forge_name(b) == text::after_first(base_name, '/');
            let named = !b.is_remote && (b.name == "main"@ || b.name == "master"@);
            if b.is_head {
                trace == title + "  guard: checked-out HEAD — never classified\n"@
            } else if trunk {
                trace == title + "  guard: trunk / trunk tip — never classified\n"@
            } else if mirror {
                trace == title + "  guard: trunk mirror on another remote — never classified\n"@
            } else if named {
                trace == title + "  guard: trunk by name — never classified\n"@
            } else {
                ends_with(
                    trace,
                    "  => "@ + (match merged::verdict(b, bs, e, tips, gh) {
                        Some(v) => v,
                        None => "visible (not classified merged)"@,
                    }) + "\n"@,
                )
            }
        }),
{
    let trace = merged::branch_trace(out, b, bs, e, tips, base_name, gh);
    let verdict = match merged::verdict(b, bs, e, tips, gh) {
        Some(v) => v,
        None => "visible (not classified merged)"@,
    };
    let end = "  => "@ + verdict + "\n"@;
    let protected = b.is_head || b.name == base_name || tips.contains(b.tip) || (b.is_remote
        && merged::forge_name(b) == text::after_first(base_name, '/')) || (!b.is_remote && (b.name == "main"@
        || b.name == "master"@));
    if !protected {
        assert(trace.subrange(trace.len() - end.len(), trace.len() as int) =~= end);
    }
}

/// A text ends with another.
pub open spec fn ends_with(s: Seq<char>, end: Seq<char>) -> bool {
    end.len() <= s.len() && s.subrange(s.len() - end.len(), s.len() as int) == end
}

/// A branch is squashed into a trunk that it shares history with if the trunk
/// forks off at its very tip, or if one of the first four hundred commits of the
/// trunk since the fork is no merge, has the branch's patch and contains its work.
pub proof fn law_squashed_branches(e: TipView, tip: Oid)
    ensures
        e.fork is None ==> !e.squashed(tip),
        e.fork == Some(tip) ==> e.squashed(tip),
        e.fork is Some && e.fork != Some(tip) ==> (e.squashed(tip) <==> e.branch_patch is Some && exists|i: int|
            0 <= i < e.walk.len() && i < 400 && (#[trigger] e.walk[i]).parent_count == 1 && e.walk[i].patch_id
                == e.branch_patch && e.walk[i].contains_branch),
{
    if e.fork is Some && e.fork != Some(tip) && e.branch_patch is Some {
        let patch = e.branch_patch->0;
        let p = |i: int| merged::is_squash_commit(e.walk[i], patch);
        search::lemma_first_such_holds(e.scanned(), p);
        if e.landing() is Some {
            let i = search::first_such(e.scanned(), p)->0;
            assert(p(i));
            assert(e.walk[i].parent_count == 1);
        } else {
            assert forall|i: int| 0 <= i < e.walk.len() && i < 400 implies !((
            #[trigger] e.walk[i]).parent_count == 1 && e.walk[i].patch_id == e.branch_patch
                && e.walk[i].contains_branch) by {
                assert(!p(i));
            }
        }
    }
}

/// The content of a branch is in the trunk if a trial merge came out clean and
/// with the trunk's own tree.
pub proof fn law_contained_branches(e: TipView)
    ensures
        match e.trial {
            Some(t) => e.contained() == (!t.conflicts && t.merged_tree == Some(t.base_tree)),
            None => !e.contained(),
        },
{
}

/// A trace starts with the base, the tips that are tested and how many merged
/// requests are known; without a base it says so and nothing else.
pub proof fn law_start_of_a_trace(bs: Seq<BranchView>, es: Seq<EvidenceView>, gh: Set<Seq<char>>)
    ensures
        match merged::base_index(bs) {
            None => merged::trace_text(bs, es, gh)
                == "no base branch (no local/origin main or master, no HEAD) — nothing can be classified\n"@,
            Some(i) => {
                let tips = merged::trunk_tips(bs, bs[i].tip, bs[i].name);
                merged::trace_text(bs, es, gh) == merged::branch_traces(
                    "base: "@ + bs[i].name + " @ "@ + merged::short(bs[i].tip) + "\n"@ + "trunk tips tested: "@
                        + merged::listed(tips, tips.len()) + "\n"@ + "gh merged-PR heads known: "@
                        + text::decimal(gh.len()) + "\n"@,
                    bs,
                    es,
                    tips,
                    bs[i].name,
                    gh,
                    bs.len(),
                )
            },
        },
{
    assert(Seq::<char>::empty() + "base: "@ =~= "base: "@);
}

/// The squash commit that a branch is linked to is that of the first trunk tip
/// that has one for it.
pub proof fn law_the_first_squash_counts(e: EvidenceView, tip: Oid)
    ensures
        match merged::first_target(e, tip) {
            Some(o) => exists|i: int|
                0 <= i < e.tips.len() && (#[trigger] e.tips[i]).squash_target(tip) == Some(o) && forall|j: int|
                    0 <= j < i ==> (#[trigger] e.tips[j]).squash_target(tip) is None,
            None => forall|i: int| 0 <= i < e.tips.len() ==> (#[trigger] e.tips[i]).squash_target(tip) is None,
        },
{
    let p = |i: int| e.tips[i].squash_target(tip) is Some;
    search::lemma_first_such_holds(e.tips.len() as int, p);
    match search::first_such(e.tips.len() as int, p) {
        Some(i) => {
            assert(p(i));
            assert(e.tips[i].squash_target(tip) == merged::first_target(e, tip));
            assert forall|j: int| 0 <= j < i implies (#[trigger] e.tips[j]).squash_target(tip) is None by {
                assert(!p(j));
            }
        },
        None => {
            assert forall|i: int| 0 <= i < e.tips.len() implies (#[trigger] e.tips[i]).squash_target(
                tip,
            ) is None by {
                assert(!p(i));
            }
        },
    }
}

} // verus!
