//! Branches.
use crate::names::NameSet;
use crate::oid::Oid;
use crate::search;
use crate::sorting;
use crate::sorting::Ranked;
use crate::text;
use vstd::prelude::*;

verus! {

/// A local or remote-tracking branch.
#[derive(Debug)]
pub struct BranchInfo {
    pub name: String,
    pub is_head: bool,
    pub is_remote: bool,
    pub upstream: Option<String>,
    pub tip_oid: Oid,
    /// Commits this branch is ahead of its upstream (0 when no upstream).
    pub ahead: usize,
    /// Commits this branch is behind its upstream (0 when no upstream).
    pub behind: usize,
}

/// A branch as a mathematical value.
#[verifier::ext_equal]
pub struct BranchView {
    pub name: Seq<char>,
    pub is_head: bool,
    pub is_remote: bool,
    pub upstream: Option<Seq<char>>,
    pub tip: Oid,
    pub ahead: usize,
    pub behind: usize,
}

impl View for BranchInfo {
    type V = BranchView;

    open spec fn view(&self) -> BranchView {
        BranchView {
            name: self.name@,
            is_head: self.is_head,
            is_remote: self.is_remote,
            upstream: text::opt_text(self.upstream),
            tip: self.tip_oid,
            ahead: self.ahead,
            behind: self.behind,
        }
    }
}

/// A list of branches as mathematical values.
pub open spec fn branches_view(branches: Seq<BranchInfo>) -> Seq<BranchView> {
    branches.map_values(|b: BranchInfo| b@)
}

impl Clone for BranchInfo {
    fn clone(&self) -> (b: BranchInfo)
        ensures
            b@ == self@,
    {
        BranchInfo {
            name: self.name.clone(),
            is_head: self.is_head,
            is_remote: self.is_remote,
            upstream: text::clone_opt(&self.upstream),
            tip_oid: self.tip_oid,
            ahead: self.ahead,
            behind: self.behind,
        }
    }
}

/// A local branch as it was read. The name is `None` where it is no valid
/// text, the target where the branch points nowhere, and the distance where
/// the branch tracks no upstream that points anywhere.
#[derive(Debug)]
pub struct LocalBranch {
    pub name: Option<String>,
    pub target: Option<Oid>,
    pub upstream: Option<String>,
    pub distance: Option<(usize, usize)>,
}

/// A remote-tracking branch as it was read.
#[derive(Debug)]
pub struct RemoteBranch {
    pub name: Option<String>,
    pub target: Option<Oid>,
}

/// The branch a local record describes, where it has a name and a target. It
/// is HEAD's where HEAD is at its target under its name.
pub open spec fn local_view(b: LocalBranch, head_oid: Option<Oid>, head_name: Option<Seq<char>>) -> Option<
    BranchView,
> {
    match (b.name, b.target) {
        (Some(name), Some(tip)) => Some(
            BranchView {
                name: name@,
                is_head: head_oid == Some(tip) && head_name == Some(name@),
                is_remote: false,
                upstream: text::opt_text(b.upstream),
                tip,
                ahead: match b.distance {
                    Some(d) => d.0,
                    None => 0,
                },
                behind: match b.distance {
                    Some(d) => d.1,
                    None => 0,
                },
            },
        ),
        _ => None,
    }
}

/// The branch a remote record describes, where it has a name and a target.
pub open spec fn remote_view(b: RemoteBranch) -> Option<BranchView> {
    match (b.name, b.target) {
        (Some(name), Some(tip)) => Some(
            BranchView {
                name: name@,
                is_head: false,
                is_remote: true,
                upstream: None,
                tip,
                ahead: 0,
                behind: 0,
            },
        ),
        _ => None,
    }
}

/// The branches that local records describe.
pub open spec fn local_views(
    locals: Seq<LocalBranch>,
    head_oid: Option<Oid>,
    head_name: Option<Seq<char>>,
) -> Seq<BranchView>
    decreases locals.len(),
{
    if locals.len() == 0 {
        Seq::empty()
    } else {
        match local_view(locals.last(), head_oid, head_name) {
            Some(b) => local_views(locals.drop_last(), head_oid, head_name).push(b),
            None => local_views(locals.drop_last(), head_oid, head_name),
        }
    }
}

/// The branches that remote records describe.
pub open spec fn remote_views(remotes: Seq<RemoteBranch>) -> Seq<BranchView>
    decreases remotes.len(),
{
    if remotes.len() == 0 {
        Seq::empty()
    } else {
        match remote_view(remotes.last()) {
            Some(b) => remote_views(remotes.drop_last()).push(b),
            None => remote_views(remotes.drop_last()),
        }
    }
}

/// The order of branch labels: HEAD's branch, then local branches, then remote
/// ones, each alphabetically.
pub open spec fn label_le(a: BranchView, b: BranchView) -> bool {
    if a.is_head != b.is_head {
        a.is_head
    } else if a.is_remote != b.is_remote {
        b.is_remote
    } else {
        text::lex_le(a.name, b.name)
    }
}

impl Ranked for BranchInfo {
    open spec fn le(a: BranchView, b: BranchView) -> bool {
        label_le(a, b)
    }

    proof fn le_total(a: BranchView, b: BranchView) {
        text::lemma_lex_total(a.name, b.name);
    }

    proof fn le_transitive(a: BranchView, b: BranchView, c: BranchView) {
        if text::lex_le(a.name, b.name) && text::lex_le(b.name, c.name) {
            text::lemma_lex_transitive(a.name, b.name, c.name);
        }
    }

    fn not_after(&self, other: &BranchInfo) -> (yes: bool) {
        if self.is_head != other.is_head {
            self.is_head
        } else if self.is_remote != other.is_remote {
            other.is_remote
        } else {
            text::text_le(self.name.as_str(), other.name.as_str())
        }
    }
}

/// Put branches into the order of their labels. Branches that compare equal
/// keep their order.
pub fn sort_for_display(branches: &mut Vec<BranchInfo>)
    ensures
        branches_view(final(branches)@) == sorting::sorted::<BranchInfo>(branches_view(old(branches)@)),
{
    sorting::sort(branches);
    assert(branches_view(branches@) =~= sorting::views(branches@));
    assert(branches_view(old(branches)@) =~= sorting::views(old(branches)@));
}

fn push_branch(out: &mut Vec<BranchInfo>, b: BranchInfo)
    ensures
        branches_view(final(out)@) == branches_view(old(out)@).push(b@),
{
    out.push(b);
    assert(branches_view(out@) =~= branches_view(old(out)@).push(b@));
}

impl BranchInfo {
    /// All branches in the order of their labels. Branches without a readable
    /// name or a target are left out.
    pub fn list_all(
        head_oid: Option<Oid>,
        head_name: Option<&str>,
        locals: &[LocalBranch],
        remotes: &[RemoteBranch],
    ) -> (branches: Vec<BranchInfo>)
        ensures
            branches_view(branches@) == sorting::sorted::<BranchInfo>(
                local_views(
                    locals@,
                    head_oid,
                    match head_name {
                        Some(n) => Some(n@),
                        None => None,
                    },
                ) + remote_views(remotes@),
            ),
    {
        let ghost head = match head_name {
            Some(n) => Some(n@),
            None => None,
        };
        let mut out: Vec<BranchInfo> = Vec::new();
        let mut i: usize = 0;
        assert(locals@.take(0) =~= Seq::empty());
        assert(branches_view(out@) =~= Seq::empty());
        while i < locals.len()
            invariant
                0 <= i <= locals.len(),
                head == (match head_name {
                    Some(n) => Some(n@),
                    None => None,
                }),
                branches_view(out@) == local_views(locals@.take(i as int), head_oid, head),
            decreases locals.len() - i,
        {
            assert(locals@.take(i + 1).drop_last() =~= locals@.take(i as int));
            assert(locals@.take(i + 1).last() == locals@[i as int]);
            let b = &locals[i];
            if let Some(name) = &b.name {
                if let Some(tip) = b.target {
                    let at_head = match head_oid {
                        Some(h) => h == tip,
                        None => false,
                    };
                    let named_head = match head_name {
                        Some(h) => text::same_text(h, name.as_str()),
                        None => false,
                    };
                    let (ahead, behind): (usize, usize) = match b.distance {
                        Some(d) => d,
                        None => (0, 0),
                    };
                    push_branch(
                        &mut out,
                        BranchInfo {
                            name: name.clone(),
                            is_head: at_head && named_head,
                            is_remote: false,
                            upstream: text::clone_opt(&b.upstream),
                            tip_oid: tip,
                            ahead,
                            behind,
                        },
                    );
                }
            }
            i = i + 1;
        }
        assert(locals@.take(i as int) =~= locals@);
        let ghost first = branches_view(out@);
        let mut k: usize = 0;
        assert(remotes@.take(0) =~= Seq::empty());
        assert(first + Seq::empty() =~= first);
        while k < remotes.len()
            invariant
                0 <= k <= remotes.len(),
                branches_view(out@) == first + remote_views(remotes@.take(k as int)),
            decreases remotes.len() - k,
        {
            assert(remotes@.take(k + 1).drop_last() =~= remotes@.take(k as int));
            assert(remotes@.take(k + 1).last() == remotes@[k as int]);
            let b = &remotes[k];
            if let Some(name) = &b.name {
                if let Some(tip) = b.target {
                    push_branch(
                        &mut out,
                        BranchInfo {
                            name: name.clone(),
                            is_head: false,
                            is_remote: true,
                            upstream: None,
                            tip_oid: tip,
                            ahead: 0,
                            behind: 0,
                        },
                    );
                }
            }
            assert(branches_view(out@) =~= first + remote_views(remotes@.take(k + 1)));
            k = k + 1;
        }
        assert(remotes@.take(k as int) =~= remotes@);
        sort_for_display(&mut out);
        out
    }
}

/// Whether a commit is the tip of some local branch.
pub open spec fn is_local_tip(branches: Seq<BranchView>, tip: Oid) -> bool {
    exists|i: int| 0 <= i < branches.len() && !(#[trigger] branches[i]).is_remote && branches[i].tip == tip
}

/// A name that some remote branch has whose tip is no local branch's tip.
pub open spec fn is_remote_only(branches: Seq<BranchView>, name: Seq<char>) -> bool {
    exists|i: int|
        0 <= i < branches.len() && (#[trigger] branches[i]).is_remote && branches[i].name == name
            && !is_local_tip(branches, branches[i].tip)
}

fn tip_is_local(branches: &[BranchInfo], tip: Oid) -> (yes: bool)
    ensures
        yes == is_local_tip(branches_view(branches@), tip),
{
    let ghost all = branches_view(branches@);
    let mut i: usize = 0;
    while i < branches.len()
        invariant
            0 <= i <= branches.len(),
            all == branches_view(branches@),
            forall|j: int| 0 <= j < i ==> !(!(#[trigger] all[j]).is_remote && all[j].tip == tip),
        decreases branches.len() - i,
    {
        assert(all[i as int] == branches@[i as int]@);
        if !branches[i].is_remote && branches[i].tip_oid == tip {
            return true;
        }
        i = i + 1;
    }
    false
}

/// The remote branches whose commits no local branch already shows: those that
/// point at no local branch's tip. Hiding exactly these keeps every
/// remote-only commit out of the graph; a shared name or a configured upstream
/// is not enough to keep one.
pub fn remote_only_branch_names(branches: &[BranchInfo]) -> (names: NameSet)
    ensures
        forall|n: Seq<char>| #[trigger] names@.contains(n) <==> is_remote_only(branches_view(branches@), n),
{
    let ghost all = branches_view(branches@);
    let mut names = NameSet::new();
    let mut i: usize = 0;
    while i < branches.len()
        invariant
            0 <= i <= branches.len(),
            all == branches_view(branches@),
            forall|n: Seq<char>| #[trigger]
                names@.contains(n) <==> exists|j: int|
                    0 <= j < i && (#[trigger] all[j]).is_remote && all[j].name == n && !is_local_tip(
                        all,
                        all[j].tip,
                    ),
        decreases branches.len() - i,
    {
        let b = &branches[i];
        assert(all[i as int] == b@);
        let ghost before = names@;
        if b.is_remote && !tip_is_local(branches, b.tip_oid) {
            names.insert(b.name.clone());
        }
        assert forall|n: Seq<char>| #[trigger] names@.contains(n) <==> exists|j: int|
            0 <= j < i + 1 && (#[trigger] all[j]).is_remote && all[j].name == n && !is_local_tip(
                all,
                all[j].tip,
            ) by {
            if names@.contains(n) {
                if before.contains(n) {
                    let j = choose|j: int|
                        0 <= j < i && (#[trigger] all[j]).is_remote && all[j].name == n && !is_local_tip(
                            all,
                            all[j].tip,
                        );
                    assert(all[j].is_remote);
                } else {
                    assert(all[i as int].name == n);
                }
            }
        }
        i = i + 1;
    }
    names
}

/// The tips that are hidden to find the commits unique to a branch: those of
/// all branches with another name.
pub open spec fn other_tips(branches: Seq<BranchView>, name: Seq<char>) -> Seq<Oid>
    decreases branches.len(),
{
    if branches.len() == 0 {
        Seq::empty()
    } else {
        let before = other_tips(branches.drop_last(), name);
        if branches.last().name != name {
            before.push(branches.last().tip)
        } else {
            before
        }
    }
}

/// The tips to hide from a walk that is to show only what is unique to a
/// branch.
pub fn hidden_tips(branch: &BranchInfo, all: &[BranchInfo]) -> (tips: Vec<Oid>)
    ensures
        tips@ == other_tips(branches_view(all@), branch@.name),
{
    let ghost views = branches_view(all@);
    let mut tips: Vec<Oid> = Vec::new();
    let mut i: usize = 0;
    assert(views.take(0) =~= Seq::empty());
    while i < all.len()
        invariant
            0 <= i <= all.len(),
            views == branches_view(all@),
            tips@ == other_tips(views.take(i as int), branch@.name),
        decreases all.len() - i,
    {
        assert(views.take(i + 1).drop_last() =~= views.take(i as int));
        assert(views.take(i + 1).last() == all@[i as int]@);
        if !text::same_text(all[i].name.as_str(), branch.name.as_str()) {
            tips.push(all[i].tip_oid);
        }
        i = i + 1;
    }
    assert(views.take(i as int) =~= views);
    tips
}

/// The commit whose author a branch is attributed to: the oldest one unique to
/// it, or its tip where it has none of its own.
pub fn attributed_commit(branch: &BranchInfo, oldest_unique: Option<Oid>) -> (oid: Oid)
    ensures
        oid == match oldest_unique {
            Some(o) => o,
            None => branch.tip_oid,
        },
{
    match oldest_unique {
        Some(o) => o,
        None => branch.tip_oid,
    }
}

/// The entry at some place is that of a name.
pub open spec fn entry_of(list: Seq<(Seq<char>, Seq<char>)>, name: Seq<char>) -> spec_fn(int) -> bool {
    |i: int| list[i].0 == name
}

/// A list of names with their authors after one more: a name that is there gets
/// the new author, another one goes to the end.
pub open spec fn attributed(list: Seq<(Seq<char>, Seq<char>)>, name: Seq<char>, author: Seq<char>) -> Seq<
    (Seq<char>, Seq<char>),
> {
    match search::first_such(list.len() as int, entry_of(list, name)) {
        Some(i) => list.update(i, (name, author)),
        None => list.push((name, author)),
    }
}

/// The names of the first `n` branches, each once and with the author of the
/// last branch of that name; an author that is not known is empty.
pub open spec fn author_list(branches: Seq<BranchView>, authors: Seq<Option<String>>, n: int) -> Seq<
    (Seq<char>, Seq<char>),
>
    decreases n,
{
    if n <= 0 {
        Seq::empty()
    } else {
        attributed(
            author_list(branches, authors, n - 1),
            branches[n - 1].name,
            match text::opt_text(authors[n - 1]) {
                Some(a) => a,
                None => Seq::empty(),
            },
        )
    }
}

/// Names with authors as mathematical values.
pub open spec fn author_pairs(v: Seq<(String, String)>) -> Seq<(Seq<char>, Seq<char>)> {
    v.map_values(|p: (String, String)| (p.0@, p.1@))
}

/// The author of each branch, given the author of the commit it is attributed
/// to; empty where that commit or its author cannot be read. Of branches that
/// share a name the last one counts.
pub fn branch_authors(branches: &[BranchInfo], authors: &[Option<String>]) -> (pairs: Vec<(String, String)>)
    requires
        authors@.len() == branches@.len(),
    ensures
        author_pairs(pairs@) == author_list(branches_view(branches@), authors@, branches@.len() as int),
{
    let ghost views = branches_view(branches@);
    let mut pairs: Vec<(String, String)> = Vec::new();
    let mut n: usize = 0;
    assert(author_pairs(pairs@) =~= Seq::empty());
    while n < branches.len()
        invariant
            0 <= n <= branches.len(),
            authors@.len() == branches@.len(),
            views == branches_view(branches@),
            author_pairs(pairs@) == author_list(views, authors@, n as int),
        decreases branches.len() - n,
    {
        assert(views[n as int] == branches@[n as int]@);
        let author = match &authors[n] {
            Some(a) => a.clone(),
            None => String::new(),
        };
        attribute(&mut pairs, branches[n].name.clone(), author);
        n = n + 1;
    }
    pairs
}

fn attribute(pairs: &mut Vec<(String, String)>, name: String, author: String)
    ensures
        author_pairs(final(pairs)@) == attributed(author_pairs(old(pairs)@), name@, author@),
{
    let ghost list = author_pairs(pairs@);
    let ghost key = name@;
    let ghost value = author@;
    let ghost p = entry_of(list, key);
    let mut i: usize = 0;
    while i < pairs.len()
        invariant
            0 <= i <= pairs.len(),
            *pairs == *old(pairs),
            list == author_pairs(pairs@),
            key == name@,
            value == author@,
            p == entry_of(list, key),
            forall|j: int| 0 <= j < i ==> !#[trigger] p(j),
        decreases pairs.len() - i,
    {
        assert(list[i as int] == (pairs@[i as int].0@, pairs@[i as int].1@));
        if text::same_text(pairs[i].0.as_str(), name.as_str()) {
            proof {
                assert(p(i as int));
                search::lemma_first_such(list.len() as int, p, i as int);
            }
            pairs.set(i, (name, author));
            assert(author_pairs(pairs@) =~= list.update(i as int, (key, value)));
            return;
        }
        assert(!p(i as int));
        i = i + 1;
    }
    proof {
        search::lemma_no_such(list.len() as int, p);
    }
    pairs.push((name, author));
    assert(author_pairs(pairs@) =~= list.push((key, value)));
}

/// Every branch name has one author, that of the last branch of that name.
pub proof fn law_last_branch_of_a_name_counts(
    branches: Seq<BranchView>,
    authors: Seq<Option<String>>,
    n: int,
    k: int,
)
    requires
        0 <= k < n <= branches.len(),
        forall|j: int| k < j < n ==> (#[trigger] branches[j]).name != branches[k].name,
    ensures
        ({
            let list = author_list(branches, authors, n);
            let author = match text::opt_text(authors[k]) {
                Some(a) => a,
                None => Seq::empty(),
            };
            &&& list.contains((branches[k].name, author))
            &&& forall|i: int, j: int|
                0 <= i < list.len() && 0 <= j < list.len() && (#[trigger] list[i]).0 == (
                #[trigger] list[j]).0 ==> i == j
        }),
    decreases n,
{
    lemma_authors_distinct(branches, authors, n);
    let before = author_list(branches, authors, n - 1);
    let list = author_list(branches, authors, n);
    let name = branches[n - 1].name;
    let p = entry_of(before, name);
    search::lemma_first_such_holds(before.len() as int, p);
    if k == n - 1 {
        match search::first_such(before.len() as int, p) {
            Some(i) => {
                assert(list[i].0 == name);
            },
            None => {
                assert(list[before.len() as int].0 == name);
            },
        }
    } else {
        law_last_branch_of_a_name_counts(branches, authors, n - 1, k);
        let author = match text::opt_text(authors[k]) {
            Some(a) => a,
            None => Seq::empty(),
        };
        let at = choose|at: int| 0 <= at < before.len() && before[at] == (branches[k].name, author);
        assert(branches[n - 1].name != branches[k].name);
        assert(list[at] == before[at]);
    }
}

proof fn lemma_authors_distinct(branches: Seq<BranchView>, authors: Seq<Option<String>>, n: int)
    ensures
        forall|i: int, j: int|
            0 <= i < author_list(branches, authors, n).len() && 0 <= j < author_list(
                branches,
                authors,
                n,
            ).len() && (#[trigger] author_list(branches, authors, n)[i]).0 == (
            #[trigger] author_list(branches, authors, n)[j]).0 ==> i == j,
    decreases n,
{
    if n > 0 {
        lemma_authors_distinct(branches, authors, n - 1);
        let before = author_list(branches, authors, n - 1);
        let list = author_list(branches, authors, n);
        let name = branches[n - 1].name;
        let p = entry_of(before, name);
        search::lemma_first_such_holds(before.len() as int, p);
        assert forall|i: int, j: int|
            0 <= i < list.len() && 0 <= j < list.len() && (#[trigger] list[i]).0 == (
            #[trigger] list[j]).0 implies i == j by {
            match search::first_such(before.len() as int, p) {
                Some(at) => {
                    assert(before[i].0 == list[i].0);
                    assert(before[j].0 == list[j].0);
                },
                None => {
                    if i < before.len() && j < before.len() {
                        assert(before[i].0 == before[j].0);
                    } else if i < before.len() {
                        assert(!p(i));
                    } else if j < before.len() {
                        assert(!p(j));
                    }
                },
            }
        }
    }
}

/// The order of the labels does not depend on the order in which branches
/// were read, as long as no two branches compare equal both ways.
pub proof fn law_label_order_is_unique(a: Seq<BranchView>, b: Seq<BranchView>)
    requires
        a.to_multiset() == b.to_multiset(),
        forall|i: int, j: int|
            0 <= i < a.len() && 0 <= j < a.len() && label_le(#[trigger] a[i], #[trigger] a[j]) && label_le(
                a[j],
                a[i],
            ) ==> a[i] == a[j],
    ensures
        sorting::sorted::<BranchInfo>(a) == sorting::sorted::<BranchInfo>(b),
{
    sorting::law_sorting_orders_and_keeps_all::<BranchInfo>(a);
    sorting::law_sorting_orders_and_keeps_all::<BranchInfo>(b);
    let x = sorting::sorted::<BranchInfo>(a);
    let y = sorting::sorted::<BranchInfo>(b);
    lemma_members(a, x);
    sorting::lemma_ascending_unique::<BranchInfo>(x, y);
}

proof fn lemma_members(a: Seq<BranchView>, x: Seq<BranchView>)
    requires
        a.to_multiset() == x.to_multiset(),
        forall|i: int, j: int|
            0 <= i < a.len() && 0 <= j < a.len() && label_le(#[trigger] a[i], #[trigger] a[j]) && label_le(
                a[j],
                a[i],
            ) ==> a[i] == a[j],
    ensures
        forall|i: int, j: int|
            0 <= i < x.len() && 0 <= j < x.len() && label_le(#[trigger] x[i], #[trigger] x[j]) && label_le(
                x[j],
                x[i],
            ) ==> x[i] == x[j],
{
    assert forall|i: int, j: int|
        0 <= i < x.len() && 0 <= j < x.len() && label_le(#[trigger] x[i], #[trigger] x[j]) && label_le(
            x[j],
            x[i],
        ) implies x[i] == x[j] by {
        assert(x.contains(x[i]) && x.contains(x[j]));
        sorting::lemma_same_members(x, a, x[i]);
        sorting::lemma_same_members(x, a, x[j]);
        let p = choose|p: int| 0 <= p < a.len() && a[p] == x[i];
        let q = choose|q: int| 0 <= q < a.len() && a[q] == x[j];
        assert(label_le(a[p], a[q]));
    }
}

/// HEAD's branch comes first, then local branches, then remote ones; within a
/// group names ascend.
pub proof fn law_labels_are_grouped(s: Seq<BranchView>, i: int, j: int)
    requires
        0 <= i < j < sorting::sorted::<BranchInfo>(s).len(),
    ensures
        label_le(sorting::sorted::<BranchInfo>(s)[i], sorting::sorted::<BranchInfo>(s)[j]),
{
    sorting::law_sorting_orders_and_keeps_all::<BranchInfo>(s);
    assert(<BranchInfo as Ranked>::le(
        sorting::sorted::<BranchInfo>(s)[i],
        sorting::sorted::<BranchInfo>(s)[j],
    ));
}

/// With the remote-only branches hidden, every branch left points at a local
/// branch's tip, so no remote-only commit is walked.
pub proof fn law_hiding_remotes_leaves_local_tips(branches: Seq<BranchView>, i: int)
    requires
        0 <= i < branches.len(),
        !is_remote_only(branches, branches[i].name),
    ensures
        is_local_tip(branches, branches[i].tip),
{
    if !branches[i].is_remote {
        assert(!branches[i].is_remote && branches[i].tip == branches[i].tip);
    }
}

/// A local branch as it is shown: under its own name and tip, as HEAD's exactly
/// where HEAD is at that tip under that name, with its upstream and how far it is
/// ahead and behind. Without a name or a tip it is not shown.
pub proof fn law_local_branches(b: LocalBranch, head_oid: Option<Oid>, head_name: Option<Seq<char>>)
    ensures
        local_view(b, head_oid, head_name) is Some <==> b.name is Some && b.target is Some,
        local_view(b, head_oid, head_name) matches Some(v) ==> {
            &&& v.name == (b.name->0)@
            &&& v.tip == b.target->0
            &&& !v.is_remote
            &&& v.is_head <==> head_oid == b.target && head_name == Some(v.name)
            &&& b.upstream matches Some(u) ==> v.upstream == Some(u@)
            &&& b.upstream is None ==> v.upstream is None
            &&& b.distance matches Some(d) ==> v.ahead == d.0 && v.behind == d.1
            &&& b.distance is None ==> v.ahead == 0 && v.behind == 0
        },
{
}

/// A remote branch as it is shown: under its own name and tip, never as HEAD's.
pub proof fn law_remote_branches(b: RemoteBranch)
    ensures
        remote_view(b) is Some <==> b.name is Some && b.target is Some,
        remote_view(b) matches Some(v) ==> {
            &&& v.name == (b.name->0)@
            &&& v.tip == b.target->0
            &&& v.is_remote
            &&& !v.is_head
            &&& v.upstream is None
            &&& v.ahead == 0
            &&& v.behind == 0
        },
{
}

/// Every record that describes a branch gives one, in the order in which they
/// were read.
pub proof fn law_every_branch_is_read(
    locals: Seq<LocalBranch>,
    local: LocalBranch,
    remotes: Seq<RemoteBranch>,
    remote: RemoteBranch,
    head_oid: Option<Oid>,
    head_name: Option<Seq<char>>,
)
    ensures
        local_views(Seq::<LocalBranch>::empty(), head_oid, head_name).len() == 0,
        remote_views(Seq::<RemoteBranch>::empty()).len() == 0,
        match local_view(local, head_oid, head_name) {
            Some(v) => local_views(locals.push(local), head_oid, head_name) == local_views(
                locals,
                head_oid,
                head_name,
            ).push(v),
            None => local_views(locals.push(local), head_oid, head_name) == local_views(locals, head_oid, head_name),
        },
        match remote_view(remote) {
            Some(v) => remote_views(remotes.push(remote)) == remote_views(remotes).push(v),
            None => remote_views(remotes.push(remote)) == remote_views(remotes),
        },
{
    assert(locals.push(local).drop_last() =~= locals);
    assert(remotes.push(remote).drop_last() =~= remotes);
}

/// In the order of labels no branch stands before HEAD's, no remote branch before
/// a local one of the same kind, and names ascend within a group.
pub proof fn law_label_order(s: Seq<BranchView>, i: int, j: int)
    requires
        0 <= i < j < sorting::sorted::<BranchInfo>(s).len(),
    ensures
        ({
            let a = sorting::sorted::<BranchInfo>(s)[i];
            let b = sorting::sorted::<BranchInfo>(s)[j];
            &&& b.is_head ==> a.is_head
            &&& a.is_head == b.is_head && a.is_remote ==> b.is_remote
            &&& a.is_head == b.is_head && a.is_remote == b.is_remote ==> text::lex_le(a.name, b.name)
        }),
{
    law_labels_are_grouped(s, i, j);
}

/// A name is hidden with the remote-only branches exactly if some remote branch of
/// that name points where no local branch does.
pub proof fn law_remote_only_names(branches: Seq<BranchView>, name: Seq<char>)
    ensures
        is_remote_only(branches, name) <==> exists|i: int|
            0 <= i < branches.len() && (#[trigger] branches[i]).is_remote && branches[i].name == name && forall|j: int|
                0 <= j < branches.len() ==> (#[trigger] branches[j]).is_remote || branches[j].tip != branches[i].tip,
{
    if is_remote_only(branches, name) {
        let i = choose|i: int|
            0 <= i < branches.len() && (#[trigger] branches[i]).is_remote && branches[i].name == name && !is_local_tip(
                branches,
                branches[i].tip,
            );
        assert(branches[i].is_remote);
    }
    if exists|i: int|
        0 <= i < branches.len() && (#[trigger] branches[i]).is_remote && branches[i].name == name && forall|j: int|
            0 <= j < branches.len() ==> (#[trigger] branches[j]).is_remote || branches[j].tip != branches[i].tip {
        let i = choose|i: int|
            0 <= i < branches.len() && (#[trigger] branches[i]).is_remote && branches[i].name == name && forall|j: int|
                0 <= j < branches.len() ==> (#[trigger] branches[j]).is_remote || branches[j].tip != branches[i].tip;
        assert(!is_local_tip(branches, branches[i].tip));
    }
}

/// To find what is unique to a branch, exactly the tips of the branches with
/// another name are hidden.
pub proof fn law_tips_of_other_branches(branches: Seq<BranchView>, name: Seq<char>, tip: Oid)
    ensures
        other_tips(branches, name).contains(tip) <==> exists|i: int|
            0 <= i < branches.len() && (#[trigger] branches[i]).name != name && branches[i].tip == tip,
    decreases branches.len(),
{
    if branches.len() > 0 {
        let front = branches.drop_last();
        let before = other_tips(front, name);
        let last = branches.last();
        law_tips_of_other_branches(front, name, tip);
        if before.contains(tip) {
            let k = choose|k: int| 0 <= k < before.len() && before[k] == tip;
            assert(other_tips(branches, name)[k] == tip);
            let i = choose|i: int|
                0 <= i < front.len() && (#[trigger] front[i]).name != name && front[i].tip == tip;
            assert(branches[i] == front[i]);
        }
        if last.name != name {
            assert(other_tips(branches, name)[before.len() as int] == last.tip);
            assert(branches[branches.len() - 1] == last);
        }
        if exists|i: int| 0 <= i < branches.len() && (#[trigger] branches[i]).name != name && branches[i].tip == tip {
            let i = choose|i: int|
                0 <= i < branches.len() && (#[trigger] branches[i]).name != name && branches[i].tip == tip;
            if i < front.len() {
                assert(front[i] == branches[i]);
            }
        }
        if other_tips(branches, name).contains(tip) && !before.contains(tip) {
            let k = choose|k: int|
                0 <= k < other_tips(branches, name).len() && other_tips(branches, name)[k] == tip;
            if k < before.len() {
                assert(before[k] == tip);
            }
        }
    }
}

/// Every branch is listed under its name with an author, each name once, and of
/// branches that share a name the last one counts. Where an author is not known
/// nothing stands in its place.
pub proof fn law_authors_of_branches(branches: Seq<BranchView>, authors: Seq<Option<String>>, n: int)
    requires
        0 <= n <= branches.len(),
        n <= authors.len(),
    ensures
        ({
            let list = author_list(branches, authors, n);
            &&& forall|i: int, j: int|
                0 <= i < list.len() && 0 <= j < list.len() && (#[trigger] list[i]).0 == (
                #[trigger] list[j]).0 ==> i == j
            &&& forall|k: int| 0 <= k < list.len() ==> credited(branches, authors, n, #[trigger] list[k])
            &&& forall|i: int| 0 <= i < n ==> listed_as(list, (#[trigger] branches[i]).name)
        }),
    decreases n,
{
    if n > 0 {
        let was = author_list(branches, authors, n - 1);
        law_authors_of_branches(branches, authors, n - 1);
        let name = branches[n - 1].name;
        let author = match authors[n - 1] {
            Some(a) => a@,
            None => Seq::empty(),
        };
        let list = author_list(branches, authors, n);
        let p = entry_of(was, name);
        search::lemma_first_such_holds(was.len() as int, p);
        let at = match search::first_such(was.len() as int, p) {
            Some(i) => i,
            None => was.len() as int,
        };
        assert(list.len() == (if at < was.len() { was.len() } else { was.len() + 1 }));
        assert(list[at] == (name, author));
        assert forall|k: int| 0 <= k < was.len() && was[k].0 == name implies k == at by {
            assert(p(k));
            if at < was.len() {
                assert(p(at));
            }
        }
        assert forall|k: int| 0 <= k < list.len() implies credited(branches, authors, n, #[trigger] list[k]) by {
            if k == at {
                assert(named_last(branches, authors, n, n - 1, list[k]));
            } else {
                assert(list[k] == was[k]);
                assert(credited(branches, authors, n - 1, was[k]));
                let m = n - 1;
                let i = choose|i: int| named_last(branches, authors, m, i, was[k]);
                assert(named_last(branches, authors, n, i, list[k]));
            }
        }
        assert forall|i: int| 0 <= i < n implies listed_as(list, (#[trigger] branches[i]).name) by {
            if i < n - 1 {
                assert(listed_as(was, branches[i].name));
                let k = choose|k: int| 0 <= k < was.len() && (#[trigger] was[k]).0 == branches[i].name;
                if k == at {
                    assert(list[at].0 == branches[i].name);
                } else {
                    assert(list[k].0 == branches[i].name);
                }
            } else {
                assert(list[at].0 == name);
            }
        }
    }
}

/// A name is in a list.
pub open spec fn listed_as(list: Seq<(Seq<char>, Seq<char>)>, name: Seq<char>) -> bool {
    exists|k: int| 0 <= k < list.len() && (#[trigger] list[k]).0 == name
}

/// Branch `i` is the last of the first `n` with the name of an entry, whose author
/// is the branch's.
pub open spec fn named_last(
    branches: Seq<BranchView>,
    authors: Seq<Option<String>>,
    n: int,
    i: int,
    entry: (Seq<char>, Seq<char>),
) -> bool {
    &&& 0 <= i < n
    &&& branches[i].name == entry.0
    &&& forall|j: int| i < j < n ==> (#[trigger] branches[j]).name != entry.0
    &&& match authors[i] {
        Some(a) => entry.1 == a@,
        None => entry.1.len() == 0,
    }
}

/// An entry is that of the last branch with its name.
pub open spec fn credited(
    branches: Seq<BranchView>,
    authors: Seq<Option<String>>,
    n: int,
    entry: (Seq<char>, Seq<char>),
) -> bool {
    exists|i: int| named_last(branches, authors, n, i, entry)
}

} // verus!
