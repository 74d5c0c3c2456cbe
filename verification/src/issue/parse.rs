//! Issues out of what `gh` printed, once its JSON is decoded.
use vstd::prelude::*;
use vstd::string::*;

use crate::gh;
use crate::issue;
use crate::issue::{DetailView, InfoView, IssueComment, IssueDetail, IssueInfo, IssueLabel, IssueState};
use crate::text;

verus! {

/// A GitHub user.
#[derive(Debug)]
pub struct Actor {
    pub login: String,
}

/// A label.
#[derive(Debug)]
pub struct GhLabel {
    pub name: String,
    pub color: String,
}

/// A row of the issue list.
#[derive(Debug)]
pub struct GhIssue {
    pub number: u64,
    pub title: String,
    pub state: String,
    pub labels: Vec<GhLabel>,
    pub assignees: Vec<Actor>,
    pub author: Option<Actor>,
    pub updated_at: String,
    pub url: String,
}

/// A comment of an issue.
#[derive(Debug)]
pub struct GhComment {
    pub author: Option<Actor>,
    pub created_at: String,
    pub body: Option<String>,
}

/// Everything about one issue.
#[derive(Debug)]
pub struct GhIssueDetail {
    pub number: u64,
    pub title: String,
    pub state: String,
    pub state_reason: Option<String>,
    pub body: Option<String>,
    pub author: Option<Actor>,
    pub created_at: String,
    pub updated_at: String,
    pub labels: Vec<GhLabel>,
    pub assignees: Vec<Actor>,
    pub comments: Vec<GhComment>,
    pub url: String,
}

/// The login of a user, "ghost" where it is missing or empty.
pub open spec fn login_of(a: Option<Actor>) -> Seq<char> {
    match a {
        Some(a) => if a.login@.len() > 0 {
            a.login@
        } else {
            "ghost"@
        },
        None => "ghost"@,
    }
}

fn actor_login(a: &Option<Actor>) -> (s: String)
    ensures
        s@ == login_of(*a),
{
    match a {
        Some(a) => {
            if a.login.as_str().is_empty() {
                "ghost".to_owned()
            } else {
                a.login.clone()
            }
        },
        None => "ghost".to_owned(),
    }
}

/// Labels with their colours.
pub open spec fn labels_of(raw: Seq<GhLabel>) -> Seq<(Seq<char>, Seq<char>)> {
    raw.map_values(|l: GhLabel| (l.name@, l.color@))
}

fn labels_from(raw: &[GhLabel]) -> (labels: Vec<IssueLabel>)
    ensures
        issue::labels_view(labels@) == labels_of(raw@),
{
    let mut labels: Vec<IssueLabel> = Vec::new();
    let mut i: usize = 0;
    while i < raw.len()
        invariant
            0 <= i <= raw.len(),
            labels@.len() == i,
            forall|k: int| 0 <= k < i ==> (#[trigger] labels@[k])@ == (raw@[k].name@, raw@[k].color@),
        decreases raw.len() - i,
    {
        labels.push(IssueLabel { name: raw[i].name.clone(), color: raw[i].color.clone() });
        i = i + 1;
    }
    assert(issue::labels_view(labels@) =~= labels_of(raw@));
    labels
}

/// The logins of some users, leaving out empty ones.
pub open spec fn logins(raw: Seq<Actor>) -> Seq<Seq<char>>
    decreases raw.len(),
{
    if raw.len() == 0 {
        Seq::empty()
    } else if raw.last().login@.len() > 0 {
        logins(raw.drop_last()).push(raw.last().login@)
    } else {
        logins(raw.drop_last())
    }
}

fn assignees_from(raw: &[Actor]) -> (names: Vec<String>)
    ensures
        text::texts(names@) == logins(raw@),
{
    let mut names: Vec<String> = Vec::new();
    let mut i: usize = 0;
    assert(raw@.take(0) =~= Seq::empty());
    assert(text::texts(names@) =~= Seq::empty());
    while i < raw.len()
        invariant
            0 <= i <= raw.len(),
            text::texts(names@) == logins(raw@.take(i as int)),
        decreases raw.len() - i,
    {
        assert(raw@.take(i + 1).drop_last() =~= raw@.take(i as int));
        assert(raw@.take(i + 1).last() == raw@[i as int]);
        if !raw[i].login.as_str().is_empty() {
            let ghost before = names@;
            names.push(raw[i].login.clone());
            assert(text::texts(names@) =~= text::texts(before).push(raw@[i as int].login@));
        }
        i = i + 1;
    }
    assert(raw@.take(i as int) =~= raw@);
    names
}

/// The row that a record describes.
pub open spec fn info_of(r: GhIssue) -> InfoView {
    InfoView {
        number: r.number,
        title: r.title@,
        state: IssueState::named(r.state@),
        labels: labels_of(r.labels@),
        assignees: logins(r.assignees@),
        author: login_of(r.author),
        updated_at: r.updated_at@,
        url: r.url@,
    }
}

/// The issue list, given the decoded records or the decoder's message.
pub fn parse_issue_list(records: Result<Vec<GhIssue>, String>) -> (r: Result<Vec<IssueInfo>, String>)
    ensures
        match records {
            Ok(list) => r is Ok && issue::infos_view((r->Ok_0)@) == list@.map_values(|i: GhIssue| info_of(i)),
            Err(e) => r is Err && (r->Err_0)@ == e@,
        },
{
    let records = match records {
        Err(e) => {
            return Err(e);
        },
        Ok(list) => list,
    };
    let mut list: Vec<IssueInfo> = Vec::new();
    let mut i: usize = 0;
    while i < records.len()
        invariant
            0 <= i <= records.len(),
            list@.len() == i,
            forall|k: int| 0 <= k < i ==> (#[trigger] list@[k])@ == info_of(records@[k]),
        decreases records.len() - i,
    {
        let r = &records[i];
        list.push(
            IssueInfo {
                number: r.number,
                title: r.title.clone(),
                state: IssueState::from_str(r.state.as_str()),
                labels: labels_from(r.labels.as_slice()),
                assignees: assignees_from(r.assignees.as_slice()),
                author: actor_login(&r.author),
                updated_at: r.updated_at.clone(),
                url: r.url.clone(),
            },
        );
        i = i + 1;
    }
    assert(issue::infos_view(list@) =~= records@.map_values(|i: GhIssue| info_of(i)));
    Ok(list)
}

/// A text, empty where it is missing.
pub open spec fn or_empty(s: Option<String>) -> Seq<char> {
    match s {
        Some(t) => t@,
        None => Seq::empty(),
    }
}

fn clone_or_empty(s: &Option<String>) -> (t: String)
    ensures
        t@ == or_empty(*s),
{
    match s {
        Some(t) => t.clone(),
        None => String::new(),
    }
}

/// The comment that a record describes.
pub open spec fn comment_of(c: GhComment) -> (Seq<char>, Seq<char>, Seq<char>) {
    (login_of(c.author), c.created_at@, or_empty(c.body))
}

/// The issue that a record describes. An empty reason is none.
pub open spec fn detail_of(r: GhIssueDetail) -> DetailView {
    DetailView {
        number: r.number,
        title: r.title@,
        state: IssueState::named(r.state@),
        state_reason: match r.state_reason {
            Some(t) => if t@.len() > 0 {
                Some(t@)
            } else {
                None
            },
            None => None,
        },
        body: or_empty(r.body),
        author: login_of(r.author),
        created_at: r.created_at@,
        updated_at: r.updated_at@,
        labels: labels_of(r.labels@),
        assignees: logins(r.assignees@),
        comments: r.comments@.map_values(|c: GhComment| comment_of(c)),
        url: r.url@,
    }
}

/// One issue, given the decoded record or the decoder's message.
pub fn parse_issue_detail(record: Result<GhIssueDetail, String>) -> (r: Result<IssueDetail, String>)
    ensures
        match record {
            Ok(d) => r is Ok && (r->Ok_0)@ == detail_of(d),
            Err(e) => r is Err && (r->Err_0)@ == e@,
        },
{
    let d = match record {
        Err(e) => {
            return Err(e);
        },
        Ok(d) => d,
    };
    let mut comments: Vec<IssueComment> = Vec::new();
    let mut i: usize = 0;
    while i < d.comments.len()
        invariant
            0 <= i <= d.comments.len(),
            comments@.len() == i,
            forall|k: int| 0 <= k < i ==> (#[trigger] comments@[k])@ == comment_of(d.comments@[k]),
        decreases d.comments.len() - i,
    {
        let c = &d.comments[i];
        comments.push(
            IssueComment {
                author: actor_login(&c.author),
                created_at: c.created_at.clone(),
                body: clone_or_empty(&c.body),
            },
        );
        i = i + 1;
    }
    assert(issue::comments_view(comments@) =~= d.comments@.map_values(|c: GhComment| comment_of(c)));
    let state_reason = match &d.state_reason {
        Some(t) => if t.as_str().is_empty() {
            None
        } else {
            Some(t.clone())
        },
        None => None,
    };
    Ok(
        IssueDetail {
            number: d.number,
            title: d.title.clone(),
            state: IssueState::from_str(d.state.as_str()),
            state_reason,
            body: clone_or_empty(&d.body),
            author: actor_login(&d.author),
            created_at: d.created_at.clone(),
            updated_at: d.updated_at.clone(),
            labels: labels_from(d.labels.as_slice()),
            assignees: assignees_from(d.assignees.as_slice()),
            comments,
            url: d.url.clone(),
        },
    )
}

/// The label list, given the decoded records or the decoder's message.
pub fn parse_label_list(records: Result<Vec<GhLabel>, String>) -> (r: Result<Vec<IssueLabel>, String>)
    ensures
        match records {
            Ok(list) => r is Ok && issue::labels_view((r->Ok_0)@) == labels_of(list@),
            Err(e) => r is Err && (r->Err_0)@ == e@,
        },
{
    match records {
        Err(e) => Err(e),
        Ok(list) => Ok(labels_from(list.as_slice())),
    }
}

/// What a run of `gh` means: its output parsed where it succeeded, else the
/// message it printed, or one that names it.
pub fn parse_output<T>(
    out: Result<gh::Output, String>,
    parse: impl FnOnce(&str) -> Result<T, String>,
    what: &str,
) -> (r: Result<T, String>)
    requires
        forall|s: &str| #[trigger] call_requires(parse, (s,)),
    ensures
        match out {
            Err(e) => r is Err && (r->Err_0)@ == e@,
            Ok(o) => if o.success {
                exists|s: &str| s@ == o.stdout@ && #[trigger] call_ensures(parse, (s,), r)
            } else {
                r is Err && (r->Err_0)@ == gh::failure(o.stderr@, what@ + " failed"@)
            },
        },
{
    let out = match out {
        Err(e) => {
            return Err(e);
        },
        Ok(o) => o,
    };
    if out.success {
        let text = out.stdout.as_str();
        let r = parse(text);
        assert(text@ == out.stdout@ && call_ensures(parse, (text,), r));
        r
    } else {
        let mut fallback = what.to_owned();
        fallback.append(" failed");
        Err(gh::failure_text(&out.stderr, fallback.as_str()))
    }
}

/// A user without a login is a ghost; any other has their own.
pub proof fn law_logins(a: Actor, some: Seq<Actor>)
    ensures
        login_of(None) == "ghost"@,
        a.login@.len() == 0 ==> login_of(Some(a)) == "ghost"@ && logins(some.push(a)) == logins(some),
        a.login@.len() > 0 ==> login_of(Some(a)) == a.login@ && logins(some.push(a)) == logins(some).push(a.login@),
        logins(Seq::<Actor>::empty()).len() == 0,
{
    assert(some.push(a).drop_last() =~= some);
}

/// A row keeps what was read of it, field by field.
pub proof fn law_rows_keep_what_was_read(r: GhIssue, k: int)
    ensures
        ({
            let v = info_of(r);
            &&& v.number == r.number
            &&& v.title == r.title@
            &&& v.state == IssueState::named(r.state@)
            &&& v.labels.len() == r.labels@.len()
            &&& 0 <= k < r.labels@.len() ==> v.labels[k] == (r.labels@[k].name@, r.labels@[k].color@)
            &&& v.assignees == logins(r.assignees@)
            &&& v.author == login_of(r.author)
            &&& v.updated_at == r.updated_at@
            &&& v.url == r.url@
        }),
{
}

/// An issue keeps what was read of it, field by field; an empty reason, and a
/// missing body, are none.
pub proof fn law_issues_keep_what_was_read(r: GhIssueDetail, k: int)
    ensures
        ({
            let v = detail_of(r);
            &&& v.number == r.number
            &&& v.title == r.title@
            &&& v.state == IssueState::named(r.state@)
            &&& r.state_reason matches Some(t) ==> v.state_reason == (if t@.len() > 0 {
                Some(t@)
            } else {
                None
            })
            &&& r.state_reason is None ==> v.state_reason is None
            &&& r.body matches Some(b) ==> v.body == b@
            &&& r.body is None ==> v.body.len() == 0
            &&& v.author == login_of(r.author)
            &&& v.created_at == r.created_at@
            &&& v.updated_at == r.updated_at@
            &&& v.url == r.url@
            &&& v.assignees == logins(r.assignees@)
            &&& v.labels.len() == r.labels@.len()
            &&& 0 <= k < r.labels@.len() ==> v.labels[k] == (r.labels@[k].name@, r.labels@[k].color@)
            &&& v.comments.len() == r.comments@.len()
            &&& 0 <= k < r.comments@.len() ==> {
                let c = r.comments@[k];
                &&& v.comments[k].0 == login_of(c.author)
                &&& v.comments[k].1 == c.created_at@
                &&& c.body matches Some(b) ==> v.comments[k].2 == b@
                &&& c.body is None ==> v.comments[k].2.len() == 0
            }
        }),
{
}

} // verus!
