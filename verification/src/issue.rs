//! GitHub issues: what is shown of them, and how they are read.
use vstd::prelude::*;
use vstd::string::*;

use std::collections::HashSet;

use crate::scan;
use crate::text;

pub mod blocked;
pub mod fetch;
pub mod parse;

pub use crate::issue::blocked::{blockers_in_body, compute_blocked_set, parse_blocked};
pub use crate::issue::fetch::IssueFetch;
pub use crate::issue::parse::{parse_issue_detail, parse_issue_list, parse_label_list, parse_output};

verus! {

broadcast use vstd::std_specs::hash::group_hash_axioms;

/// Whether an issue is open.
#[derive(Debug, Clone, Copy, PartialEq, Eq, Structural)]
pub enum IssueState {
    Open,
    Closed,
}

impl IssueState {
    /// The state a text names: closed in any letter case, else open.
    pub open spec fn named(s: Seq<char>) -> IssueState {
        if text::lower(s) == "closed"@ {
            IssueState::Closed
        } else {
            IssueState::Open
        }
    }

    /// The state a text names.
    pub fn from_str(s: &str) -> (state: IssueState)
        ensures
            state == IssueState::named(s@),
    {
        if is_closed(s) {
            IssueState::Closed
        } else {
            IssueState::Open
        }
    }

    /// The state as a word.
    pub fn label(self) -> (s: &'static str)
        ensures
            s@ == match self {
                IssueState::Open => "open"@,
                IssueState::Closed => "closed"@,
            },
    {
        match self {
            IssueState::Open => "open",
            IssueState::Closed => "closed",
        }
    }
}

/// Whether a text says that an issue is closed, in any letter case.
pub fn is_closed(s: &str) -> (yes: bool)
    ensures
        yes == (text::lower(s@) == "closed"@),
{
    let lower = text::lower_chars(text::chars_of(s).as_slice());
    let t = text::text_of(lower.as_slice());
    text::same_text(t.as_str(), "closed")
}

/// Which issues are listed.
#[derive(Debug, Clone, Copy, PartialEq, Eq, Structural)]
pub enum IssueFilter {
    Open,
    Closed,
    All,
}

impl IssueFilter {
    /// The filters in the order of their tabs.
    pub const ALL: [IssueFilter; 3] = [IssueFilter::Open, IssueFilter::Closed, IssueFilter::All];

    /// The value for `gh issue list --state`.
    pub open spec fn arg(self) -> Seq<char> {
        match self {
            IssueFilter::Open => "open"@,
            IssueFilter::Closed => "closed"@,
            IssueFilter::All => "all"@,
        }
    }

    /// The value for `gh issue list --state`.
    pub fn as_arg(self) -> (s: &'static str)
        ensures
            s@ == self.arg(),
    {
        match self {
            IssueFilter::Open => "open",
            IssueFilter::Closed => "closed",
            IssueFilter::All => "all",
        }
    }

    /// The label of the filter's tab.
    pub fn label(self) -> (s: &'static str)
        ensures
            s@ == match self {
                IssueFilter::Open => "Open"@,
                IssueFilter::Closed => "Closed"@,
                IssueFilter::All => "All"@,
            },
    {
        match self {
            IssueFilter::Open => "Open",
            IssueFilter::Closed => "Closed",
            IssueFilter::All => "All",
        }
    }

    /// The filter after this one.
    pub open spec fn following(self) -> IssueFilter {
        match self {
            IssueFilter::Open => IssueFilter::Closed,
            IssueFilter::Closed => IssueFilter::All,
            IssueFilter::All => IssueFilter::Open,
        }
    }

    /// The filter after this one, from the last back to the first.
    pub fn next(self) -> (f: IssueFilter)
        ensures
            f == self.following(),
    {
        match self {
            IssueFilter::Open => IssueFilter::Closed,
            IssueFilter::Closed => IssueFilter::All,
            IssueFilter::All => IssueFilter::Open,
        }
    }
}

/// Three steps through the filters lead back, and on the way each one comes
/// once.
pub proof fn law_filters_cycle(f: IssueFilter)
    ensures
        f.following().following().following() == f,
        f.following() != f,
        f.following().following() != f,
        f.following().following() != f.following(),
{
}

/// A label of an issue with its colour in hexadecimal.
#[derive(Debug, PartialEq, Eq)]
pub struct IssueLabel {
    pub name: String,
    pub color: String,
}

impl View for IssueLabel {
    type V = (Seq<char>, Seq<char>);

    open spec fn view(&self) -> (Seq<char>, Seq<char>) {
        (self.name@, self.color@)
    }
}

impl Clone for IssueLabel {
    fn clone(&self) -> (l: IssueLabel)
        ensures
            l@ == self@,
    {
        IssueLabel { name: self.name.clone(), color: self.color.clone() }
    }
}

/// Labels as mathematical values.
pub open spec fn labels_view(v: Seq<IssueLabel>) -> Seq<(Seq<char>, Seq<char>)> {
    v.map_values(|l: IssueLabel| l@)
}

/// A copy of some labels.
pub fn clone_labels(v: &[IssueLabel]) -> (copy: Vec<IssueLabel>)
    ensures
        labels_view(copy@) == labels_view(v@),
{
    let mut copy: Vec<IssueLabel> = Vec::new();
    let mut i: usize = 0;
    while i < v.len()
        invariant
            0 <= i <= v.len(),
            copy@.len() == i,
            forall|k: int| 0 <= k < i ==> (#[trigger] copy@[k])@ == v@[k]@,
        decreases v.len() - i,
    {
        copy.push(v[i].clone());
        i = i + 1;
    }
    assert(labels_view(copy@) =~= labels_view(v@));
    copy
}

/// A row of the issue list.
#[derive(Debug, Clone, PartialEq, Eq)]
pub struct IssueInfo {
    pub number: u64,
    pub title: String,
    pub state: IssueState,
    pub labels: Vec<IssueLabel>,
    pub assignees: Vec<String>,
    pub author: String,
    pub updated_at: String,
    pub url: String,
}

/// A row as a mathematical value.
#[verifier::ext_equal]
pub struct InfoView {
    pub number: u64,
    pub title: Seq<char>,
    pub state: IssueState,
    pub labels: Seq<(Seq<char>, Seq<char>)>,
    pub assignees: Seq<Seq<char>>,
    pub author: Seq<char>,
    pub updated_at: Seq<char>,
    pub url: Seq<char>,
}

impl View for IssueInfo {
    type V = InfoView;

    open spec fn view(&self) -> InfoView {
        InfoView {
            number: self.number,
            title: self.title@,
            state: self.state,
            labels: labels_view(self.labels@),
            assignees: text::texts(self.assignees@),
            author: self.author@,
            updated_at: self.updated_at@,
            url: self.url@,
        }
    }
}

/// Rows as mathematical values.
pub open spec fn infos_view(v: Seq<IssueInfo>) -> Seq<InfoView> {
    v.map_values(|i: IssueInfo| i@)
}

/// What narrows the rows that were fetched.
#[derive(Debug, Clone, PartialEq, Eq)]
pub struct IssueViewFilter {
    /// Labels of which an issue must carry one; none ask for nothing.
    pub labels: Vec<String>,
    /// Leave out issues that an open issue blocks.
    pub unblocked_only: bool,
}

impl Default for IssueViewFilter {
    fn default() -> (f: IssueViewFilter)
        ensures
            f.labels@.len() == 0,
            !f.unblocked_only,
    {
        IssueViewFilter { labels: Vec::new(), unblocked_only: false }
    }
}

impl IssueViewFilter {
    /// Whether anything is narrowed.
    pub fn is_active(&self) -> (yes: bool)
        ensures
            yes == (self.labels@.len() > 0 || self.unblocked_only),
    {
        self.labels.len() > 0 || self.unblocked_only
    }
}

/// Whether an issue carries one of some labels.
pub open spec fn carries(labels: Seq<(Seq<char>, Seq<char>)>, wanted: Seq<Seq<char>>) -> bool {
    exists|i: int, j: int|
        0 <= i < labels.len() && 0 <= j < wanted.len() && (#[trigger] labels[i]).0 == #[trigger] wanted[j]
}

/// Whether an issue passes the filter.
pub open spec fn passes(issue: InfoView, labels: Seq<Seq<char>>, unblocked_only: bool, blocked: bool) -> bool {
    &&& labels.len() == 0 || carries(issue.labels, labels)
    &&& !(unblocked_only && blocked)
}

fn label_wanted(name: &str, wanted: &Vec<String>) -> (yes: bool)
    ensures
        yes == exists|j: int| 0 <= j < wanted@.len() && #[trigger] text::texts(wanted@)[j] == name@,
{
    let mut j: usize = 0;
    while j < wanted.len()
        invariant
            0 <= j <= wanted.len(),
            forall|k: int| 0 <= k < j ==> #[trigger] text::texts(wanted@)[k] != name@,
        decreases wanted.len() - j,
    {
        assert(text::texts(wanted@)[j as int] == wanted@[j as int]@);
        if text::same_text(wanted[j].as_str(), name) {
            return true;
        }
        j = j + 1;
    }
    false
}

/// Whether an issue passes the filter, `blocked` telling whether an open issue
/// blocks it.
pub fn issue_matches(issue: &IssueInfo, filter: &IssueViewFilter, blocked: bool) -> (yes: bool)
    ensures
        yes == passes(issue@, text::texts(filter.labels@), filter.unblocked_only, blocked),
{
    let ghost labels = labels_view(issue.labels@);
    let ghost wanted = text::texts(filter.labels@);
    if filter.labels.len() > 0 {
        let mut carried = false;
        let mut i: usize = 0;
        while i < issue.labels.len() && !carried
            invariant
                0 <= i <= issue.labels.len(),
                labels == labels_view(issue.labels@),
                wanted == text::texts(filter.labels@),
                !carried ==> forall|k: int, j: int|
                    0 <= k < i && 0 <= j < wanted.len() ==> (#[trigger] labels[k]).0 != #[trigger] wanted[j],
                carried ==> carries(labels, wanted),
            decreases issue.labels.len() - i,
        {
            assert(labels[i as int].0 == issue.labels@[i as int].name@);
            if label_wanted(issue.labels[i].name.as_str(), &filter.labels) {
                let ghost j = choose|j: int| 0 <= j < wanted.len() && #[trigger] wanted[j] == labels[i as int].0;
                assert(labels[i as int].0 == wanted[j]);
                carried = true;
            }
            i = i + 1;
        }
        if !carried {
            return false;
        }
    }
    !(filter.unblocked_only && blocked)
}

/// The positions of the issues that pass the filter, out of the first `n`.
pub open spec fn visible(
    issues: Seq<InfoView>,
    labels: Seq<Seq<char>>,
    unblocked_only: bool,
    blocked: Set<u64>,
    n: int,
) -> Seq<usize>
    decreases n,
{
    if n <= 0 {
        Seq::empty()
    } else {
        let before = visible(issues, labels, unblocked_only, blocked, n - 1);
        if passes(issues[n - 1], labels, unblocked_only, blocked.contains(issues[n - 1].number)) {
            before.push((n - 1) as usize)
        } else {
            before
        }
    }
}

/// The positions of the issues that pass the filter, in order. `blocked` holds
/// the numbers of the issues that an open issue blocks.
pub fn visible_issues(issues: &[IssueInfo], filter: &IssueViewFilter, blocked: &HashSet<u64>) -> (shown: Vec<usize>)
    ensures
        shown@ == visible(
            infos_view(issues@),
            text::texts(filter.labels@),
            filter.unblocked_only,
            blocked@,
            issues@.len() as int,
        ),
{
    let ghost all = infos_view(issues@);
    let mut shown: Vec<usize> = Vec::new();
    let mut i: usize = 0;
    while i < issues.len()
        invariant
            0 <= i <= issues.len(),
            all == infos_view(issues@),
            shown@ == visible(all, text::texts(filter.labels@), filter.unblocked_only, blocked@, i as int),
        decreases issues.len() - i,
    {
        assert(all[i as int] == issues@[i as int]@);
        let is_blocked = blocked.contains(&issues[i].number);
        if issue_matches(&issues[i], filter, is_blocked) {
            shown.push(i);
        }
        i = i + 1;
    }
    shown
}

/// The visible positions ascend, and each is that of an issue that passes.
pub proof fn law_visible_issues_pass_in_order(
    issues: Seq<InfoView>,
    labels: Seq<Seq<char>>,
    unblocked_only: bool,
    blocked: Set<u64>,
    n: int,
)
    requires
        0 <= n <= issues.len() <= usize::MAX,
    ensures
        forall|i: int, j: int|
            0 <= i < j < visible(issues, labels, unblocked_only, blocked, n).len() ==> #[trigger] visible(
                issues,
                labels,
                unblocked_only,
                blocked,
                n,
            )[i] < #[trigger] visible(issues, labels, unblocked_only, blocked, n)[j],
        forall|k: int|
            0 <= k < n ==> (visible(issues, labels, unblocked_only, blocked, n).contains(k as usize) <==> #[trigger] passes(
                issues[k],
                labels,
                unblocked_only,
                blocked.contains(issues[k].number),
            )),
        forall|i: int|
            0 <= i < visible(issues, labels, unblocked_only, blocked, n).len() ==> (#[trigger] visible(
                issues,
                labels,
                unblocked_only,
                blocked,
                n,
            )[i] as int) < n,
    decreases n,
{
    if n > 0 {
        law_visible_issues_pass_in_order(issues, labels, unblocked_only, blocked, n - 1);
        let before = visible(issues, labels, unblocked_only, blocked, n - 1);
        let after = visible(issues, labels, unblocked_only, blocked, n);
        assert forall|k: int| 0 <= k < n implies (after.contains(k as usize) <==> #[trigger] passes(
            issues[k],
            labels,
            unblocked_only,
            blocked.contains(issues[k].number),
        )) by {
            if before.contains(k as usize) {
                let i = choose|i: int| 0 <= i < before.len() && before[i] == k as usize;
                assert(after[i] == k as usize);
            }
            if after.contains(k as usize) && k < n - 1 {
                let i = choose|i: int| 0 <= i < after.len() && after[i] == k as usize;
                assert(before[i] == k as usize);
            }
            if k == n - 1 && after.len() > before.len() {
                assert(after[before.len() as int] == k as usize);
            }
        }
    }
}

/// One comment of an issue.
#[derive(Debug, Clone, PartialEq, Eq)]
pub struct IssueComment {
    pub author: String,
    pub created_at: String,
    pub body: String,
}

impl View for IssueComment {
    type V = (Seq<char>, Seq<char>, Seq<char>);

    open spec fn view(&self) -> (Seq<char>, Seq<char>, Seq<char>) {
        (self.author@, self.created_at@, self.body@)
    }
}

/// Comments as mathematical values.
pub open spec fn comments_view(v: Seq<IssueComment>) -> Seq<(Seq<char>, Seq<char>, Seq<char>)> {
    v.map_values(|c: IssueComment| c@)
}

/// Everything about one issue.
#[derive(Debug, PartialEq, Eq)]
pub struct IssueDetail {
    pub number: u64,
    pub title: String,
    pub state: IssueState,
    /// Why the issue was closed.
    pub state_reason: Option<String>,
    pub body: String,
    pub author: String,
    pub created_at: String,
    pub updated_at: String,
    pub labels: Vec<IssueLabel>,
    pub assignees: Vec<String>,
    pub comments: Vec<IssueComment>,
    pub url: String,
}

/// An issue as a mathematical value.
#[verifier::ext_equal]
pub struct DetailView {
    pub number: u64,
    pub title: Seq<char>,
    pub state: IssueState,
    pub state_reason: Option<Seq<char>>,
    pub body: Seq<char>,
    pub author: Seq<char>,
    pub created_at: Seq<char>,
    pub updated_at: Seq<char>,
    pub labels: Seq<(Seq<char>, Seq<char>)>,
    pub assignees: Seq<Seq<char>>,
    pub comments: Seq<(Seq<char>, Seq<char>, Seq<char>)>,
    pub url: Seq<char>,
}

impl View for IssueDetail {
    type V = DetailView;

    open spec fn view(&self) -> DetailView {
        DetailView {
            number: self.number,
            title: self.title@,
            state: self.state,
            state_reason: text::opt_text(self.state_reason),
            body: self.body@,
            author: self.author@,
            created_at: self.created_at@,
            updated_at: self.updated_at@,
            labels: labels_view(self.labels@),
            assignees: text::texts(self.assignees@),
            comments: comments_view(self.comments@),
            url: self.url@,
        }
    }
}

impl Clone for IssueDetail {
    fn clone(&self) -> (d: IssueDetail)
        ensures
            d@ == self@,
    {
        let mut comments: Vec<IssueComment> = Vec::new();
        let mut i: usize = 0;
        while i < self.comments.len()
            invariant
                0 <= i <= self.comments.len(),
                comments@.len() == i,
                forall|k: int| 0 <= k < i ==> (#[trigger] comments@[k])@ == self.comments@[k]@,
            decreases self.comments.len() - i,
        {
            let c = &self.comments[i];
            comments.push(
                IssueComment {
                    author: c.author.clone(),
                    created_at: c.created_at.clone(),
                    body: c.body.clone(),
                },
            );
            i = i + 1;
        }
        assert(comments_view(comments@) =~= comments_view(self.comments@));
        IssueDetail {
            number: self.number,
            title: self.title.clone(),
            state: self.state,
            state_reason: text::clone_opt(&self.state_reason),
            body: self.body.clone(),
            author: self.author.clone(),
            created_at: self.created_at.clone(),
            updated_at: self.updated_at.clone(),
            labels: clone_labels(self.labels.as_slice()),
            assignees: text::clone_texts(self.assignees.as_slice()),
            comments,
            url: self.url.clone(),
        }
    }
}

/// A moment in UTC: seconds since the epoch and nanoseconds within the second.
/// A leap second counts as the second before it with a billion nanoseconds or
/// more.
#[derive(Debug, Clone, Copy, PartialEq, Eq, Structural)]
pub struct Moment {
    pub seconds: i64,
    pub nanos: u32,
}

/// The second of the day.
pub open spec fn second_of_day(m: Moment) -> int {
    m.seconds as int % 86400
}

/// The nanoseconds from `then` to `now`. A leap second between the two times
/// of day counts.
pub open spec fn nanos_between(then: Moment, now: Moment) -> int {
    let leap = if second_of_day(now) > second_of_day(then) && then.nanos >= 1_000_000_000 {
        1int
    } else if second_of_day(now) < second_of_day(then) && now.nanos >= 1_000_000_000 {
        -1int
    } else {
        0int
    };
    (now.seconds - then.seconds + leap) * 1_000_000_000 + (now.nanos - then.nanos)
}

/// A time span as a short label: minutes, hours, days, weeks, months or years.
/// Less than a minute, and anything in the future, is just now.
pub open spec fn age_label(nanos: int) -> Seq<char> {
    let minutes = nanos / 60_000_000_000;
    let hours = minutes / 60;
    let days = hours / 24;
    if minutes < 1 {
        "just now"@
    } else if minutes < 60 {
        text::decimal(minutes as nat) + "m"@
    } else if hours < 24 {
        text::decimal(hours as nat) + "h"@
    } else if days < 7 {
        text::decimal(days as nat) + "d"@
    } else if days < 30 {
        text::decimal((days / 7) as nat) + "w"@
    } else if days < 365 {
        text::decimal((days / 30) as nat) + "mo"@
    } else {
        text::decimal((days / 365) as nat) + "y"@
    }
}

fn counted(n: u64, unit: &str) -> (s: String)
    ensures
        s@ == text::decimal(n as nat) + unit@,
{
    let mut s = String::new();
    text::push_decimal(&mut s, n);
    assert(s@ =~= text::decimal(n as nat));
    s.append(unit);
    s
}

fn day_second(seconds: i64) -> (s: i64)
    ensures
        s == seconds as int % 86400,
{
    let r: i128 = seconds as i128 % 86400;
    if r < 0 {
        (r + 86400) as i64
    } else {
        r as i64
    }
}

/// A short label for the time from `then` to `now`.
pub fn relative_between(then: Moment, now: Moment) -> (label: String)
    ensures
        label@ == age_label(nanos_between(then, now)),
{
    let a: i64 = day_second(now.seconds);
    let b: i64 = day_second(then.seconds);
    let leap: i128 = if a > b && then.nanos >= 1_000_000_000 {
        1
    } else if a < b && now.nanos >= 1_000_000_000 {
        -1
    } else {
        0
    };
    let nanos: i128 = (now.seconds as i128 - then.seconds as i128 + leap) * 1_000_000_000 + (now.nanos as i128
        - then.nanos as i128);
    assert(nanos == nanos_between(then, now));
    if nanos < 60_000_000_000 {
        return "just now".to_owned();
    }
    let minutes: u64 = (nanos / 60_000_000_000) as u64;
    if minutes < 60 {
        return counted(minutes, "m");
    }
    let hours: u64 = minutes / 60;
    if hours < 24 {
        return counted(hours, "h");
    }
    let days: u64 = hours / 24;
    if days < 7 {
        return counted(days, "d");
    }
    if days < 30 {
        return counted(days / 7, "w");
    }
    if days < 365 {
        return counted(days / 30, "mo");
    }
    counted(days / 365, "y")
}

/// The moment that an RFC 3339 text names, `None` for any other text.
pub uninterp spec fn rfc3339(text: Seq<char>) -> Option<(i64, u32)>;

/// Calls `chrono::DateTime::parse_from_rfc3339`. The result is the timestamp
/// in seconds and the nanoseconds within the second, `None` where the text is
/// refused. Which texts are accepted is left to that function; the result
/// depends on the text alone.
#[verifier::external_body]
fn chrono_parse(text: &str) -> (m: Option<(i64, u32)>)
    ensures
        m == rfc3339(text@),
{
    match chrono::DateTime::parse_from_rfc3339(text) {
        Ok(t) => Some((t.timestamp(), t.timestamp_subsec_nanos())),
        Err(_) => None,
    }
}

/// Calls `chrono::Utc::now`. The time is counted from the Unix epoch, which it
/// is not before, and the nanoseconds stay within the second. Which moment it is
/// depends on the clock.
#[verifier::external_body]
fn chrono_now() -> (m: (i64, u32))
    ensures
        m.0 >= 0,
        m.1 < 1_000_000_000,
{
    let t = chrono::Utc::now();
    (t.timestamp(), t.timestamp_subsec_nanos())
}

/// A short label for the age of an RFC 3339 timestamp; the part before the
/// `T` of a text that is none.
pub fn relative_time(iso: &str) -> (label: String)
    ensures
        match rfc3339(iso@) {
            Some(then) => exists|now: Moment|
                now.seconds >= 0 && now.nanos < 1_000_000_000 && label@ == #[trigger] age_label(
                    nanos_between(Moment { seconds: then.0, nanos: then.1 }, now),
                ),
            None => label@ == scan::before_first(iso@, 'T'),
        },
{
    match chrono_parse(iso) {
        Some(then) => {
            let t = chrono_now();
            let now = Moment { seconds: t.0, nanos: t.1 };
            let label = relative_between(Moment { seconds: then.0, nanos: then.1 }, now);
            assert(label@ == age_label(nanos_between(Moment { seconds: then.0, nanos: then.1 }, now)));
            label
        },
        None => {
            let date = scan::chars_before_first(text::chars_of(iso).as_slice(), 'T');
            text::text_of(date.as_slice())
        },
    }
}

/// An issue is closed exactly if its state reads `closed`, letter by letter, small
/// or capital.
pub proof fn law_closed_in_any_case(s: Seq<char>)
    ensures
        IssueState::named(s) == IssueState::Closed <==> s.len() == 6 && (s[0] == 'c' || s[0] == 'C') && (s[1] == 'l'
            || s[1] == 'L') && (s[2] == 'o' || s[2] == 'O') && (s[3] == 's' || s[3] == 'S') && (s[4] == 'e' || s[4]
            == 'E') && (s[5] == 'd' || s[5] == 'D'),
{
    reveal_strlit("closed");
    let l = text::lower(s);
    if s.len() == 6 {
        assert(l[0] == text::lower_char(s[0]));
        assert(l[1] == text::lower_char(s[1]));
        assert(l[2] == text::lower_char(s[2]));
        assert(l[3] == text::lower_char(s[3]));
        assert(l[4] == text::lower_char(s[4]));
        assert(l[5] == text::lower_char(s[5]));
        if IssueState::named(s) == IssueState::Closed {
            assert(l[0] == 'c' && l[1] == 'l' && l[2] == 'o' && l[3] == 's' && l[4] == 'e' && l[5] == 'd');
        } else if (s[0] == 'c' || s[0] == 'C') && (s[1] == 'l' || s[1] == 'L') && (s[2] == 'o' || s[2] == 'O') && (s[3]
            == 's' || s[3] == 'S') && (s[4] == 'e' || s[4] == 'E') && (s[5] == 'd' || s[5] == 'D') {
            assert(l =~= "closed"@);
        }
    } else {
        assert(l.len() == s.len());
    }
}

/// The filters by name, and the order in which they follow each other.
pub proof fn law_filters_by_name()
    ensures
        IssueFilter::Open.arg() == "open"@,
        IssueFilter::Closed.arg() == "closed"@,
        IssueFilter::All.arg() == "all"@,
        IssueFilter::Open.following() == IssueFilter::Closed,
        IssueFilter::Closed.following() == IssueFilter::All,
        IssueFilter::All.following() == IssueFilter::Open,
{
}

/// An issue passes exactly if it carries one of the labels asked for, where any
/// are, and is not blocked, where that is asked for.
pub proof fn law_issues_that_pass(issue: InfoView, labels: Seq<Seq<char>>, unblocked_only: bool, blocked: bool)
    ensures
        passes(issue, labels, unblocked_only, blocked) <==> (!unblocked_only || !blocked) && (labels.len() == 0
            || exists|i: int, j: int|
            0 <= i < issue.labels.len() && 0 <= j < labels.len() && (#[trigger] issue.labels[i]).0
                == #[trigger] labels[j]),
{
}

/// Without leap seconds the time between two moments is the difference of the two.
pub proof fn law_time_between_moments(then: Moment, now: Moment)
    requires
        then.nanos < 1_000_000_000,
        now.nanos < 1_000_000_000,
    ensures
        nanos_between(then, now) == now.seconds * 1_000_000_000 + now.nanos - (then.seconds * 1_000_000_000
            + then.nanos),
        nanos_between(then, now) == -nanos_between(now, then),
{
}

/// Ages: minutes below an hour, hours below a day, days below a week, weeks below
/// thirty days, months of thirty days below a year, and years of 365 days.
pub proof fn law_ages(seconds: nat, nanos: nat)
    requires
        nanos < 1_000_000_000,
    ensures
        ({
            let label = age_label(seconds as int * 1_000_000_000 + nanos);
            &&& seconds < 60 ==> label == "just now"@
            &&& 60 <= seconds < 3_600 ==> label == text::decimal(seconds / 60) + "m"@
            &&& 3_600 <= seconds < 86_400 ==> label == text::decimal(seconds / 3_600) + "h"@
            &&& 86_400 <= seconds < 604_800 ==> label == text::decimal(seconds / 86_400) + "d"@
            &&& 604_800 <= seconds < 2_592_000 ==> label == text::decimal(seconds / 604_800) + "w"@
            &&& 2_592_000 <= seconds < 31_536_000 ==> label == text::decimal(seconds / 2_592_000) + "mo"@
            &&& 31_536_000 <= seconds ==> label == text::decimal(seconds / 31_536_000) + "y"@
        }),
{
    let total: int = seconds as int * 1_000_000_000 + nanos;
    let minutes: int = total / 60_000_000_000;
    assert(minutes == seconds as int / 60);
    let hours: int = minutes / 60;
    assert(hours == seconds as int / 3_600);
    let days: int = hours / 24;
    assert(days == seconds as int / 86_400);
    assert(days / 7 == seconds as int / 604_800);
    assert(days / 30 == seconds as int / 2_592_000);
    assert(days / 365 == seconds as int / 31_536_000);
}

/// What lies in the future is just now.
pub proof fn law_future_is_just_now(nanos: int)
    requires
        nanos < 60_000_000_000,
    ensures
        age_label(nanos) == "just now"@,
{
}

/// A leap second counts where it lies between the two times of day: one more from
/// it to a later time, one less from an earlier time back to it. At the same time
/// of day none does.
pub proof fn law_leap_seconds(then: Moment, now: Moment)
    ensures
        ({
            let span = (now.seconds - then.seconds) * 1_000_000_000 + (now.nanos - then.nanos);
            let earlier = then.seconds as int % 86400;
            let later = now.seconds as int % 86400;
            &&& earlier < later && then.nanos >= 1_000_000_000 ==> nanos_between(then, now) == span + 1_000_000_000
            &&& earlier < later && then.nanos < 1_000_000_000 ==> nanos_between(then, now) == span
            &&& earlier == later ==> nanos_between(then, now) == span
            &&& earlier > later && now.nanos >= 1_000_000_000 ==> nanos_between(then, now) == span - 1_000_000_000
            &&& earlier > later && now.nanos < 1_000_000_000 ==> nanos_between(then, now) == span
        }),
{
}

} // verus!
