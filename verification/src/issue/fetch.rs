//! When issues are fetched, and what is kept of them.
//!
//! Each fetch runs `gh` on a worker. This module says which command to run,
//! and what the worker's answer means.
use vstd::prelude::*;
use vstd::string::*;

use std::collections::{HashMap, HashSet};

use crate::gh;
use crate::interval_fetch::FetchEvent;
use crate::issue;
use crate::issue::blocked::BLOCKED_QUERY;
use crate::issue::{DetailView, IssueDetail, IssueFilter, IssueInfo, IssueLabel};
use crate::text;

verus! {

broadcast use vstd::std_specs::hash::group_hash_axioms;

/// The fields asked of the issue list.
pub const LIST_FIELDS: &'static str = "number,title,state,labels,assignees,author,updatedAt,url";

/// The fields asked of one issue.
pub const DETAIL_FIELDS: &'static str = "number,title,state,stateReason,body,author,createdAt,updatedAt,labels,assignees,comments,url";

/// How long the issue list may take, in nanoseconds.
pub const LIST_TIMEOUT: u64 = 15_000_000_000;

/// How long the query for blocked issues may take, in nanoseconds.
pub const BLOCKED_TIMEOUT: u64 = 15_000_000_000;

/// How long one issue may take, in nanoseconds.
pub const DETAIL_TIMEOUT: u64 = 20_000_000_000;

/// How long the label list may take, in nanoseconds.
pub const LABEL_TIMEOUT: u64 = 15_000_000_000;

/// The fetches of issues: the list, single issues, the labels and the blocked
/// issues. All but the list are kept once fetched.
#[derive(Debug)]
pub struct IssueFetch {
    list_in_flight: bool,
    pending_detail: Option<u64>,
    detail_cache: HashMap<u64, IssueDetail>,
    labels_in_flight: bool,
    labels_cache: Option<Vec<IssueLabel>>,
    blocked_in_flight: bool,
    blocked_cache: Option<HashSet<u64>>,
}

/// The fetches as a value.
#[verifier::ext_equal]
pub struct FetchState {
    /// Whether the list is being fetched.
    pub list: bool,
    /// The issue that is being fetched.
    pub pending: Option<u64>,
    /// The issues that are kept.
    pub details: Map<u64, DetailView>,
    /// Whether the labels are being fetched.
    pub labels_asked: bool,
    /// The labels that are kept.
    pub labels: Option<Seq<(Seq<char>, Seq<char>)>>,
    /// Whether the blocked issues are being fetched.
    pub blocked_asked: bool,
    /// The blocked issues that are kept. An empty set says that none is
    /// blocked, `None` that it is not known.
    pub blocked: Option<Set<u64>>,
}

impl FetchState {
    /// Whether an issue has to be fetched: it is neither kept nor being
    /// fetched.
    pub open spec fn wants_detail(self, number: u64) -> bool {
        !self.details.dom().contains(number) && self.pending != Some(number)
    }

    /// The state once an issue was asked for.
    pub open spec fn with_detail_asked(self, number: u64) -> FetchState {
        if self.wants_detail(number) {
            FetchState { pending: Some(number), ..self }
        } else {
            self
        }
    }

    /// The state once the worker for an issue ended, with the issue or with an
    /// error.
    pub open spec fn with_detail(self, number: u64, found: Option<DetailView>) -> FetchState {
        FetchState {
            pending: None,
            details: match found {
                Some(d) => self.details.insert(number, d),
                None => self.details,
            },
            ..self
        }
    }

    /// The state once an issue is no longer kept.
    pub open spec fn without_detail(self, number: u64) -> FetchState {
        FetchState { details: self.details.remove(number), ..self }
    }

    /// Whether the labels have to be fetched.
    pub open spec fn wants_labels(self) -> bool {
        self.labels is None && !self.labels_asked
    }

    /// Whether the blocked issues have to be fetched.
    pub open spec fn wants_blocked(self) -> bool {
        self.blocked is None && !self.blocked_asked
    }
}

/// Details as values.
pub open spec fn details_view(m: Map<u64, IssueDetail>) -> Map<u64, DetailView> {
    m.map_values(|d: IssueDetail| d@)
}

impl View for IssueFetch {
    type V = FetchState;

    closed spec fn view(&self) -> FetchState {
        FetchState {
            list: self.list_in_flight,
            pending: self.pending_detail,
            details: details_view(self.detail_cache@),
            labels_asked: self.labels_in_flight,
            labels: match self.labels_cache {
                Some(v) => Some(issue::labels_view(v@)),
                None => None,
            },
            blocked_asked: self.blocked_in_flight,
            blocked: match self.blocked_cache {
                Some(v) => Some(v@),
                None => None,
            },
        }
    }
}

/// Whether an issue has to be fetched: it is neither cached nor the one that
/// is being fetched.
pub fn should_start_detail(is_cached: bool, pending: Option<u64>, number: u64) -> (yes: bool)
    ensures
        yes == (!is_cached && pending != Some(number)),
{
    match pending {
        Some(p) => !is_cached && p != number,
        None => !is_cached,
    }
}

fn command(first: &str, second: &str) -> (args: Vec<String>)
    ensures
        text::texts(args@) == seq![first@, second@],
{
    let mut args: Vec<String> = Vec::new();
    text::push_text(&mut args, first);
    text::push_text(&mut args, second);
    assert(text::texts(args@) =~= seq![first@, second@]);
    args
}

fn copy_set(set: &HashSet<u64>) -> (copy: HashSet<u64>)
    ensures
        copy@ == set@,
{
    let mut copy: HashSet<u64> = HashSet::new();
    for n in it: set.iter()
        invariant
            it.seq().unref().to_set() == set@,
            copy@.subset_of(set@),
            forall|j: int| 0 <= j < it.index() ==> copy@.contains(#[trigger] it.seq().unref()[j]),
    {
        assert(it.seq().unref()[it.index()] == *n);
        assert(it.seq().unref().contains(*n));
        copy.insert(*n);
    }
    assert(copy@ =~= set@);
    copy
}

impl IssueFetch {
    /// No fetch in flight and nothing kept.
    pub fn new() -> (f: IssueFetch)
        ensures
            f@ == (FetchState {
                list: false,
                pending: None,
                details: Map::empty(),
                labels_asked: false,
                labels: None,
                blocked_asked: false,
                blocked: None,
            }),
    {
        let f = IssueFetch {
            list_in_flight: false,
            pending_detail: None,
            detail_cache: HashMap::new(),
            labels_in_flight: false,
            labels_cache: None,
            blocked_in_flight: false,
            blocked_cache: None,
        };
        assert(details_view(f.detail_cache@) =~= Map::empty());
        f
    }

    /// Start to fetch the list, whether or not it is being fetched: the
    /// arguments of `gh`.
    pub fn start_list(&mut self, filter: IssueFilter) -> (args: Vec<String>)
        ensures
            final(self)@ == (FetchState { list: true, ..old(self)@ }),
            text::texts(args@) == seq![
                "issue"@,
                "list"@,
                "--state"@,
                filter.arg(),
                "--limit"@,
                "100"@,
                "--json"@,
                LIST_FIELDS@,
            ],
    {
        self.list_in_flight = true;
        let mut args = command("issue", "list");
        text::push_text(&mut args, "--state");
        text::push_text(&mut args, filter.as_arg());
        text::push_text(&mut args, "--limit");
        text::push_text(&mut args, "100");
        text::push_text(&mut args, "--json");
        text::push_text(&mut args, LIST_FIELDS);
        args
    }

    /// What became of the list: its result, once.
    pub fn poll_list(&mut self, event: FetchEvent<Vec<IssueInfo>>) -> (r: Option<Result<Vec<IssueInfo>, String>>)
        ensures
            !old(self)@.list || event is Pending ==> r is None && final(self)@ == old(self)@,
            old(self)@.list && !(event is Pending) ==> {
                &&& final(self)@ == (FetchState { list: false, ..old(self)@ })
                &&& match event {
                    FetchEvent::Done(result) => r == Some(result),
                    _ => r matches Some(Err(e)) && e@ == "issue list worker exited"@,
                }
            },
    {
        if !self.list_in_flight {
            return None;
        }
        match event {
            FetchEvent::Pending => None,
            FetchEvent::Done(result) => {
                self.list_in_flight = false;
                Some(result)
            },
            FetchEvent::Died => {
                self.list_in_flight = false;
                Some(Err("issue list worker exited".to_owned()))
            },
        }
    }

    /// An issue that is kept.
    pub fn cached_detail(&self, number: u64) -> (d: Option<&IssueDetail>)
        ensures
            match d {
                Some(d) => self@.details.dom().contains(number) && d@ == self@.details[number],
                None => !self@.details.dom().contains(number),
            },
    {
        self.detail_cache.get(&number)
    }

    /// Start to fetch an issue, unless it is kept or being fetched: the
    /// arguments of `gh`. A fetch of another issue is given up.
    pub fn start_detail(&mut self, number: u64) -> (args: Option<Vec<String>>)
        ensures
            final(self)@ == old(self)@.with_detail_asked(number),
            match args {
                Some(a) => old(self)@.wants_detail(number) && text::texts(a@) == seq![
                    "issue"@,
                    "view"@,
                    text::decimal(number as nat),
                    "--json"@,
                    DETAIL_FIELDS@,
                ],
                None => !old(self)@.wants_detail(number),
            },
    {
        let cached = self.detail_cache.contains_key(&number);
        if !should_start_detail(cached, self.pending_detail, number) {
            return None;
        }
        self.pending_detail = Some(number);
        let mut digits = String::new();
        text::push_decimal(&mut digits, number);
        assert(digits@ =~= text::decimal(number as nat));
        let mut args = command("issue", "view");
        text::push_text(&mut args, digits.as_str());
        text::push_text(&mut args, "--json");
        text::push_text(&mut args, DETAIL_FIELDS);
        Some(args)
    }

    /// What became of the issue that is being fetched: its number and result,
    /// once. An issue that was read is kept.
    pub fn poll_detail(&mut self, event: FetchEvent<IssueDetail>) -> (r: Option<(u64, Result<IssueDetail, String>)>)
        ensures
            old(self)@.pending is None || event is Pending ==> r is None && final(self)@ == old(self)@,
            old(self)@.pending is Some && !(event is Pending) ==> {
                let number = old(self)@.pending->0;
                match event {
                    FetchEvent::Done(Ok(d)) => r == Some((number, Ok::<IssueDetail, String>(d))) && final(self)@ == old(
                        self,
                    )@.with_detail(number, Some(d@)),
                    FetchEvent::Done(Err(e)) => r == Some((number, Err::<IssueDetail, String>(e))) && final(self)@
                        == old(self)@.with_detail(number, None),
                    _ => {
                        &&& r matches Some((n, Err(e))) && n == number && e@ == "issue detail worker exited"@
                        &&& final(self)@ == old(self)@.with_detail(number, None)
                    },
                }
            },
    {
        let number: u64 = match self.pending_detail {
            Some(n) => n,
            None => {
                return None;
            },
        };
        match event {
            FetchEvent::Pending => None,
            FetchEvent::Done(Ok(d)) => {
                self.pending_detail = None;
                let kept = d.clone();
                let ghost before = self.detail_cache@;
                self.detail_cache.insert(number, kept);
                assert(details_view(self.detail_cache@) =~= details_view(before).insert(number, d@));
                Some((number, Ok(d)))
            },
            FetchEvent::Done(Err(e)) => {
                self.pending_detail = None;
                Some((number, Err(e)))
            },
            FetchEvent::Died => {
                self.pending_detail = None;
                Some((number, Err("issue detail worker exited".to_owned())))
            },
        }
    }

    /// Keep an issue no longer, so that it is fetched again.
    pub fn invalidate_detail(&mut self, number: u64)
        ensures
            final(self)@ == old(self)@.without_detail(number),
    {
        let ghost before = self.detail_cache@;
        self.detail_cache.remove(&number);
        assert(details_view(self.detail_cache@) =~= details_view(before).remove(number));
    }

    /// The labels that are kept.
    pub fn cached_labels(&self) -> (labels: Option<&Vec<IssueLabel>>)
        ensures
            match labels {
                Some(v) => self@.labels == Some(issue::labels_view(v@)),
                None => self@.labels is None,
            },
    {
        match &self.labels_cache {
            Some(v) => Some(v),
            None => None,
        }
    }

    /// Start to fetch the labels, unless they are kept or being fetched: the
    /// arguments of `gh`.
    pub fn start_labels(&mut self) -> (args: Option<Vec<String>>)
        ensures
            match args {
                Some(a) => {
                    &&& old(self)@.wants_labels()
                    &&& final(self)@ == (FetchState { labels_asked: true, ..old(self)@ })
                    &&& text::texts(a@) == seq![
                        "label"@,
                        "list"@,
                        "--json"@,
                        "name,color"@,
                        "--limit"@,
                        "100"@,
                    ]
                },
                None => !old(self)@.wants_labels() && final(self)@ == old(self)@,
            },
    {
        if self.labels_cache.is_some() || self.labels_in_flight {
            return None;
        }
        self.labels_in_flight = true;
        let mut args = command("label", "list");
        text::push_text(&mut args, "--json");
        text::push_text(&mut args, "name,color");
        text::push_text(&mut args, "--limit");
        text::push_text(&mut args, "100");
        Some(args)
    }

    /// What became of the labels: their result, once. Labels that were read
    /// are kept.
    pub fn poll_labels(&mut self, event: FetchEvent<Vec<IssueLabel>>) -> (r: Option<Result<Vec<IssueLabel>, String>>)
        ensures
            !old(self)@.labels_asked || event is Pending ==> r is None && final(self)@ == old(self)@,
            old(self)@.labels_asked && !(event is Pending) ==> match event {
                FetchEvent::Done(Ok(v)) => r == Some(Ok::<Vec<IssueLabel>, String>(v)) && final(self)@ == (FetchState {
                    labels_asked: false,
                    labels: Some(issue::labels_view(v@)),
                    ..old(self)@
                }),
                FetchEvent::Done(Err(e)) => r == Some(Err::<Vec<IssueLabel>, String>(e)) && final(self)@ == (FetchState {
                    labels_asked: false,
                    ..old(self)@
                }),
                _ => {
                    &&& r matches Some(Err(e)) && e@ == "label list worker exited"@
                    &&& final(self)@ == (FetchState { labels_asked: false, ..old(self)@ })
                },
            },
    {
        if !self.labels_in_flight {
            return None;
        }
        match event {
            FetchEvent::Pending => None,
            FetchEvent::Done(Ok(v)) => {
                self.labels_in_flight = false;
                self.labels_cache = Some(issue::clone_labels(v.as_slice()));
                Some(Ok(v))
            },
            FetchEvent::Done(Err(e)) => {
                self.labels_in_flight = false;
                Some(Err(e))
            },
            FetchEvent::Died => {
                self.labels_in_flight = false;
                Some(Err("label list worker exited".to_owned()))
            },
        }
    }

    /// The blocked issues that are kept.
    pub fn cached_blocked(&self) -> (blocked: Option<&HashSet<u64>>)
        ensures
            match blocked {
                Some(s) => self@.blocked == Some(s@),
                None => self@.blocked is None,
            },
    {
        match &self.blocked_cache {
            Some(s) => Some(s),
            None => None,
        }
    }

    /// Start to fetch the blocked issues, unless they are kept or being
    /// fetched: whether to run the queries.
    pub fn start_blocked(&mut self) -> (start: bool)
        ensures
            start == old(self)@.wants_blocked(),
            final(self)@ == (FetchState { blocked_asked: old(self)@.blocked_asked || start, ..old(self)@ }),
    {
        if self.blocked_cache.is_some() || self.blocked_in_flight {
            return false;
        }
        self.blocked_in_flight = true;
        true
    }

    /// What became of the blocked issues: their result, once. A set that was
    /// read is kept.
    pub fn poll_blocked(&mut self, event: FetchEvent<HashSet<u64>>) -> (r: Option<Result<HashSet<u64>, String>>)
        ensures
            !old(self)@.blocked_asked || event is Pending ==> r is None && final(self)@ == old(self)@,
            old(self)@.blocked_asked && !(event is Pending) ==> match event {
                FetchEvent::Done(Ok(s)) => r == Some(Ok::<HashSet<u64>, String>(s)) && final(self)@ == (FetchState {
                    blocked_asked: false,
                    blocked: Some(s@),
                    ..old(self)@
                }),
                FetchEvent::Done(Err(e)) => r == Some(Err::<HashSet<u64>, String>(e)) && final(self)@ == (FetchState {
                    blocked_asked: false,
                    ..old(self)@
                }),
                _ => {
                    &&& r matches Some(Err(e)) && e@ == "blocked-by worker exited"@
                    &&& final(self)@ == (FetchState { blocked_asked: false, ..old(self)@ })
                },
            },
    {
        if !self.blocked_in_flight {
            return None;
        }
        match event {
            FetchEvent::Pending => None,
            FetchEvent::Done(Ok(s)) => {
                self.blocked_in_flight = false;
                self.blocked_cache = Some(copy_set(&s));
                Some(Ok(s))
            },
            FetchEvent::Done(Err(e)) => {
                self.blocked_in_flight = false;
                Some(Err(e))
            },
            FetchEvent::Died => {
                self.blocked_in_flight = false;
                Some(Err("blocked-by worker exited".to_owned()))
            },
        }
    }

    /// Keep the blocked issues no longer, so that they are fetched again.
    pub fn invalidate_blocked(&mut self)
        ensures
            final(self)@ == (FetchState { blocked: None, ..old(self)@ }),
    {
        self.blocked_cache = None;
    }
}

impl Default for IssueFetch {
    fn default() -> (f: IssueFetch)
        ensures
            f@ == (FetchState {
                list: false,
                pending: None,
                details: Map::empty(),
                labels_asked: false,
                labels: None,
                blocked_asked: false,
                blocked: None,
            }),
    {
        IssueFetch::new()
    }
}

/// The arguments of `gh` that print the owner and name of the repository.
pub fn repository_args() -> (args: Vec<&'static str>)
    ensures
        args@ == seq!["repo", "view", "--json", "nameWithOwner", "-q", ".nameWithOwner"],
{
    let mut args: Vec<&'static str> = Vec::new();
    args.push("repo");
    args.push("view");
    args.push("--json");
    args.push("nameWithOwner");
    args.push("-q");
    args.push(".nameWithOwner");
    args
}

/// The owner and name of the repository, given the run that printed them.
pub fn owner_and_name(out: Result<gh::Output, String>) -> (r: Result<(String, String), String>)
    ensures
        match out {
            Err(e) => r is Err && (r->Err_0)@ == e@,
            Ok(o) => if o.success {
                let printed = text::trim(o.stdout@);
                match text::find_char(printed, '/') {
                    Some(i) => r is Ok && (r->Ok_0).0@ == printed.take(i) && (r->Ok_0).1@ == printed.skip(i + 1),
                    None => r is Err && (r->Err_0)@ == "could not resolve owner/name"@,
                }
            } else {
                r is Err && (r->Err_0)@ == gh::failure(o.stderr@, "gh repo view failed"@)
            },
        },
{
    let out = match out {
        Err(e) => {
            return Err(e);
        },
        Ok(o) => o,
    };
    if !out.success {
        return Err(gh::failure_text(&out.stderr, "gh repo view failed"));
    }
    let stdout = text::chars_of(out.stdout.as_str());
    let printed = text::trimmed(stdout.as_slice());
    match text::char_position(printed.as_slice(), '/') {
        None => Err("could not resolve owner/name".to_owned()),
        Some(i) => {
            let owner = vstd::slice::slice_subrange(printed.as_slice(), 0, i);
            let n: usize = printed.len();
            assert(i < n);
            let name = vstd::slice::slice_subrange(printed.as_slice(), i + 1, n);
            assert(owner@ =~= printed@.take(i as int));
            assert(name@ =~= printed@.skip(i + 1));
            Ok((text::text_of(owner), text::text_of(name)))
        },
    }
}

/// The arguments of `gh` that query the open issues with their blockers.
pub fn blocked_args(owner: &str, name: &str) -> (args: Vec<String>)
    ensures
        text::texts(args@) == seq![
            "api"@,
            "graphql"@,
            "-f"@,
            "query="@ + BLOCKED_QUERY@,
            "-f"@,
            "owner="@ + owner@,
            "-f"@,
            "name="@ + name@,
        ],
{
    let query = text::joined("query=", BLOCKED_QUERY);
    let owner_field = text::joined("owner=", owner);
    let name_field = text::joined("name=", name);
    let mut args = command("api", "graphql");
    text::push_text(&mut args, "-f");
    text::push_text(&mut args, query.as_str());
    text::push_text(&mut args, "-f");
    text::push_text(&mut args, owner_field.as_str());
    text::push_text(&mut args, "-f");
    text::push_text(&mut args, name_field.as_str());
    args
}

/// An issue that was read is not fetched again until it is dropped; then it is.
pub proof fn law_details_are_fetched_once(s: FetchState, number: u64, d: DetailView)
    ensures
        !s.with_detail(number, Some(d)).wants_detail(number),
        s.pending != Some(number) ==> s.without_detail(number).wants_detail(number),
{
}

/// To ask for another issue is never refused because one is being fetched.
pub proof fn law_switching_issues_never_stalls(s: FetchState, number: u64, other: u64)
    requires
        s.wants_detail(number),
        s.wants_detail(other),
        number != other,
    ensures
        s.with_detail_asked(number).wants_detail(other),
        s.with_detail_asked(number).with_detail_asked(other).pending == Some(other),
{
}

/// A fetch that failed leaves the issue to be asked for again, and forgets
/// nothing else.
pub proof fn law_failed_fetches_can_be_repeated(s: FetchState, number: u64)
    requires
        s.wants_detail(number),
    ensures
        s.with_detail_asked(number).with_detail(number, None).wants_detail(number),
        s.with_detail_asked(number).with_detail(number, None).details == s.details,
{
}

/// What is asked of `gh`, and how long it may take.
pub proof fn law_what_is_asked_for()
    ensures
        LIST_FIELDS@ == "number,title,state,labels,assignees,author,updatedAt,url"@,
        DETAIL_FIELDS@ == "number,title,state,stateReason,body,author,createdAt,updatedAt,labels,assignees,comments,url"@,
        BLOCKED_QUERY@
            == "query($owner:String!,$name:String!){repository(owner:$owner,name:$name){issues(first:100,states:OPEN){nodes{number body blockedBy(first:20){nodes{number state}}}}}}"@,
        LIST_TIMEOUT == 15_000_000_000,
        BLOCKED_TIMEOUT == 15_000_000_000,
        DETAIL_TIMEOUT == 20_000_000_000,
        LABEL_TIMEOUT == 15_000_000_000,
{
}

/// An issue, the labels and the blocked issues are asked for exactly if they are
/// neither kept nor on their way. To ask changes nothing but what is on its way.
pub proof fn law_what_is_kept_is_not_asked_for(s: FetchState, number: u64)
    ensures
        s.details.dom().contains(number) ==> !s.wants_detail(number),
        s.pending == Some(number) ==> !s.wants_detail(number),
        !s.details.dom().contains(number) && s.pending != Some(number) ==> s.wants_detail(number),
        s.labels is Some || s.labels_asked ==> !s.wants_labels(),
        s.labels is None && !s.labels_asked ==> s.wants_labels(),
        s.blocked is Some || s.blocked_asked ==> !s.wants_blocked(),
        s.blocked is None && !s.blocked_asked ==> s.wants_blocked(),
        s.wants_detail(number) ==> s.with_detail_asked(number).pending == Some(number),
        !s.wants_detail(number) ==> s.with_detail_asked(number) == s,
        s.with_detail_asked(number).details == s.details,
        s.with_detail_asked(number).list == s.list,
        s.with_detail_asked(number).labels == s.labels,
        s.with_detail_asked(number).blocked == s.blocked,
{
}

/// An issue that was read is kept as it was read; one that was not changes nothing
/// that is kept. Dropping an issue drops that one alone.
pub proof fn law_issues_are_kept_as_read(s: FetchState, number: u64, d: DetailView, other: u64)
    ensures
        s.with_detail(number, Some(d)).details.dom().contains(number),
        s.with_detail(number, Some(d)).details[number] == d,
        s.with_detail(number, Some(d)).pending is None,
        s.with_detail(number, None).pending is None,
        s.with_detail(number, None).details == s.details,
        !s.without_detail(number).details.dom().contains(number),
        other != number ==> (s.without_detail(number).details.dom().contains(other)
            <==> s.details.dom().contains(other)),
        other != number && s.details.dom().contains(other) ==> s.without_detail(number).details[other]
            == s.details[other] && s.with_detail(number, Some(d)).details[other] == s.details[other],
        s.without_detail(number).pending == s.pending,
{
}

} // verus!
