//! Which issues are blocked by an open one.
use vstd::prelude::*;
use vstd::string::*;

use std::collections::HashSet;

use crate::issue;
use crate::scan;
use crate::text;

verus! {

broadcast use vstd::std_specs::hash::group_hash_axioms;

/// The query for the open issues of a repository, with their bodies and the
/// issues that block them.
pub const BLOCKED_QUERY: &'static str = "query($owner:String!,$name:String!){repository(owner:$owner,name:$name){issues(first:100,states:OPEN){nodes{number body blockedBy(first:20){nodes{number state}}}}}}";

/// The lower-case form of a text, by the rules of Unicode.
pub uninterp spec fn lowercase(text: Seq<char>) -> Seq<char>;

/// Calls `str::to_lowercase`. The result depends on the text alone. ASCII
/// letters have the ASCII letters as their lower-case form and nothing else in
/// ASCII has another one, so that the letter case of the ASCII letters makes no
/// difference and a text in ASCII only has its letters lowered.
#[verifier::external_body]
fn to_lowercase(text: &str) -> (s: String)
    ensures
        s@ == lowercase(text@),
        s@ == lowercase(text::lower(text@)),
        text::is_plain_ascii(text@) ==> s@ == text::lower(text@),
{
    text.to_lowercase()
}

/// The leading digits of a text.
pub open spec fn leading_digits(s: Seq<char>) -> Seq<char>
    decreases s.len(),
{
    if s.len() > 0 && text::is_digit(s[0]) {
        seq![s[0]] + leading_digits(s.skip(1))
    } else {
        Seq::empty()
    }
}

/// The number that a text starts with, where it starts with one that is not
/// too large.
pub open spec fn leading_number(s: Seq<char>) -> Option<u64> {
    let digits = leading_digits(s);
    if digits.len() > 0 && text::digits_value(digits) <= u64::MAX {
        Some(text::digits_value(digits) as u64)
    } else {
        None
    }
}

/// The issue that a text refers to at its start: a number behind a bare `#`.
pub open spec fn leading_ref(s: Seq<char>) -> Option<u64> {
    let t = text::trim_start(s);
    if t.len() > 0 && t[0] == '#' {
        leading_number(t.skip(1))
    } else {
        None
    }
}

/// A list with one more number, unless it is there.
pub open spec fn added(out: Seq<u64>, n: Option<u64>) -> Seq<u64> {
    match n {
        Some(n) => if out.contains(n) {
            out
        } else {
            out.push(n)
        },
        None => out,
    }
}

/// The issues referred to behind each occurrence of a phrase.
pub open spec fn after_phrase(s: Seq<char>, phrase: Seq<char>, out: Seq<u64>) -> Seq<u64>
    decreases s.len(),
{
    if phrase.len() == 0 {
        out
    } else {
        match scan::find(s, phrase) {
            None => out,
            Some(i) => if 0 <= i <= s.len() - phrase.len() {
                let rest = s.skip(i + phrase.len());
                after_phrase(rest, phrase, added(out, leading_ref(rest)))
            } else {
                out
            },
        }
    }
}

/// The issue that an unchecked row of a task list refers to.
pub open spec fn task_ref(line: Seq<char>) -> Option<u64> {
    let t = text::trim_start(line);
    if text::starts(t, "- [ ]"@) {
        leading_ref(t.skip("- [ ]"@.len() as int))
    } else if text::starts(t, "* [ ]"@) {
        leading_ref(t.skip("* [ ]"@.len() as int))
    } else if text::starts(t, "[ ]"@) {
        leading_ref(t.skip("[ ]"@.len() as int))
    } else {
        None
    }
}

/// The issues that the unchecked rows among some lines refer to.
pub open spec fn in_tasks(lines: Seq<Seq<char>>, out: Seq<u64>) -> Seq<u64>
    decreases lines.len(),
{
    if lines.len() == 0 {
        out
    } else {
        added(in_tasks(lines.drop_last(), out), task_ref(lines.last()))
    }
}

/// The issues that a body, in lower case, names as blockers: behind "blocked
/// by", then behind "depends on", then in unchecked task rows, each once.
pub open spec fn blockers(lower: Seq<char>) -> Seq<u64> {
    in_tasks(
        text::lines(lower),
        after_phrase(lower, "depends on"@, after_phrase(lower, "blocked by"@, Seq::empty())),
    )
}

fn push_new(out: &mut Vec<u64>, n: Option<u64>)
    ensures
        final(out)@ == added(old(out)@, n),
{
    if let Some(number) = n {
        let mut i: usize = 0;
        while i < out.len()
            invariant
                0 <= i <= out.len(),
                *out == *old(out),
                n == Some(number),
                forall|k: int| 0 <= k < i ==> out@[k] != number,
            decreases out.len() - i,
        {
            if out[i] == number {
                assert(out@.contains(number));
                return;
            }
            i = i + 1;
        }
        assert(!out@.contains(number));
        out.push(number);
    }
}

/// The number that a text starts with.
pub fn number_at_start(s: &[char]) -> (n: Option<u64>)
    ensures
        n == leading_number(s@),
{
    let mut i: usize = 0;
    let mut n: u64 = 0;
    let mut too_large = false;
    assert(s@.skip(0) =~= s@);
    assert(leading_digits(s@) =~= s@.take(0) + leading_digits(s@.skip(0)));
    assert(s@.take(0) =~= Seq::empty());
    while i < s.len() && '0' <= s[i] && s[i] <= '9'
        invariant
            0 <= i <= s.len(),
            leading_digits(s@) == s@.take(i as int) + leading_digits(s@.skip(i as int)),
            !too_large ==> n == text::digits_value(s@.take(i as int)),
            too_large ==> text::digits_value(s@.take(i as int)) > u64::MAX,
        decreases s.len() - i,
    {
        let d: u64 = (s[i] as u32 - '0' as u32) as u64;
        let ghost rest = s@.skip(i as int);
        assert(rest[0] == s@[i as int]);
        assert(rest.skip(1) =~= s@.skip(i + 1));
        assert(s@.take(i + 1) =~= s@.take(i as int).push(s@[i as int]));
        assert(s@.take(i + 1).drop_last() =~= s@.take(i as int));
        assert(leading_digits(s@) =~= s@.take(i + 1) + leading_digits(s@.skip(i + 1)));
        if !too_large {
            match n.checked_mul(10) {
                Some(m) => match m.checked_add(d) {
                    Some(v) => {
                        n = v;
                    },
                    None => {
                        too_large = true;
                    },
                },
                None => {
                    too_large = true;
                },
            }
        }
        i = i + 1;
    }
    assert(leading_digits(s@.skip(i as int)) =~= Seq::empty()) by {
        if i < s.len() {
            assert(s@.skip(i as int)[0] == s@[i as int]);
        }
    }
    assert(leading_digits(s@) =~= s@.take(i as int));
    if i == 0 || too_large {
        None
    } else {
        Some(n)
    }
}

fn leading_issue_ref(s: &[char]) -> (n: Option<u64>)
    ensures
        n == leading_ref(s@),
{
    let from: usize = text::leading_spaces(s);
    if from < s.len() && s[from] == '#' {
        assert(s@.skip(from as int)[0] == '#');
        let rest = vstd::slice::slice_subrange(s, from + 1, s.len());
        assert(rest@ =~= s@.skip(from as int).skip(1));
        number_at_start(rest)
    } else {
        proof {
            let t = s@.skip(from as int);
            if t.len() > 0 {
                assert(t[0] == s@[from as int]);
            }
        }
        None
    }
}

fn collect_phrase(s: &[char], phrase: &str, out: &mut Vec<u64>)
    requires
        phrase@.len() > 0,
    ensures
        final(out)@ == after_phrase(s@, phrase@, old(out)@),
{
    let p = text::chars_of(phrase);
    let mut from: usize = 0;
    let ghost start = out@;
    assert(s@.skip(0) =~= s@);
    loop
        invariant
            0 <= from <= s.len(),
            p@ == phrase@,
            p@.len() > 0,
            after_phrase(s@, phrase@, start) == after_phrase(s@.skip(from as int), phrase@, out@),
        ensures
            out@ == after_phrase(s@, phrase@, start),
        decreases s.len() - from,
    {
        let rest = vstd::slice::slice_subrange(s, from, s.len());
        assert(rest@ =~= s@.skip(from as int));
        let n: usize = rest.len();
        match scan::find_chars(rest, p.as_slice()) {
            None => {
                break;
            },
            Some(i) => {
                assert(i + p@.len() <= n);
                let after = vstd::slice::slice_subrange(rest, i + p.len(), n);
                assert(after@ =~= rest@.skip(i + p@.len()));
                assert(after@ =~= s@.skip(from + i + p@.len()));
                push_new(out, leading_issue_ref(after));
                from = from + i + p.len();
            },
        }
    }
}

fn after_prefix<'a>(s: &'a [char], prefix: &str) -> (rest: Option<&'a [char]>)
    ensures
        match rest {
            Some(r) => text::starts(s@, prefix@) && r@ == s@.skip(prefix@.len() as int),
            None => !text::starts(s@, prefix@),
        },
{
    let p = text::chars_of(prefix);
    if text::is_at(s, p.as_slice(), 0) {
        let rest = vstd::slice::slice_subrange(s, p.len(), s.len());
        assert(rest@ =~= s@.skip(prefix@.len() as int));
        Some(rest)
    } else {
        None
    }
}

fn task_row(line: &[char]) -> (n: Option<u64>)
    ensures
        n == task_ref(line@),
{
    let from: usize = text::leading_spaces(line);
    let t = vstd::slice::slice_subrange(line, from, line.len());
    assert(t@ =~= line@.skip(from as int));
    if let Some(rest) = after_prefix(t, "- [ ]") {
        return leading_issue_ref(rest);
    }
    if let Some(rest) = after_prefix(t, "* [ ]") {
        return leading_issue_ref(rest);
    }
    if let Some(rest) = after_prefix(t, "[ ]") {
        return leading_issue_ref(rest);
    }
    None
}

/// The issues that a body in lower case names as blockers.
pub fn blockers_in_lower(lower: &str) -> (found: Vec<u64>)
    ensures
        found@ == blockers(lower@),
{
    let chars = text::chars_of(lower);
    let mut found: Vec<u64> = Vec::new();
    proof {
        reveal_strlit("blocked by");
        reveal_strlit("depends on");
    }
    collect_phrase(chars.as_slice(), "blocked by", &mut found);
    collect_phrase(chars.as_slice(), "depends on", &mut found);
    let lines = text::lines_of(lower);
    let ghost all = text::lines(lower@);
    let ghost start = found@;
    let mut i: usize = 0;
    assert(all.take(0) =~= Seq::empty());
    while i < lines.len()
        invariant
            0 <= i <= lines.len(),
            all == text::char_lists(lines@),
            found@ == in_tasks(all.take(i as int), start),
        decreases lines.len() - i,
    {
        assert(all.take(i + 1).drop_last() =~= all.take(i as int));
        assert(all.take(i + 1).last() == lines@[i as int]@);
        push_new(&mut found, task_row(lines[i].as_slice()));
        i = i + 1;
    }
    assert(all.take(i as int) =~= all);
    found
}

/// The issues that a body names as blockers, in whatever case its letters are.
pub open spec fn body_blockers(body: Seq<char>) -> Seq<u64> {
    blockers(lowercase(text::lower(body)))
}

/// The issues that a body names as blockers, in any letter case. A reference
/// into another repository is none.
pub fn blockers_in_body(body: &str) -> (found: Vec<u64>)
    ensures
        found@ == blockers(lowercase(body@)),
        found@ == body_blockers(body@),
        text::is_plain_ascii(body@) ==> found@ == blockers(text::lower(body@)),
{
    let lower = to_lowercase(body);
    blockers_in_lower(lower.as_str())
}

/// An issue that blocks another.
#[derive(Debug, Clone)]
pub struct RawBlocker {
    pub open: bool,
}

/// An open issue with what may block it.
#[derive(Debug, Clone)]
pub struct RawBlockedIssue {
    pub number: u64,
    pub body: String,
    pub native: Vec<RawBlocker>,
}

/// An open issue as a value: its number, its body, and of each issue that
/// blocks it whether it is open.
pub struct BlockedView {
    pub number: u64,
    pub body: Seq<char>,
    pub native: Seq<bool>,
}

impl View for RawBlockedIssue {
    type V = BlockedView;

    open spec fn view(&self) -> BlockedView {
        BlockedView {
            number: self.number,
            body: self.body@,
            native: self.native@.map_values(|b: RawBlocker| b.open),
        }
    }
}

/// Issues as values.
pub open spec fn issues_view(v: Seq<RawBlockedIssue>) -> Seq<BlockedView> {
    v.map_values(|i: RawBlockedIssue| i@)
}

/// Whether a number is that of an open issue.
pub open spec fn is_open(issues: Seq<BlockedView>, n: u64) -> bool {
    exists|i: int| 0 <= i < issues.len() && (#[trigger] issues[i]).number == n
}

/// The issues that the body of an issue names as blockers.
pub open spec fn named_blockers(issue: BlockedView) -> Seq<u64> {
    blockers(lowercase(issue.body))
}

/// Whether an issue is blocked: an open issue blocks it, or its body names
/// another open issue as a blocker.
pub open spec fn is_blocked(issues: Seq<BlockedView>, issue: BlockedView) -> bool {
    ||| issue.native.contains(true)
    ||| exists|n: u64| #[trigger]
        named_blockers(issue).contains(n) && n != issue.number && is_open(issues, n)
}

/// The numbers of the blocked issues.
pub open spec fn blocked_numbers(issues: Seq<BlockedView>) -> Set<u64> {
    Set::new(
        |n: u64|
            exists|i: int|
                0 <= i < issues.len() && (#[trigger] issues[i]).number == n && is_blocked(issues, issues[i]),
    )
}

fn open_numbers(issues: &[RawBlockedIssue]) -> (open: HashSet<u64>)
    ensures
        forall|n: u64| #[trigger] open@.contains(n) <==> is_open(issues_view(issues@), n),
{
    let mut open: HashSet<u64> = HashSet::new();
    let ghost all = issues_view(issues@);
    let mut i: usize = 0;
    while i < issues.len()
        invariant
            0 <= i <= issues.len(),
            all == issues_view(issues@),
            forall|n: u64| #[trigger] open@.contains(n) <==> is_open(all.take(i as int), n),
        decreases issues.len() - i,
    {
        let ghost before = open@;
        let ghost done = all.take(i as int);
        let ghost now = all.take(i + 1);
        open.insert(issues[i].number);
        assert forall|n: u64| #[trigger] open@.contains(n) <==> is_open(now, n) by {
            if open@.contains(n) {
                if before.contains(n) {
                    let j = choose|j: int| 0 <= j < done.len() && (#[trigger] done[j]).number == n;
                    assert(now[j].number == n);
                } else {
                    assert(now[i as int].number == n);
                }
            }
            if is_open(now, n) {
                let j = choose|j: int| 0 <= j < now.len() && (#[trigger] now[j]).number == n;
                if j < i {
                    assert(done[j].number == n);
                    assert(is_open(done, n));
                    assert(before.contains(n));
                }
            }
        }
        i = i + 1;
    }
    assert(all.take(i as int) =~= all);
    open
}

fn any_open(native: &Vec<RawBlocker>) -> (yes: bool)
    ensures
        yes == native@.map_values(|b: RawBlocker| b.open).contains(true),
{
    let ghost flags = native@.map_values(|b: RawBlocker| b.open);
    let mut k: usize = 0;
    while k < native.len()
        invariant
            0 <= k <= native.len(),
            flags == native@.map_values(|b: RawBlocker| b.open),
            forall|j: int| 0 <= j < k ==> !#[trigger] flags[j],
        decreases native.len() - k,
    {
        assert(flags[k as int] == native@[k as int].open);
        if native[k].open {
            return true;
        }
        k = k + 1;
    }
    false
}

fn any_other_open(found: &Vec<u64>, own: u64, open: &HashSet<u64>) -> (yes: bool)
    ensures
        yes == exists|n: u64| #[trigger] found@.contains(n) && n != own && open@.contains(n),
{
    let mut k: usize = 0;
    while k < found.len()
        invariant
            0 <= k <= found.len(),
            forall|j: int| 0 <= j < k ==> #[trigger] found@[j] == own || !open@.contains(found@[j]),
        decreases found.len() - k,
    {
        if found[k] != own && open.contains(&found[k]) {
            assert(found@.contains(found@[k as int]));
            return true;
        }
        k = k + 1;
    }
    false
}

/// The numbers of the issues that an open one blocks, out of all open issues.
pub fn compute_blocked_set(issues: &[RawBlockedIssue]) -> (blocked: HashSet<u64>)
    ensures
        blocked@ == blocked_numbers(issues_view(issues@)),
{
    let open = open_numbers(issues);
    let mut blocked: HashSet<u64> = HashSet::new();
    let ghost all = issues_view(issues@);
    let mut i: usize = 0;
    while i < issues.len()
        invariant
            0 <= i <= issues.len(),
            all == issues_view(issues@),
            forall|n: u64| #[trigger] open@.contains(n) <==> is_open(all, n),
            forall|n: u64| #[trigger]
                blocked@.contains(n) <==> exists|j: int|
                    0 <= j < i && (#[trigger] all[j]).number == n && is_blocked(all, all[j]),
        decreases issues.len() - i,
    {
        let issue = &issues[i];
        let ghost own = all[i as int];
        let native = any_open(&issue.native);
        let found = blockers_in_body(issue.body.as_str());
        let by_body = any_other_open(&found, issue.number, &open);
        let ghost before = blocked@;
        assert(own == issue@);
        assert(found@ == named_blockers(own));
        assert(by_body == exists|n: u64| #[trigger]
            named_blockers(own).contains(n) && n != own.number && is_open(all, n)) by {
            if by_body {
                let n = choose|n: u64| #[trigger] found@.contains(n) && n != own.number && open@.contains(n);
                assert(named_blockers(own).contains(n) && n != own.number && is_open(all, n));
            }
            if exists|n: u64| #[trigger]
                named_blockers(own).contains(n) && n != own.number && is_open(all, n) {
                let n = choose|n: u64| #[trigger]
                    named_blockers(own).contains(n) && n != own.number && is_open(all, n);
                assert(open@.contains(n));
                assert(found@.contains(n) && n != own.number && open@.contains(n));
            }
        }
        if native || by_body {
            blocked.insert(issue.number);
        }
        assert forall|n: u64| #[trigger] blocked@.contains(n) <==> exists|j: int|
            0 <= j < i + 1 && (#[trigger] all[j]).number == n && is_blocked(all, all[j]) by {
            if blocked@.contains(n) {
                if before.contains(n) {
                    let j = choose|j: int|
                        0 <= j < i && (#[trigger] all[j]).number == n && is_blocked(all, all[j]);
                    assert(all[j].number == n);
                } else {
                    assert(all[i as int].number == n);
                }
            }
        }
        i = i + 1;
    }
    assert(blocked@ =~= blocked_numbers(all));
    blocked
}

/// A blocker as the query returned it.
#[derive(Debug)]
pub struct GqlBlockerNode {
    pub state: String,
}

/// An open issue as the query returned it.
#[derive(Debug)]
pub struct GqlIssueNode {
    pub number: u64,
    pub body: Option<String>,
    pub blocked_by: Vec<GqlBlockerNode>,
}

/// The answer to the query: the open issues, `None` where the repository is
/// missing from it.
#[derive(Debug)]
pub struct GqlResponse {
    pub issues: Option<Vec<GqlIssueNode>>,
}

/// The open issue that a node describes. A blocker counts as open unless it
/// says that it is closed.
pub open spec fn described(node: GqlIssueNode) -> BlockedView {
    BlockedView {
        number: node.number,
        body: match node.body {
            Some(b) => b@,
            None => Seq::empty(),
        },
        native: node.blocked_by@.map_values(|b: GqlBlockerNode| text::lower(b.state@) != "closed"@),
    }
}

fn raw_issue(node: &GqlIssueNode) -> (issue: RawBlockedIssue)
    ensures
        issue@ == described(*node),
{
    let mut native: Vec<RawBlocker> = Vec::new();
    let mut k: usize = 0;
    while k < node.blocked_by.len()
        invariant
            0 <= k <= node.blocked_by.len(),
            native@.len() == k,
            forall|j: int|
                0 <= j < k ==> (#[trigger] native@[j]).open == (text::lower(node.blocked_by@[j].state@)
                    != "closed"@),
        decreases node.blocked_by.len() - k,
    {
        native.push(RawBlocker { open: !issue::is_closed(node.blocked_by[k].state.as_str()) });
        k = k + 1;
    }
    let body = match &node.body {
        Some(b) => b.clone(),
        None => String::new(),
    };
    let issue = RawBlockedIssue { number: node.number, body, native };
    assert(issue@.native =~= described(*node).native);
    assert(issue@.body =~= described(*node).body);
    issue
}

/// The numbers of the blocked issues, given the decoded answer to the query or
/// the decoder's message. An answer without the repository is an error.
pub fn parse_blocked(response: Result<GqlResponse, String>) -> (r: Result<HashSet<u64>, String>)
    ensures
        match response {
            Err(e) => r is Err && (r->Err_0)@ == e@,
            Ok(a) => match a.issues {
                None => r is Err && (r->Err_0)@ == "no repository in graphql response"@,
                Some(nodes) => r is Ok && (r->Ok_0)@ == blocked_numbers(
                    nodes@.map_values(|n: GqlIssueNode| described(n)),
                ),
            },
        },
{
    let answer = match response {
        Err(e) => {
            return Err(e);
        },
        Ok(a) => a,
    };
    let nodes = match answer.issues {
        None => {
            return Err("no repository in graphql response".to_owned());
        },
        Some(nodes) => nodes,
    };
    let mut issues: Vec<RawBlockedIssue> = Vec::new();
    let mut i: usize = 0;
    while i < nodes.len()
        invariant
            0 <= i <= nodes.len(),
            issues@.len() == i,
            forall|k: int| 0 <= k < i ==> (#[trigger] issues@[k])@ == described(nodes@[k]),
        decreases nodes.len() - i,
    {
        issues.push(raw_issue(&nodes[i]));
        i = i + 1;
    }
    assert(issues_view(issues@) =~= nodes@.map_values(|n: GqlIssueNode| described(n)));
    Ok(compute_blocked_set(issues.as_slice()))
}

/// References to the issue itself, to closed issues and to numbers that are no
/// issue never block.
pub proof fn law_only_open_others_block(issues: Seq<BlockedView>, issue: BlockedView)
    ensures
        !issue.native.contains(true) && (forall|n: u64| #[trigger]
            named_blockers(issue).contains(n) ==> n == issue.number || !is_open(issues, n)) ==> !is_blocked(
            issues,
            issue,
        ),
{
}

/// Only open issues are ever reported as blocked.
pub proof fn law_blocked_issues_are_open(issues: Seq<BlockedView>, n: u64)
    ensures
        blocked_numbers(issues).contains(n) ==> is_open(issues, n),
{
}

proof fn lemma_after_phrase_unique(s: Seq<char>, phrase: Seq<char>, out: Seq<u64>)
    requires
        out.no_duplicates(),
    ensures
        after_phrase(s, phrase, out).no_duplicates(),
    decreases s.len(),
{
    if phrase.len() > 0 {
        match scan::find(s, phrase) {
            None => {},
            Some(i) => {
                if 0 <= i <= s.len() - phrase.len() {
                    let rest = s.skip(i + phrase.len());
                    lemma_after_phrase_unique(rest, phrase, added(out, leading_ref(rest)));
                }
            },
        }
    }
}

proof fn lemma_in_tasks_unique(lines: Seq<Seq<char>>, out: Seq<u64>)
    requires
        out.no_duplicates(),
    ensures
        in_tasks(lines, out).no_duplicates(),
    decreases lines.len(),
{
    if lines.len() > 0 {
        lemma_in_tasks_unique(lines.drop_last(), out);
    }
}

/// The letter case of a body makes no difference to the blockers it names.
pub proof fn law_letter_case_does_not_matter(a: Seq<char>, b: Seq<char>)
    requires
        a.len() == b.len(),
        forall|i: int| 0 <= i < a.len() ==> text::lower_char(#[trigger] a[i]) == text::lower_char(b[i]),
    ensures
        body_blockers(a) == body_blockers(b),
{
    assert(text::lower(a) =~= text::lower(b));
}

/// Every blocker is named once.
pub proof fn law_blockers_are_distinct(lower: Seq<char>)
    ensures
        blockers(lower).no_duplicates(),
{
    let first = after_phrase(lower, "blocked by"@, Seq::empty());
    lemma_after_phrase_unique(lower, "blocked by"@, Seq::empty());
    lemma_after_phrase_unique(lower, "depends on"@, first);
    lemma_in_tasks_unique(text::lines(lower), after_phrase(lower, "depends on"@, first));
}

proof fn lemma_leading_digits(digits: Seq<char>, rest: Seq<char>)
    requires
        forall|i: int| 0 <= i < digits.len() ==> '0' <= #[trigger] digits[i] <= '9',
        rest.len() == 0 || !('0' <= rest[0] <= '9'),
    ensures
        leading_digits(digits + rest) == digits,
    decreases digits.len(),
{
    let s = digits + rest;
    if digits.len() == 0 {
        assert(s =~= rest);
        assert(leading_digits(s) =~= digits);
    } else {
        assert(s[0] == digits[0]);
        assert(s.skip(1) =~= digits.skip(1) + rest);
        assert forall|i: int| 0 <= i < digits.skip(1).len() implies '0' <= #[trigger] digits.skip(1)[i] <= '9' by {
            assert(digits[i + 1] == digits.skip(1)[i]);
        }
        lemma_leading_digits(digits.skip(1), rest);
        assert(seq![digits[0]] + digits.skip(1) =~= digits);
    }
}

/// A number at the start of a text is read whole, up to the first character that
/// is no digit.
pub proof fn law_numbers_are_read_whole(n: u64, rest: Seq<char>)
    requires
        rest.len() == 0 || !('0' <= rest[0] <= '9'),
    ensures
        leading_number(text::decimal(n as nat) + rest) == Some(n),
        leading_number(rest) is None,
{
    text::laws::law_decimal(n as nat);
    let d = text::decimal(n as nat);
    assert forall|i: int| 0 <= i < d.len() implies '0' <= #[trigger] d[i] <= '9' by {}
    lemma_leading_digits(d, rest);
    let none = Seq::<char>::empty();
    lemma_leading_digits(none, rest);
    assert(none + rest =~= rest);
}

proof fn lemma_trim_start_spaces(space: Seq<char>, t: Seq<char>)
    requires
        text::laws::all_space(space),
        t.len() == 0 || !text::is_space(t[0]),
    ensures
        text::trim_start(space + t) == t,
    decreases space.len(),
{
    let s = space + t;
    if space.len() == 0 {
        assert(s =~= t);
    } else {
        assert(s[0] == space[0]);
        assert(s.skip(1) =~= space.skip(1) + t);
        assert forall|i: int| 0 <= i < space.skip(1).len() implies text::is_space(#[trigger] space.skip(1)[i]) by {
            assert(space[i + 1] == space.skip(1)[i]);
        }
        lemma_trim_start_spaces(space.skip(1), t);
    }
}

/// A reference is a `#` directly before a number, behind white space at most.
/// What starts otherwise, such as the name of another repository, is none.
pub proof fn law_references(space: Seq<char>, n: u64, rest: Seq<char>, other: Seq<char>)
    requires
        text::laws::all_space(space),
        rest.len() == 0 || !('0' <= rest[0] <= '9'),
        other.len() == 0 || other[0] != '#' && !text::is_space(other[0]),
    ensures
        leading_ref(space + (seq!['#'] + text::decimal(n as nat) + rest)) == Some(n),
        leading_ref(space + (seq!['#'] + rest)) is None,
        leading_ref(space + other) is None,
{
    law_numbers_are_read_whole(n, rest);
    let t = seq!['#'] + text::decimal(n as nat) + rest;
    lemma_trim_start_spaces(space, t);
    assert(t.skip(1) =~= text::decimal(n as nat) + rest);
    let u = seq!['#'] + rest;
    lemma_trim_start_spaces(space, u);
    assert(u.skip(1) =~= rest);
    lemma_trim_start_spaces(space, other);
}

proof fn lemma_added(out: Seq<u64>, n: Option<u64>, x: u64)
    ensures
        added(out, n).contains(x) <==> out.contains(x) || n == Some(x),
{
    match n {
        Some(m) => {
            if !out.contains(m) {
                assert(out.push(m)[out.len() as int] == m);
                if out.contains(x) {
                    let i = choose|i: int| 0 <= i < out.len() && out[i] == x;
                    assert(out.push(m)[i] == x);
                }
                if out.push(m).contains(x) && x != m {
                    let i = choose|i: int| 0 <= i < out.push(m).len() && out.push(m)[i] == x;
                    assert(out[i] == x);
                }
            }
        },
        None => {},
    }
}

/// What a phrase names: nothing that was found before is lost; the reference behind
/// the first occurrence counts, as do those in the rest; and whatever is found
/// stands behind some occurrence.
pub proof fn law_references_behind_a_phrase(s: Seq<char>, phrase: Seq<char>, out: Seq<u64>, x: u64)
    requires
        phrase.len() > 0,
    ensures
        out.contains(x) ==> after_phrase(s, phrase, out).contains(x),
        match scan::find(s, phrase) {
            Some(i) => {
                let rest = s.skip(i + phrase.len());
                &&& leading_ref(rest) == Some(x) ==> after_phrase(s, phrase, out).contains(x)
                &&& after_phrase(rest, phrase, out).contains(x) ==> after_phrase(s, phrase, out).contains(x)
            },
            None => after_phrase(s, phrase, out) == out,
        },
        after_phrase(s, phrase, out).contains(x) && !out.contains(x) ==> exists|j: int|
            0 <= j <= s.len() - phrase.len() && s.subrange(j, j + phrase.len()) == phrase && #[trigger] leading_ref(
                s.skip(j + phrase.len()),
            ) == Some(x),
    decreases s.len(),
{
    text::laws::law_find(s, phrase);
    match scan::find(s, phrase) {
        None => {},
        Some(i) => {
            let rest = s.skip(i + phrase.len());
            let next = added(out, leading_ref(rest));
            lemma_added(out, leading_ref(rest), x);
            law_references_behind_a_phrase(rest, phrase, next, x);
            assert forall|y: u64| out.contains(y) implies #[trigger] next.contains(y) by {
                lemma_added(out, leading_ref(rest), y);
            }
            lemma_more_found(rest, phrase, out, next, x);
            if after_phrase(s, phrase, out).contains(x) && !out.contains(x) {
                if leading_ref(rest) == Some(x) {
                    assert(leading_ref(s.skip(i + phrase.len())) == Some(x));
                } else {
                    let j = choose|j: int|
                        0 <= j <= rest.len() - phrase.len() && rest.subrange(j, j + phrase.len()) == phrase
                            && #[trigger] leading_ref(rest.skip(j + phrase.len())) == Some(x);
                    let k = i + phrase.len() + j;
                    assert(s.subrange(k, k + phrase.len()) =~= rest.subrange(j, j + phrase.len()));
                    assert(s.skip(k + phrase.len()) =~= rest.skip(j + phrase.len()));
                    assert(leading_ref(s.skip(k + phrase.len())) == Some(x));
                }
            }
        },
    }
}

proof fn lemma_more_found(s: Seq<char>, phrase: Seq<char>, a: Seq<u64>, b: Seq<u64>, x: u64)
    requires
        phrase.len() > 0,
        forall|y: u64| a.contains(y) ==> #[trigger] b.contains(y),
    ensures
        after_phrase(s, phrase, a).contains(x) ==> after_phrase(s, phrase, b).contains(x),
    decreases s.len(),
{
    match scan::find(s, phrase) {
        None => {
            if a.contains(x) {
                assert(b.contains(x));
            }
        },
        Some(i) => {
            if 0 <= i <= s.len() - phrase.len() {
                let rest = s.skip(i + phrase.len());
                let n = leading_ref(rest);
                assert forall|y: u64| added(a, n).contains(y) implies #[trigger] added(b, n).contains(y) by {
                    lemma_added(a, n, y);
                    lemma_added(b, n, y);
                    if a.contains(y) {
                        assert(b.contains(y));
                    }
                }
                lemma_more_found(rest, phrase, added(a, n), added(b, n), x);
            } else if a.contains(x) {
                assert(b.contains(x));
            }
        },
    }
}

/// The rows of a task list that count: unchecked, behind a dash, a star or nothing,
/// with a reference directly behind the box. A checked row names no blocker.
pub proof fn law_task_rows(space: Seq<char>, rest: Seq<char>)
    requires
        text::laws::all_space(space),
    ensures
        task_ref(space + ("- [ ]"@ + rest)) == leading_ref(rest),
        task_ref(space + ("* [ ]"@ + rest)) == leading_ref(rest),
        task_ref(space + ("[ ]"@ + rest)) == leading_ref(rest),
        task_ref(space + ("- [x]"@ + rest)) is None,
        task_ref(space + ("* [x]"@ + rest)) is None,
        task_ref(space + ("[x]"@ + rest)) is None,
{
    reveal_strlit("- [ ]");
    reveal_strlit("* [ ]");
    reveal_strlit("[ ]");
    reveal_strlit("- [x]");
    reveal_strlit("* [x]");
    reveal_strlit("[x]");
    let a = "- [ ]"@ + rest;
    let b = "* [ ]"@ + rest;
    let c = "[ ]"@ + rest;
    let d = "- [x]"@ + rest;
    let e = "* [x]"@ + rest;
    let f = "[x]"@ + rest;
    lemma_trim_start_spaces(space, a);
    lemma_trim_start_spaces(space, b);
    lemma_trim_start_spaces(space, c);
    lemma_trim_start_spaces(space, d);
    lemma_trim_start_spaces(space, e);
    lemma_trim_start_spaces(space, f);
    assert(a.subrange(0, 5) =~= "- [ ]"@);
    assert(a.skip(5) =~= rest);
    assert(b.subrange(0, 5) =~= "* [ ]"@);
    assert(b.skip(5) =~= rest);
    assert(b.subrange(0, 5)[0] == '*');
    assert(c.subrange(0, 3) =~= "[ ]"@);
    assert(c.skip(3) =~= rest);
    if c.len() >= 5 {
        assert(c.subrange(0, 5)[0] == '[');
    }
    assert(d.subrange(0, 5)[3] == 'x');
    assert(d.subrange(0, 3)[0] == '-');
    assert(e.subrange(0, 5)[3] == 'x');
    assert(e.subrange(0, 5)[0] == '*');
    assert(e.subrange(0, 3)[0] == '*');
    assert(d.subrange(0, 5)[0] == '-');
    assert(f.subrange(0, 3)[1] == 'x');
    if f.len() >= 5 {
        assert(f.subrange(0, 5)[0] == '[');
    }
}

/// Blockers come from three places: behind `blocked by`, behind `depends on`, and
/// out of the rows of task lists.
pub proof fn law_where_blockers_are_named(lower: Seq<char>, i: int, x: u64)
    ensures
        scan::find(lower, "blocked by"@) == Some(i) && leading_ref(lower.skip(i + 10)) == Some(x) ==> blockers(
            lower,
        ).contains(x),
        scan::find(lower, "depends on"@) == Some(i) && leading_ref(lower.skip(i + 10)) == Some(x) ==> blockers(
            lower,
        ).contains(x),
        0 <= i < text::lines(lower).len() && task_ref(text::lines(lower)[i]) == Some(x) ==> blockers(lower).contains(x),
{
    reveal_strlit("blocked by");
    reveal_strlit("depends on");
    let none = Seq::<u64>::empty();
    let first = after_phrase(lower, "blocked by"@, none);
    let second = after_phrase(lower, "depends on"@, first);
    law_references_behind_a_phrase(lower, "blocked by"@, none, x);
    law_references_behind_a_phrase(lower, "depends on"@, first, x);
    lemma_tasks(text::lines(lower), second, i, x);
}

proof fn lemma_tasks(lines: Seq<Seq<char>>, out: Seq<u64>, i: int, x: u64)
    ensures
        out.contains(x) ==> in_tasks(lines, out).contains(x),
        0 <= i < lines.len() && task_ref(lines[i]) == Some(x) ==> in_tasks(lines, out).contains(x),
    decreases lines.len(),
{
    if lines.len() > 0 {
        lemma_tasks(lines.drop_last(), out, i, x);
        lemma_added(in_tasks(lines.drop_last(), out), task_ref(lines.last()), x);
    }
}

/// An issue is blocked by any open issue that the forge names, and by any other
/// open issue that its body names.
pub proof fn law_blocked_issues(issues: Seq<BlockedView>, i: int, k: int, n: u64)
    requires
        0 <= i < issues.len(),
    ensures
        0 <= k < issues[i].native.len() && issues[i].native[k] ==> blocked_numbers(issues).contains(issues[i].number),
        named_blockers(issues[i]).contains(n) && n != issues[i].number && 0 <= k < issues.len() && issues[k].number
            == n ==> blocked_numbers(issues).contains(issues[i].number),
{
    let issue = issues[i];
    if 0 <= k < issue.native.len() && issue.native[k] {
        assert(issue.native.contains(true));
        assert(is_blocked(issues, issue));
    }
    if named_blockers(issue).contains(n) && n != issue.number && 0 <= k < issues.len() && issues[k].number == n {
        assert(is_open(issues, n));
        assert(is_blocked(issues, issue));
    }
}

/// An issue of an answer keeps its number and body, a missing body being empty; a
/// blocker counts as open unless its state reads `closed`.
pub proof fn law_issues_of_an_answer(node: GqlIssueNode, k: int)
    ensures
        described(node).number == node.number,
        node.body matches Some(b) ==> described(node).body == b@,
        node.body is None ==> described(node).body.len() == 0,
        described(node).native.len() == node.blocked_by@.len(),
        0 <= k < node.blocked_by@.len() ==> (described(node).native[k] <==> text::lower(node.blocked_by@[k].state@)
            != "closed"@),
{
}

} // verus!
