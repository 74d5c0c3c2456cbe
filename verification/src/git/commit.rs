//! Commits as the graph shows them.
use crate::oid::Oid;
use crate::text;
use vstd::prelude::*;
use vstd::string::*;

verus! {

/// A loaded commit.
#[derive(Debug)]
pub struct CommitInfo {
    pub oid: Oid,
    pub short_id: String,
    pub author_name: String,
    pub author_email: String,
    /// Commit time in seconds since the epoch.
    pub timestamp: i64,
    /// The first line of the message.
    pub message: String,
    pub full_message: String,
    pub parent_oids: Vec<Oid>,
}

/// A commit as a mathematical value.
#[verifier::ext_equal]
pub struct CommitView {
    pub oid: Oid,
    pub short_id: Seq<char>,
    pub author_name: Seq<char>,
    pub author_email: Seq<char>,
    pub timestamp: i64,
    pub message: Seq<char>,
    pub full_message: Seq<char>,
    pub parents: Seq<Oid>,
}

impl View for CommitInfo {
    type V = CommitView;

    open spec fn view(&self) -> CommitView {
        CommitView {
            oid: self.oid,
            short_id: self.short_id@,
            author_name: self.author_name@,
            author_email: self.author_email@,
            timestamp: self.timestamp,
            message: self.message@,
            full_message: self.full_message@,
            parents: self.parent_oids@,
        }
    }
}

/// A list of commits as mathematical values.
pub open spec fn commits_view(commits: Seq<CommitInfo>) -> Seq<CommitView> {
    commits.map_values(|c: CommitInfo| c@)
}

/// A copy of a list of ids.
pub fn clone_oids(oids: &[Oid]) -> (copy: Vec<Oid>)
    ensures
        copy@ == oids@,
{
    let mut copy: Vec<Oid> = Vec::new();
    let mut i: usize = 0;
    while i < oids.len()
        invariant
            0 <= i <= oids.len(),
            copy@ == oids@.take(i as int),
        decreases oids.len() - i,
    {
        copy.push(oids[i]);
        assert(oids@.take(i + 1) =~= oids@.take(i as int).push(oids@[i as int]));
        i = i + 1;
    }
    assert(oids@.take(i as int) =~= oids@);
    copy
}

impl Clone for CommitInfo {
    fn clone(&self) -> (c: CommitInfo)
        ensures
            c@ == self@,
    {
        CommitInfo {
            oid: self.oid,
            short_id: self.short_id.clone(),
            author_name: self.author_name.clone(),
            author_email: self.author_email.clone(),
            timestamp: self.timestamp,
            message: self.message.clone(),
            full_message: self.full_message.clone(),
            parent_oids: clone_oids(self.parent_oids.as_slice()),
        }
    }
}

/// The 7-character abbreviated form of an id, as shown in graph rows, toasts
/// and prompts.
pub fn short_hash(oid: Oid) -> (short: String)
    ensures
        short@ == oid.hex().take(7),
{
    let text = oid.to_string();
    let short = text.as_str().substring_char(0, 7);
    assert(oid.hex().subrange(0, 7) =~= oid.hex().take(7));
    short.to_owned()
}

/// A commit as it was read from the repository. A name, address or message
/// that is no valid text is `None`.
#[derive(Debug)]
pub struct CommitRecord {
    pub oid: Oid,
    pub author_name: Option<String>,
    pub author_email: Option<String>,
    /// Commit time in seconds since the epoch.
    pub seconds: i64,
    pub message: Option<String>,
    pub parents: Vec<Oid>,
}

/// A text, or another where it is missing.
pub open spec fn text_or(s: Option<String>, other: Seq<char>) -> Seq<char> {
    match s {
        Some(t) => t@,
        None => other,
    }
}

/// The first line of a text, empty where it has none.
pub open spec fn first_line(s: Seq<char>) -> Seq<char> {
    if text::lines(s).len() > 0 {
        text::lines(s)[0]
    } else {
        Seq::empty()
    }
}

/// The commit a record describes.
pub open spec fn described(r: CommitRecord) -> CommitView {
    CommitView {
        oid: r.oid,
        short_id: r.oid.hex().take(7),
        author_name: text_or(r.author_name, "Unknown"@),
        author_email: text_or(r.author_email, Seq::empty()),
        timestamp: r.seconds,
        message: first_line(text_or(r.message, Seq::empty())),
        full_message: text_or(r.message, Seq::empty()),
        parents: r.parents@,
    }
}

fn clone_or(s: &Option<String>, other: &str) -> (t: String)
    ensures
        t@ == text_or(*s, other@),
{
    match s {
        Some(t) => t.clone(),
        None => other.to_owned(),
    }
}

fn first_line_of(s: &str) -> (line: String)
    ensures
        line@ == first_line(s@),
{
    let lines = text::lines_of(s);
    assert(text::char_lists(lines@) == text::lines(s@));
    if lines.len() > 0 {
        assert(text::char_lists(lines@)[0] == lines@[0]@);
        text::text_of(lines[0].as_slice())
    } else {
        String::new()
    }
}

impl CommitInfo {
    /// The commit a record describes: missing parts get a default, and the
    /// message shown in the graph is the first line.
    pub fn from_git2_commit(record: &CommitRecord) -> (c: CommitInfo)
        ensures
            c@ == described(*record),
    {
        let full_message = clone_or(&record.message, "");
        proof {
            reveal_strlit("");
            assert(""@ =~= Seq::<char>::empty());
        }
        let message = first_line_of(full_message.as_str());
        CommitInfo {
            oid: record.oid,
            short_id: short_hash(record.oid),
            author_name: clone_or(&record.author_name, "Unknown"),
            author_email: clone_or(&record.author_email, ""),
            timestamp: record.seconds,
            message,
            full_message,
            parent_oids: clone_oids(record.parents.as_slice()),
        }
    }
}

/// A commit as it is shown: its own id, time and parents; an author who cannot be
/// read is `Unknown`; the id is shortened to its first seven digits.
pub proof fn law_commits_are_shown_as_read(r: CommitRecord)
    ensures
        described(r).oid == r.oid,
        described(r).timestamp == r.seconds,
        described(r).parents == r.parents@,
        described(r).short_id == r.oid.hex().take(7),
        r.author_name matches Some(name) ==> described(r).author_name == name@,
        r.author_name is None ==> described(r).author_name == "Unknown"@,
        r.author_email matches Some(email) ==> described(r).author_email == email@,
        r.author_email is None ==> described(r).author_email.len() == 0,
        r.message matches Some(m) ==> described(r).full_message == m@ && described(r).message == first_line(m@),
        r.message is None ==> described(r).full_message.len() == 0 && described(r).message.len() == 0,
{
    if r.message is None {
        text::laws::law_lines(Seq::empty(), Seq::empty());
    }
}

/// The first line ends at the first line feed, and a carriage return before it
/// does not belong to it; a text without one is its own first line.
pub proof fn law_first_line(a: Seq<char>, b: Seq<char>)
    requires
        !a.contains('\n'),
    ensures
        first_line(a) == a,
        a.len() == 0 || a.last() != '\r' ==> first_line(a + seq!['\n'] + b) == a,
        a.len() > 0 && a.last() == '\r' ==> first_line(a + seq!['\n'] + b) == a.drop_last(),
{
    text::laws::law_lines(a, b);
    if a.len() == 0 {
        assert(a =~= Seq::<char>::empty());
    }
}

} // verus!
