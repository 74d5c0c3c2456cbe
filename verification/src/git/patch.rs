//! Unified diffs of single hunks, for staging and discarding by hunk.
//!
//! The diff viewer shows the difference between HEAD and the working tree.
//! One hunk of it becomes a patch of its own, which `git apply` stages
//! (`--cached`), unstages (`--cached -R`) or discards (`-R`).
use vstd::prelude::*;
use vstd::string::*;

use crate::text;

verus! {

/// The role of a line in a hunk.
#[derive(Debug, Clone, Copy, PartialEq, Eq, Structural)]
pub enum PatchLineKind {
    Context,
    Addition,
    Deletion,
}

/// A line of a hunk. The content includes its line ending; a content without
/// one is the last line of its side of the file.
#[derive(Debug, Clone, PartialEq, Eq)]
pub struct PatchLine {
    pub kind: PatchLineKind,
    pub content: String,
}

impl View for PatchLine {
    type V = (PatchLineKind, Seq<char>);

    open spec fn view(&self) -> (PatchLineKind, Seq<char>) {
        (self.kind, self.content@)
    }
}

/// Lines as mathematical values.
pub open spec fn lines_view(v: Seq<PatchLine>) -> Seq<(PatchLineKind, Seq<char>)> {
    v.map_values(|l: PatchLine| l@)
}

/// One hunk with the positions and lengths of both sides.
#[derive(Debug, Clone, PartialEq, Eq)]
pub struct HunkPatch {
    pub old_start: u32,
    pub old_lines: u32,
    pub new_start: u32,
    pub new_lines: u32,
    pub lines: Vec<PatchLine>,
}

/// A hunk as a mathematical value.
#[verifier::ext_equal]
pub struct HunkView {
    pub old_start: u32,
    pub old_lines: u32,
    pub new_start: u32,
    pub new_lines: u32,
    pub lines: Seq<(PatchLineKind, Seq<char>)>,
}

impl View for HunkPatch {
    type V = HunkView;

    open spec fn view(&self) -> HunkView {
        HunkView {
            old_start: self.old_start,
            old_lines: self.old_lines,
            new_start: self.new_start,
            new_lines: self.new_lines,
            lines: lines_view(self.lines@),
        }
    }
}

/// A path with forward slashes.
pub open spec fn slashed(path: Seq<char>) -> Seq<char> {
    path.map_values(
        |c: char|
            if c == '\\' {
                '/'
            } else {
                c
            },
    )
}

/// The character in front of a line.
pub open spec fn marker(kind: PatchLineKind) -> char {
    match kind {
        PatchLineKind::Context => ' ',
        PatchLineKind::Addition => '+',
        PatchLineKind::Deletion => '-',
    }
}

/// One line of a patch: the marker, the content, and a note where the content
/// lacks a line ending.
pub open spec fn rendered_line(line: (PatchLineKind, Seq<char>)) -> Seq<char> {
    let body = seq![marker(line.0)] + line.1;
    if line.1.len() > 0 && line.1.last() == '\n' {
        body
    } else {
        body + "\n\\ No newline at end of file\n"@
    }
}

/// The lines of a patch.
pub open spec fn rendered_lines(lines: Seq<(PatchLineKind, Seq<char>)>) -> Seq<char>
    decreases lines.len(),
{
    if lines.len() == 0 {
        Seq::empty()
    } else {
        rendered_lines(lines.drop_last()) + rendered_line(lines.last())
    }
}

/// The header of a hunk.
pub open spec fn hunk_header(h: HunkView) -> Seq<char> {
    "@@ -"@ + text::decimal(h.old_start as nat) + ","@ + text::decimal(h.old_lines as nat) + " +"@
        + text::decimal(h.new_start as nat) + ","@ + text::decimal(h.new_lines as nat) + " @@\n"@
}

/// A patch with one hunk.
pub open spec fn rendered(path: Seq<char>, h: HunkView) -> Seq<char> {
    "--- a/"@ + slashed(path) + "\n"@ + "+++ b/"@ + slashed(path) + "\n"@ + hunk_header(h) + rendered_lines(
        h.lines,
    )
}

fn slashed_path(path: &str) -> (s: String)
    ensures
        s@ == slashed(path@),
{
    let chars = text::chars_of(path);
    let mut s = String::new();
    let mut i: usize = 0;
    while i < chars.len()
        invariant
            0 <= i <= chars.len(),
            chars@ == path@,
            s@ == slashed(path@).take(i as int),
        decreases chars.len() - i,
    {
        if chars[i] == '\\' {
            s.push('/');
        } else {
            s.push(chars[i]);
        }
        assert(s@ =~= slashed(path@).take(i + 1));
        i = i + 1;
    }
    assert(s@ =~= slashed(path@));
    s
}

/// A patch with one hunk, as `git apply` reads it. The content of the lines
/// passes through unchanged, whatever their endings.
pub fn render_hunk_patch(path: &str, hunk: &HunkPatch) -> (out: String)
    ensures
        out@ == rendered(path@, hunk@),
{
    let shown = slashed_path(path);
    let mut out = "--- a/".to_owned();
    out.append(shown.as_str());
    out.append("\n");
    out.append("+++ b/");
    out.append(shown.as_str());
    out.append("\n");
    let ghost top = out@;
    out.append("@@ -");
    text::push_decimal(&mut out, hunk.old_start as u64);
    out.append(",");
    text::push_decimal(&mut out, hunk.old_lines as u64);
    out.append(" +");
    text::push_decimal(&mut out, hunk.new_start as u64);
    out.append(",");
    text::push_decimal(&mut out, hunk.new_lines as u64);
    out.append(" @@\n");
    assert(out@ =~= top + hunk_header(hunk@));
    let ghost head = out@;
    let ghost all = lines_view(hunk.lines@);
    let mut i: usize = 0;
    assert(all.take(0) =~= Seq::empty());
    assert(head + Seq::empty() =~= head);
    while i < hunk.lines.len()
        invariant
            0 <= i <= hunk.lines.len(),
            all == lines_view(hunk.lines@),
            out@ == head + rendered_lines(all.take(i as int)),
        decreases hunk.lines.len() - i,
    {
        let line = &hunk.lines[i];
        assert(all.take(i + 1).drop_last() =~= all.take(i as int));
        assert(all.take(i + 1).last() == line@);
        let ghost before = out@;
        let mark = match line.kind {
            PatchLineKind::Context => ' ',
            PatchLineKind::Addition => '+',
            PatchLineKind::Deletion => '-',
        };
        out.push(mark);
        out.append(line.content.as_str());
        assert(out@ =~= before + (seq![marker(line.kind)] + line.content@));
        let chars = text::chars_of(line.content.as_str());
        if chars.len() == 0 || chars[chars.len() - 1] != '\n' {
            out.append("\n\\ No newline at end of file\n");
        }
        assert(out@ =~= before + rendered_line(line@));
        assert(out@ =~= head + rendered_lines(all.take(i + 1)));
        i = i + 1;
    }
    assert(all.take(i as int) =~= all);
    assert(out@ =~= rendered(path@, hunk@));
    out
}

/// What a line of a diff is. Notes about a missing line ending come as lines
/// of their own.
#[derive(Debug, Clone, Copy, PartialEq, Eq, Structural)]
pub enum LineOrigin {
    Context,
    Addition,
    Deletion,
    Other,
}

/// A line of a diff as it was read.
#[derive(Debug)]
pub struct RawLine {
    pub origin: LineOrigin,
    pub content: String,
}

/// A hunk of a diff as it was read.
#[derive(Debug)]
pub struct RawHunk {
    pub old_start: u32,
    pub old_lines: u32,
    pub new_start: u32,
    pub new_lines: u32,
    pub lines: Vec<RawLine>,
}

/// The role of a line in a patch, where it has one.
pub open spec fn role(origin: LineOrigin) -> Option<PatchLineKind> {
    match origin {
        LineOrigin::Context => Some(PatchLineKind::Context),
        LineOrigin::Addition => Some(PatchLineKind::Addition),
        LineOrigin::Deletion => Some(PatchLineKind::Deletion),
        LineOrigin::Other => None,
    }
}

/// The lines of a hunk that have a role in a patch.
pub open spec fn body(lines: Seq<RawLine>) -> Seq<(PatchLineKind, Seq<char>)>
    decreases lines.len(),
{
    if lines.len() == 0 {
        Seq::empty()
    } else {
        match role(lines.last().origin) {
            Some(kind) => body(lines.drop_last()).push((kind, lines.last().content@)),
            None => body(lines.drop_last()),
        }
    }
}

/// The hunk with an index out of those of a file's diff: `None` where the file
/// has no textual diff, or fewer hunks.
pub fn extract_hunk_from_working_tree(hunks: Option<&[RawHunk]>, hunk_index: usize) -> (hunk: Option<HunkPatch>)
    ensures
        hunk is Some <==> (hunks is Some && hunk_index < (hunks->0)@.len()),
        hunk is Some ==> (hunk->0)@ == ({
            let raw = (hunks->0)@[hunk_index as int];
            HunkView {
                old_start: raw.old_start,
                old_lines: raw.old_lines,
                new_start: raw.new_start,
                new_lines: raw.new_lines,
                lines: body(raw.lines@),
            }
        }),
{
    let hunks = match hunks {
        None => {
            return None;
        },
        Some(hunks) => hunks,
    };
    if hunk_index >= hunks.len() {
        return None;
    }
    let raw = &hunks[hunk_index];
    let mut lines: Vec<PatchLine> = Vec::new();
    let mut i: usize = 0;
    assert(raw.lines@.take(0) =~= Seq::empty());
    assert(lines_view(lines@) =~= Seq::empty());
    while i < raw.lines.len()
        invariant
            0 <= i <= raw.lines.len(),
            lines_view(lines@) == body(raw.lines@.take(i as int)),
        decreases raw.lines.len() - i,
    {
        let line = &raw.lines[i];
        assert(raw.lines@.take(i + 1).drop_last() =~= raw.lines@.take(i as int));
        assert(raw.lines@.take(i + 1).last() == *line);
        let kind = match line.origin {
            LineOrigin::Context => Some(PatchLineKind::Context),
            LineOrigin::Addition => Some(PatchLineKind::Addition),
            LineOrigin::Deletion => Some(PatchLineKind::Deletion),
            LineOrigin::Other => None,
        };
        if let Some(kind) = kind {
            let ghost before = lines@;
            lines.push(PatchLine { kind, content: line.content.clone() });
            assert(lines_view(lines@) =~= lines_view(before).push((kind, line.content@)));
        }
        i = i + 1;
    }
    assert(raw.lines@.take(i as int) =~= raw.lines@);
    Some(
        HunkPatch {
            old_start: raw.old_start,
            old_lines: raw.old_lines,
            new_start: raw.new_start,
            new_lines: raw.new_lines,
            lines,
        },
    )
}

/// A line with an ending, of either style, is copied into the patch with
/// nothing but its marker added.
pub proof fn law_lines_with_endings_pass_through(kind: PatchLineKind, content: Seq<char>)
    requires
        content.len() > 0,
        content.last() == '\n',
    ensures
        rendered_line((kind, content)) == seq![marker(kind)] + content,
{
}

/// A context line is marked by a blank, an added one by a plus and a deleted one
/// by a minus; notes have no place in a patch.
pub proof fn law_markers()
    ensures
        marker(PatchLineKind::Context) == ' ',
        marker(PatchLineKind::Addition) == '+',
        marker(PatchLineKind::Deletion) == '-',
        role(LineOrigin::Context) == Some(PatchLineKind::Context),
        role(LineOrigin::Addition) == Some(PatchLineKind::Addition),
        role(LineOrigin::Deletion) == Some(PatchLineKind::Deletion),
        role(LineOrigin::Other) is None,
{
}

/// A line is its marker and its content. One without an ending is followed by a
/// note that says so, on a line of its own.
pub proof fn law_lines_of_a_patch(content: Seq<char>)
    ensures
        content.len() > 0 && content.last() == '\n' ==> {
            &&& rendered_line((PatchLineKind::Context, content)) == seq![' '] + content
            &&& rendered_line((PatchLineKind::Addition, content)) == seq!['+'] + content
            &&& rendered_line((PatchLineKind::Deletion, content)) == seq!['-'] + content
        },
        content.len() == 0 || content.last() != '\n' ==> {
            &&& rendered_line((PatchLineKind::Context, content)) == seq![' '] + content
                + "\n\\ No newline at end of file\n"@
            &&& rendered_line((PatchLineKind::Addition, content)) == seq!['+'] + content
                + "\n\\ No newline at end of file\n"@
            &&& rendered_line((PatchLineKind::Deletion, content)) == seq!['-'] + content
                + "\n\\ No newline at end of file\n"@
        },
{
}

/// A patch names the file on both sides, then the places and lengths of both
/// sides, old before new, then its lines in order.
pub proof fn law_layout_of_a_patch(path: Seq<char>, h: HunkView)
    ensures
        rendered(path, h) == "--- a/"@ + slashed(path) + "\n"@ + "+++ b/"@ + slashed(path) + "\n"@ + ("@@ -"@
            + text::decimal(h.old_start as nat) + ","@ + text::decimal(h.old_lines as nat) + " +"@ + text::decimal(
            h.new_start as nat,
        ) + ","@ + text::decimal(h.new_lines as nat) + " @@\n"@) + rendered_lines(h.lines),
{
}

/// The lines of a patch follow each other in order.
pub proof fn law_patch_lines_follow(lines: Seq<(PatchLineKind, Seq<char>)>, line: (PatchLineKind, Seq<char>))
    ensures
        rendered_lines(Seq::<(PatchLineKind, Seq<char>)>::empty()).len() == 0,
        rendered_lines(lines.push(line)) == rendered_lines(lines) + rendered_line(line),
{
    assert(lines.push(line).drop_last() =~= lines);
}

/// Backslashes of a path become slashes, and nothing else changes.
pub proof fn law_slashed_paths(path: Seq<char>, i: int)
    requires
        0 <= i < path.len(),
    ensures
        slashed(path).len() == path.len(),
        path[i] == '\\' ==> slashed(path)[i] == '/',
        path[i] != '\\' ==> slashed(path)[i] == path[i],
{
}

/// Every line of a hunk with a role in a patch is kept, with its content and in its
/// order, and no other.
pub proof fn law_lines_of_a_hunk(lines: Seq<RawLine>, line: RawLine)
    ensures
        body(Seq::<RawLine>::empty()).len() == 0,
        line.origin == LineOrigin::Context ==> body(lines.push(line)) == body(lines).push(
            (PatchLineKind::Context, line.content@),
        ),
        line.origin == LineOrigin::Addition ==> body(lines.push(line)) == body(lines).push(
            (PatchLineKind::Addition, line.content@),
        ),
        line.origin == LineOrigin::Deletion ==> body(lines.push(line)) == body(lines).push(
            (PatchLineKind::Deletion, line.content@),
        ),
        line.origin == LineOrigin::Other ==> body(lines.push(line)) == body(lines),
{
    assert(lines.push(line).drop_last() =~= lines);
}

} // verus!
