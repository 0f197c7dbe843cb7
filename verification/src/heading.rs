//! Heading lines and the rewriting of a comment body.
//!
//! A heading line is a run of one or more `#`, one space, and any content.
//! The number of `#` is the line's level. A body that is set at depth `d` of a
//! thread has each of its heading lines moved `d + 1` levels down, so that a
//! heading inside a comment always lies below the comment's own heading.

use vstd::prelude::*;
use crate::text::{
    append_range, chars_of, find_from, first_index_of, lemma_first_index_of,
    lemma_first_index_of_is, repeated,
};

verus! {

/// The number of `#` that `line` begins with.
pub open spec fn hash_run(line: Seq<char>) -> int
    decreases line.len(),
{
    if line.len() == 0 || line[0] != '#' {
        0
    } else {
        1 + hash_run(line.drop_first())
    }
}

/// The level of `line` where it is a heading line: it begins with a run of
/// `#` that is not empty and that a space follows.
pub open spec fn heading_level(line: Seq<char>) -> Option<nat> {
    let k = hash_run(line);
    if 1 <= k < line.len() && line[k] == ' ' {
        Some(k as nat)
    } else {
        None
    }
}

/// What follows the space of a heading line.
pub open spec fn heading_content(line: Seq<char>) -> Seq<char> {
    line.skip(hash_run(line) + 1)
}

/// The heading line of the given level and content.
pub open spec fn heading(level: nat, content: Seq<char>) -> Seq<char> {
    repeated('#', level) + seq![' '] + content
}

/// `line` as it stands in a body at depth `depth`: a heading line goes
/// `depth + 1` levels down and keeps its content, any other line stays.
pub open spec fn shifted_line(line: Seq<char>, depth: nat) -> Seq<char> {
    match heading_level(line) {
        Some(level) => heading(level + depth + 1, heading_content(line)),
        None => line,
    }
}

/// The lines of `s`: what stands between its newlines, before the first and
/// after the last. There is always at least one line.
pub open spec fn split_lines(s: Seq<char>) -> Seq<Seq<char>>
    decreases s.len(),
{
    let n = first_index_of(s, '\n');
    if 0 <= n < s.len() {
        seq![s.take(n)] + split_lines(s.skip(n + 1))
    } else {
        seq![s]
    }
}

/// The lines with one newline between each two neighbours.
pub open spec fn join_lines(lines: Seq<Seq<char>>) -> Seq<char>
    decreases lines.len(),
{
    if lines.len() == 0 {
        Seq::empty()
    } else if lines.len() == 1 {
        lines[0]
    } else {
        lines[0] + seq!['\n'] + join_lines(lines.drop_first())
    }
}

/// Whether no newline occurs in `line`.
pub open spec fn newline_free(line: Seq<char>) -> bool {
    forall|i: int| 0 <= i < line.len() ==> line[i] != '\n'
}

/// Each line of `lines` as it stands at depth `depth`.
pub open spec fn shifted_lines(lines: Seq<Seq<char>>, depth: nat) -> Seq<Seq<char>> {
    Seq::new(lines.len(), |i: int| shifted_line(lines[i], depth))
}

/// `body` as it stands at depth `depth`: split into lines, each line shifted,
/// and the lines joined again.
pub open spec fn rewritten_body(body: Seq<char>, depth: nat) -> Seq<char> {
    join_lines(shifted_lines(split_lines(body), depth))
}

/// `hash_run` lies within the line, only `#` stands before it, and no `#`
/// stands at it.
pub proof fn lemma_hash_run(line: Seq<char>)
    ensures
        0 <= hash_run(line) <= line.len(),
        forall|j: int| 0 <= j < hash_run(line) ==> line[j] == '#',
        hash_run(line) < line.len() ==> line[hash_run(line)] != '#',
        line.take(hash_run(line)) == repeated('#', hash_run(line) as nat),
    decreases line.len(),
{
    if line.len() == 0 || line[0] != '#' {
    } else {
        let t = line.drop_first();
        lemma_hash_run(t);
        assert forall|j: int| 0 <= j < hash_run(line) implies line[j] == '#' by {
            if j > 0 {
                assert(line[j] == t[j - 1]);
            }
        }
        if hash_run(line) < line.len() {
            assert(line[hash_run(line)] == t[hash_run(t)]);
        }
    }
    assert(line.take(hash_run(line)) =~= repeated('#', hash_run(line) as nat));
}

/// A position is `hash_run` as soon as only `#` stands before it and it is
/// either the end of the line or a place where no `#` stands.
pub proof fn lemma_hash_run_is(line: Seq<char>, k: int)
    requires
        0 <= k <= line.len(),
        forall|j: int| 0 <= j < k ==> line[j] == '#',
        k < line.len() ==> line[k] != '#',
    ensures
        hash_run(line) == k,
{
    lemma_hash_run(line);
    let r = hash_run(line);
    if r < k {
        assert(line[r] == '#');
    } else if k < r {
        assert(line[k] == '#');
    }
}

/// A heading line that is built from a level and a content is read back as
/// that level and that content.
pub proof fn lemma_heading_reads_back(level: nat, content: Seq<char>)
    requires
        level >= 1,
    ensures
        hash_run(heading(level, content)) == level,
        heading_level(heading(level, content)) == Some(level),
        heading_content(heading(level, content)) == content,
{
    let line = heading(level, content);
    lemma_hash_run_is(line, level as int);
    assert(line.skip(level as int + 1) =~= content);
}

/// A heading line of level `level` at depth `depth` becomes the heading line
/// of level `level + depth + 1` with the same content.
pub proof fn lemma_heading_is_shifted(level: nat, content: Seq<char>, depth: nat)
    requires
        level >= 1,
    ensures
        shifted_line(heading(level, content), depth) == heading(level + depth + 1, content),
{
    lemma_heading_reads_back(level, content);
}

/// A shifted line is a heading line exactly where the line was one, and its
/// level is then below that of the comment in whose body it stands, whose
/// own heading has the level `depth + 1`.
pub proof fn lemma_shifted_heading_lies_below(line: Seq<char>, depth: nat)
    ensures
        heading_level(shifted_line(line, depth)) is Some == heading_level(line) is Some,
        heading_level(line) is Some ==> heading_level(shifted_line(line, depth)) == Some(
            heading_level(line)->0 + depth + 1,
        ) && heading_level(shifted_line(line, depth))->0 > depth + 1,
{
    if heading_level(line) is Some {
        lemma_heading_reads_back(heading_level(line)->0 + depth + 1, heading_content(line));
    }
}

/// A line that is no heading line stays as it is at every depth.
pub proof fn lemma_plain_line_stays(line: Seq<char>, depth: nat)
    requires
        heading_level(line) is None,
    ensures
        shifted_line(line, depth) == line,
{
}

/// The lines that are no heading lines: the empty line, a line that does
/// not begin with `#`, and a line whose leading run of `#` is followed by
/// nothing or by something else than a space.
pub proof fn lemma_plain_lines(line: Seq<char>)
    ensures
        heading_level(line) is None <==> line.len() == 0 || line[0] != '#' || hash_run(line)
            == line.len() || line[hash_run(line)] != ' ',
{
    lemma_hash_run(line);
}

/// A heading line is the line that its level and content build.
pub proof fn lemma_heading_line_parts(line: Seq<char>)
    requires
        heading_level(line) is Some,
    ensures
        line == heading(heading_level(line)->0, heading_content(line)),
{
    lemma_hash_run(line);
    let k = hash_run(line);
    assert(line =~= line.take(k) + seq![' '] + line.skip(k + 1));
}

/// Shifting a heading line puts `depth + 1` more `#` before it.
pub proof fn lemma_shifted_line_is_prefixed(line: Seq<char>, depth: nat)
    ensures
        shifted_line(line, depth) == if heading_level(line) is Some {
            repeated('#', depth + 1) + line
        } else {
            line
        },
{
    if heading_level(line) is Some {
        lemma_heading_line_parts(line);
        let k = heading_level(line)->0;
        let content = heading_content(line);
        assert(repeated('#', k + depth + 1) =~= repeated('#', depth + 1) + repeated('#', k));
        assert(heading(k + depth + 1, content) =~= repeated('#', depth + 1) + heading(k, content));
    }
}

/// Shifting brings no newline into a line that has none.
pub proof fn lemma_shifted_line_newline_free(line: Seq<char>, depth: nat)
    requires
        newline_free(line),
    ensures
        newline_free(shifted_line(line, depth)),
{
    lemma_shifted_line_is_prefixed(line, depth);
}

/// There is at least one line, and no line holds a newline.
pub proof fn lemma_split_lines_shape(s: Seq<char>)
    ensures
        split_lines(s).len() >= 1,
        forall|i: int| 0 <= i < split_lines(s).len() ==> newline_free(#[trigger] split_lines(s)[i]),
    decreases s.len(),
{
    lemma_first_index_of(s, '\n');
    let n = first_index_of(s, '\n');
    if n < s.len() {
        lemma_split_lines_shape(s.skip(n + 1));
        let rest = split_lines(s.skip(n + 1));
        assert forall|i: int| 0 <= i < split_lines(s).len() implies newline_free(
            #[trigger] split_lines(s)[i],
        ) by {
            if i > 0 {
                assert(split_lines(s)[i] == rest[i - 1]);
            }
        }
    }
}

/// Joining the lines of a text gives the text back.
pub proof fn lemma_join_of_split(s: Seq<char>)
    ensures
        join_lines(split_lines(s)) == s,
    decreases s.len(),
{
    lemma_first_index_of(s, '\n');
    let n = first_index_of(s, '\n');
    if n < s.len() {
        let rest = s.skip(n + 1);
        lemma_join_of_split(rest);
        lemma_split_lines_shape(rest);
        let lines = split_lines(s);
        assert(lines.drop_first() =~= split_lines(rest));
        assert(s =~= s.take(n) + seq!['\n'] + rest);
    }
}

/// Splitting what was joined from lines without newlines, at least one of
/// them, gives those lines back.
pub proof fn lemma_split_of_join(lines: Seq<Seq<char>>)
    requires
        lines.len() >= 1,
        forall|i: int| 0 <= i < lines.len() ==> newline_free(#[trigger] lines[i]),
    ensures
        split_lines(join_lines(lines)) == lines,
    decreases lines.len(),
{
    let s = join_lines(lines);
    if lines.len() == 1 {
        assert(newline_free(lines[0]));
        lemma_first_index_of_is(s, '\n', s.len() as int);
        assert(split_lines(s) =~= lines);
    } else {
        let rest = lines.drop_first();
        assert forall|i: int| 0 <= i < rest.len() implies newline_free(#[trigger] rest[i]) by {
            assert(rest[i] == lines[i + 1]);
        }
        lemma_split_of_join(rest);
        assert(newline_free(lines[0]));
        let n = lines[0].len() as int;
        lemma_first_index_of_is(s, '\n', n);
        assert(s.take(n) =~= lines[0]);
        assert(s.skip(n + 1) =~= join_lines(rest));
        assert(split_lines(s) =~= lines);
    }
}

/// Rewriting is local to the lines: the rewritten body has as many lines as
/// the body, and each of them is the shifted line of the same place.
pub proof fn lemma_rewritten_body_lines(body: Seq<char>, depth: nat)
    ensures
        split_lines(rewritten_body(body, depth)) == shifted_lines(split_lines(body), depth),
        split_lines(rewritten_body(body, depth)).len() == split_lines(body).len(),
{
    lemma_split_lines_shape(body);
    let lines = split_lines(body);
    let shifted = shifted_lines(lines, depth);
    assert forall|i: int| 0 <= i < shifted.len() implies newline_free(#[trigger] shifted[i]) by {
        assert(newline_free(lines[i]));
        lemma_shifted_line_newline_free(lines[i], depth);
    }
    lemma_split_of_join(shifted);
}

/// The rewritten body, read from its first line on: the first line shifted,
/// and where a newline ends it, that newline and the rewritten rest.
pub proof fn lemma_rewritten_body_unfold(body: Seq<char>, depth: nat)
    ensures
        rewritten_body(body, depth) == if first_index_of(body, '\n') < body.len() {
            shifted_line(body.take(first_index_of(body, '\n')), depth) + seq!['\n']
                + rewritten_body(body.skip(first_index_of(body, '\n') + 1), depth)
        } else {
            shifted_line(body, depth)
        },
{
    lemma_first_index_of(body, '\n');
    let n = first_index_of(body, '\n');
    if n < body.len() {
        let rest = body.skip(n + 1);
        lemma_split_lines_shape(rest);
        assert(split_lines(body).drop_first() =~= split_lines(rest));
        let all = shifted_lines(split_lines(body), depth);
        assert(all.drop_first() =~= shifted_lines(split_lines(rest), depth));
    }
}

/// Whether `marker` is a run of `#`, at least one: the marker that stands
/// before the heading of a comment, one `#` for each level.
pub open spec fn is_marker(marker: Seq<char>) -> bool {
    marker.len() >= 1 && marker == repeated('#', marker.len())
}

/// The marker of a comment at depth `depth`: `depth + 1` times `#`.
pub fn marker_of(depth: usize) -> (marker: Vec<char>)
    ensures
        marker@ == repeated('#', depth as nat + 1),
        is_marker(marker@),
{
    let mut marker: Vec<char> = Vec::new();
    marker.push('#');
    assert(marker@ =~= repeated('#', 1));
    let mut i: usize = 0;
    while i < depth
        invariant
            i <= depth,
            marker@ == repeated('#', i as nat + 1),
        decreases depth - i,
    {
        marker.push('#');
        i += 1;
        assert(marker@ =~= repeated('#', i as nat + 1));
    }
    marker
}

/// The number of `#` that the line from `from` up to `to` begins with.
fn leading_hashes(chars: &Vec<char>, from: usize, to: usize) -> (k: usize)
    requires
        from <= to <= chars.len(),
    ensures
        k == hash_run(chars@.subrange(from as int, to as int)),
        from + k <= to,
{
    let mut i: usize = from;
    while i < to && chars[i] == '#'
        invariant
            from <= i <= to <= chars.len(),
            forall|j: int| from <= j < i ==> chars@[j] == '#',
        decreases to - i,
    {
        i += 1;
    }
    proof {
        lemma_hash_run_is(chars@.subrange(from as int, to as int), i - from);
    }
    i - from
}

/// Whether the line from `from` up to `to` is a heading line.
fn is_heading_at(chars: &Vec<char>, from: usize, to: usize) -> (r: bool)
    requires
        from <= to <= chars.len(),
    ensures
        r == heading_level(chars@.subrange(from as int, to as int)) is Some,
{
    let k = leading_hashes(chars, from, to);
    k >= 1 && from + k < to && chars[from + k] == ' '
}

/// Appends the line from `from` up to `to` as it stands below `marker`.
pub(crate) fn append_shifted_line(
    out: &mut String,
    chars: &Vec<char>,
    from: usize,
    to: usize,
    marker: &Vec<char>,
)
    requires
        from <= to <= chars.len(),
        is_marker(marker@),
    ensures
        final(out)@ == old(out)@ + shifted_line(
            chars@.subrange(from as int, to as int),
            (marker.len() - 1) as nat,
        ),
{
    proof {
        lemma_shifted_line_is_prefixed(
            chars@.subrange(from as int, to as int),
            (marker.len() - 1) as nat,
        );
    }
    if is_heading_at(chars, from, to) {
        append_range(out, marker, 0, marker.len());
        assert(marker@.subrange(0, marker.len() as int) =~= marker@);
    }
    append_range(out, chars, from, to);
    assert(final(out)@ =~= old(out)@ + shifted_line(
        chars@.subrange(from as int, to as int),
        (marker.len() - 1) as nat,
    ));
}

/// Appends `body` as it stands below `marker`.
pub(crate) fn append_rewritten_body(out: &mut String, body: &Vec<char>, marker: &Vec<char>)
    requires
        is_marker(marker@),
    ensures
        final(out)@ == old(out)@ + rewritten_body(body@, (marker.len() - 1) as nat),
{
    let ghost depth = (marker.len() - 1) as nat;
    let mut start: usize = 0;
    assert(body@.skip(0) =~= body@);
    loop
        invariant
            start <= body.len(),
            is_marker(marker@),
            depth == marker.len() - 1,
            old(out)@ + rewritten_body(body@, depth) == out@ + rewritten_body(
                body@.skip(start as int),
                depth,
            ),
        decreases body.len() - start,
    {
        let end = find_from(body, start, '\n');
        let ghost before = out@;
        let ghost rest = body@.skip(start as int);
        proof {
            lemma_rewritten_body_unfold(rest, depth);
            assert(rest.take(end - start) =~= body@.subrange(start as int, end as int));
        }
        append_shifted_line(out, body, start, end, marker);
        if end == body.len() {
            proof {
                assert(rest =~= body@.subrange(start as int, end as int));
                assert(old(out)@ + rewritten_body(body@, depth) =~= out@);
            }
            return ;
        }
        out.push('\n');
        proof {
            assert(rest.skip(end - start + 1) =~= body@.skip(end + 1));
            assert(out@ + rewritten_body(body@.skip(end + 1), depth) =~= before + rewritten_body(
                rest,
                depth,
            ));
        }
        start = end + 1;
    }
}

/// The level of `line` where it is a heading line.
pub fn scan_heading(line: &str) -> (level: Option<usize>)
    ensures
        level is Some == heading_level(line@) is Some,
        level matches Some(k) ==> heading_level(line@) == Some(k as nat),
{
    let chars = chars_of(line);
    assert(chars@.subrange(0, chars.len() as int) =~= line@);
    let k = leading_hashes(&chars, 0, chars.len());
    if k >= 1 && k < chars.len() && chars[k] == ' ' {
        Some(k)
    } else {
        None
    }
}

/// `line` as it stands in a body at depth `depth`.
pub fn shift_line(line: &str, depth: usize) -> (out: String)
    ensures
        out@ == shifted_line(line@, depth as nat),
{
    let chars = chars_of(line);
    let marker = marker_of(depth);
    let mut out = String::new();
    assert(chars@.subrange(0, chars.len() as int) =~= line@);
    append_shifted_line(&mut out, &chars, 0, chars.len(), &marker);
    out
}

/// `body` as it stands in a comment at depth `depth`.
pub fn rewrite_body(body: &str, depth: usize) -> (out: String)
    ensures
        out@ == rewritten_body(body@, depth as nat),
{
    let chars = chars_of(body);
    let marker = marker_of(depth);
    let mut out = String::new();
    append_rewritten_body(&mut out, &chars, &marker);
    out
}

} // verus!
