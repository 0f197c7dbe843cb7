//! The renderer: from a thread to one flat document.
//!
//! The document is a header of four lines, an empty line, and the transcript
//! of the thread. The header names the date at which the first comment was
//! written and the latest time at which any comment was written.

use vstd::prelude::*;
use crate::model::{comment_views, lemma_comment_views, Comment, CommentView, ThreadRecord, ThreadView};
use crate::text::{
    append_range, chars_of, find_from, first_index_of, is_lex_le, lemma_first_index_of,
    lemma_lex_le_reflexive,
    lemma_lex_le_total, lemma_lex_le_transitive, lex_le, lex_max, string_of,
};
use crate::transcript::{
    lemma_preorder_of_first_len, preorder, preorder_of_first, render_transcript,
    subtree_preorder, transcript, Placed,
};

verus! {

/// A thread without comments has no document.
#[derive(Debug, Clone, Copy, PartialEq, Eq)]
pub struct EmptyThreadError;

/// The latest of `start` and the times of `entries`, in the lexical order.
pub open spec fn latest_after(start: Seq<char>, entries: Seq<Placed>) -> Seq<char>
    decreases entries.len(),
{
    if entries.len() == 0 {
        start
    } else {
        lex_max(latest_after(start, entries.drop_last()), entries.last().comment.created_at)
    }
}

/// The latest time at which a comment of the forest was written, at any
/// depth. Of an empty forest it is the empty sequence.
pub open spec fn latest(comments: Seq<CommentView>) -> Seq<char> {
    latest_after(Seq::empty(), preorder(comments, 0))
}

/// The date of a time: what stands before its first `T`, or all of it where
/// it has none.
pub open spec fn date_part(created_at: Seq<char>) -> Seq<char> {
    created_at.take(first_index_of(created_at, 'T'))
}

/// The document of a thread that has a comment.
pub open spec fn document(record: ThreadView) -> Seq<char>
    recommends
        record.comments.len() > 0,
{
    "----\ncreated: "@ + date_part(record.comments[0].created_at) + "\nupdated: "@ + latest(
        record.comments,
    ) + "\n----\n\n"@ + transcript(record.comments, 0)
}

/// What rendering a thread gives: an error exactly for a thread without
/// comments, and else the document of the thread.
pub open spec fn rendered(record: ThreadView, result: Result<String, EmptyThreadError>) -> bool {
    match result {
        Ok(text) => record.comments.len() > 0 && text@ == document(record),
        Err(_) => record.comments.len() == 0,
    }
}

/// The latest time over two sequences of entries is the latest over the
/// second, begun with the latest over the first.
pub proof fn lemma_latest_after_concat(start: Seq<char>, a: Seq<Placed>, b: Seq<Placed>)
    ensures
        latest_after(start, a + b) == latest_after(latest_after(start, a), b),
    decreases b.len(),
{
    if b.len() == 0 {
        assert(a + b =~= a);
    } else {
        lemma_latest_after_concat(start, a, b.drop_last());
        assert((a + b).drop_last() =~= a + b.drop_last());
        assert((a + b).last() == b.last());
    }
}

/// `latest_after` is at or after the start and the time of every entry, and
/// it is the start or the time of one of the entries.
pub proof fn lemma_latest_after_is_maximum(start: Seq<char>, entries: Seq<Placed>)
    ensures
        lex_le(start, latest_after(start, entries)),
        forall|i: int|
            0 <= i < entries.len() ==> lex_le(
                (#[trigger] entries[i]).comment.created_at,
                latest_after(start, entries),
            ),
        latest_after(start, entries) == start || exists|i: int|
            0 <= i < entries.len() && latest_after(start, entries) == (
            #[trigger] entries[i]).comment.created_at,
    decreases entries.len(),
{
    if entries.len() == 0 {
        lemma_lex_le_reflexive(start);
    } else {
        let front = entries.drop_last();
        let before = latest_after(start, front);
        let time = entries.last().comment.created_at;
        let now = latest_after(start, entries);
        lemma_latest_after_is_maximum(start, front);
        lemma_lex_le_total(before, time);
        lemma_lex_le_reflexive(time);
        lemma_lex_le_reflexive(before);
        assert(lex_le(before, now));
        assert(lex_le(time, now));
        lemma_lex_le_transitive(start, before, now);
        assert forall|i: int| 0 <= i < entries.len() implies lex_le(
            (#[trigger] entries[i]).comment.created_at,
            now,
        ) by {
            if i < front.len() {
                assert(entries[i] == front[i]);
                lemma_lex_le_transitive(front[i].comment.created_at, before, now);
            }
        }
        if now != start {
            if now == time {
                assert(entries[entries.len() - 1].comment.created_at == now);
            } else {
                let i = choose|i: int|
                    0 <= i < front.len() && before == (#[trigger] front[i]).comment.created_at;
                assert(entries[i] == front[i]);
            }
        }
    }
}

/// The latest time of a forest is a maximum: no comment of the forest, at
/// any depth, was written after it, and where the forest has a comment, one
/// of its comments was written at it.
pub proof fn lemma_latest_is_maximum(comments: Seq<CommentView>)
    ensures
        forall|i: int|
            0 <= i < preorder(comments, 0).len() ==> lex_le(
                (#[trigger] preorder(comments, 0)[i]).comment.created_at,
                latest(comments),
            ),
        comments.len() > 0 ==> exists|i: int|
            0 <= i < preorder(comments, 0).len() && latest(comments) == (#[trigger] preorder(
                comments,
                0,
            )[i]).comment.created_at,
{
    let entries = preorder(comments, 0);
    lemma_latest_after_is_maximum(Seq::empty(), entries);
    if comments.len() > 0 {
        lemma_preorder_of_first_len(comments, comments.len(), 0);
        if latest(comments) == Seq::<char>::empty() {
            assert(lex_le(entries[0].comment.created_at, latest(comments)));
            assert(entries[0].comment.created_at =~= latest(comments));
        }
    }
}

/// The date of a time begins the time and holds no `T`; it is the whole time
/// where the time holds no `T`, and else a `T` follows it in the time.
pub proof fn lemma_date_part(created_at: Seq<char>)
    ensures
        date_part(created_at).is_prefix_of(created_at),
        !date_part(created_at).contains('T'),
        !created_at.contains('T') ==> date_part(created_at) == created_at,
        created_at.contains('T') ==> date_part(created_at).len() < created_at.len()
            && created_at[date_part(created_at).len() as int] == 'T',
{
    lemma_first_index_of(created_at, 'T');
    let n = first_index_of(created_at, 'T');
    if n == created_at.len() {
        assert(date_part(created_at) =~= created_at);
    }
}

/// Rendering is a function of the thread: two results of rendering threads
/// that hold the same are both errors or both the same document, character
/// by character.
pub proof fn lemma_render_is_deterministic(
    first: ThreadRecord,
    second: ThreadRecord,
    first_result: Result<String, EmptyThreadError>,
    second_result: Result<String, EmptyThreadError>,
)
    requires
        first@ == second@,
        rendered(first@, first_result),
        rendered(second@, second_result),
    ensures
        first_result is Ok == second_result is Ok,
        first_result is Ok ==> first_result->Ok_0@ == second_result->Ok_0@,
{
}

/// Brings `best` up to the latest of itself, the time of `comment` and the
/// times of all below it.
fn note_subtree(best: &mut Vec<char>, comment: &Comment, Ghost(depth): Ghost<nat>)
    ensures
        final(best)@ == latest_after(old(best)@, subtree_preorder(comment@, depth)),
    decreases comment,
{
    let ghost head = seq![Placed { comment: comment@, depth }];
    let ghost below = preorder_of_first(comment@.children, comment@.children.len(), depth + 1);
    proof {
        lemma_latest_after_concat(old(best)@, head, below);
        assert(head.drop_last() =~= Seq::<Placed>::empty());
        assert(latest_after(old(best)@, head.drop_last()) == old(best)@);
        assert(head.last() == Placed { comment: comment@, depth });
        assert(latest_after(old(best)@, head) == lex_max(old(best)@, comment@.created_at));
    }
    let time = chars_of(comment.created_at.as_str());
    if is_lex_le(best, &time) {
        *best = time;
    }
    note_forest(best, &comment.children, Ghost(depth + 1));
}

/// Brings `best` up to the latest of itself and the times of `comments` and
/// of all below them.
fn note_forest(best: &mut Vec<char>, comments: &Vec<Comment>, Ghost(depth): Ghost<nat>)
    ensures
        final(best)@ == latest_after(old(best)@, preorder(comment_views(comments@), depth)),
    decreases comments,
{
    let ghost views = comment_views(comments@);
    proof {
        lemma_comment_views(comments@);
    }
    let mut i: usize = 0;
    while i < comments.len()
        invariant
            i <= comments.len(),
            views == comment_views(comments@),
            views.len() == comments.len(),
            forall|k: int| 0 <= k < comments.len() ==> views[k] == comments[k]@,
            best@ == latest_after(old(best)@, preorder_of_first(views, i as nat, depth)),
        decreases comments.len() - i,
    {
        proof {
            lemma_latest_after_concat(
                old(best)@,
                preorder_of_first(views, i as nat, depth),
                subtree_preorder(views[i as int], depth),
            );
        }
        note_subtree(best, &comments[i], Ghost(depth));
        i += 1;
    }
}

/// The latest time at which a comment of `comments` was written, at any
/// depth, in the lexical order.
pub fn latest_timestamp(comments: &Vec<Comment>) -> (out: String)
    ensures
        out@ == latest(comment_views(comments@)),
{
    let mut best: Vec<char> = Vec::new();
    note_forest(&mut best, comments, Ghost(0));
    string_of(&best)
}

/// The date of a time: what stands before its first `T`.
pub fn created_date(created_at: &str) -> (out: String)
    ensures
        out@ == date_part(created_at@),
{
    let chars = chars_of(created_at);
    assert(chars@.skip(0) =~= chars@);
    let end = find_from(&chars, 0, 'T');
    let mut out = String::new();
    append_range(&mut out, &chars, 0, end);
    assert(chars@.subrange(0, end as int) =~= chars@.take(end as int));
    out
}

/// The document of `record`, or an error where the thread has no comment.
pub fn render(record: &ThreadRecord) -> (result: Result<String, EmptyThreadError>)
    ensures
        rendered(record@, result),
{
    proof {
        lemma_comment_views(record.comments@);
    }
    if record.comments.len() == 0 {
        return Err(EmptyThreadError);
    }
    let created = created_date(record.comments[0].created_at.as_str());
    let updated = latest_timestamp(&record.comments);
    let body = render_transcript(&record.comments, 0);
    let mut out = String::new();
    out.append("----\ncreated: ");
    out.append(created.as_str());
    out.append("\nupdated: ");
    out.append(updated.as_str());
    out.append("\n----\n\n");
    out.append(body.as_str());
    assert(out@ =~= document(record@));
    Ok(out)
}

} // verus!
