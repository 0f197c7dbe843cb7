//! The transcript of a forest of comments.
//!
//! The transcript visits the comments in pre-order, a comment before its
//! children and the children in their order, and sets a block for each: a
//! heading line one level below that of the parent, then the body with its
//! own headings moved below that heading.

use vstd::prelude::*;
use crate::heading::{append_rewritten_body, is_marker, marker_of, rewritten_body};
use crate::model::{comment_views, lemma_comment_views, Comment, CommentView};
use crate::text::{append_range, chars_of, repeated};

verus! {

/// The block of one comment at depth `depth`: its heading line, an empty
/// line, its rewritten body and an empty line.
pub open spec fn comment_block(comment: CommentView, depth: nat) -> Seq<char> {
    repeated('#', depth + 1) + " "@ + comment.created_at + " by "@ + comment.author + ":\n\n"@
        + rewritten_body(comment.body, depth) + "\n\n"@
}

/// The transcript of a comment at depth `depth` and of all below it: its
/// block, then the transcript of its children one level deeper.
pub open spec fn subtree_transcript(comment: CommentView, depth: nat) -> Seq<char>
    decreases comment, 0nat,
{
    comment_block(comment, depth) + transcript_of_first(
        comment.children,
        comment.children.len(),
        depth + 1,
    )
}

/// The transcript of the first `n` comments of `comments`, all at depth
/// `depth`, each with all below it.
pub open spec fn transcript_of_first(comments: Seq<CommentView>, n: nat, depth: nat) -> Seq<char>
    decreases comments, n,
{
    if n == 0 || n > comments.len() {
        Seq::empty()
    } else {
        transcript_of_first(comments, (n - 1) as nat, depth) + subtree_transcript(
            comments[n - 1],
            depth,
        )
    }
}

/// The transcript of `comments`, which stand at depth `depth`.
pub open spec fn transcript(comments: Seq<CommentView>, depth: nat) -> Seq<char> {
    transcript_of_first(comments, comments.len(), depth)
}

/// A comment and the depth at which it stands.
pub ghost struct Placed {
    pub comment: CommentView,
    pub depth: nat,
}

/// A comment at depth `depth` and all below it, in pre-order.
pub open spec fn subtree_preorder(comment: CommentView, depth: nat) -> Seq<Placed>
    decreases comment, 0nat,
{
    seq![Placed { comment, depth }] + preorder_of_first(
        comment.children,
        comment.children.len(),
        depth + 1,
    )
}

/// The first `n` comments of `comments`, each with all below it, in
/// pre-order.
pub open spec fn preorder_of_first(comments: Seq<CommentView>, n: nat, depth: nat) -> Seq<Placed>
    decreases comments, n,
{
    if n == 0 || n > comments.len() {
        Seq::empty()
    } else {
        preorder_of_first(comments, (n - 1) as nat, depth) + subtree_preorder(
            comments[n - 1],
            depth,
        )
    }
}

/// Every comment of the forest `comments` with its depth, in pre-order: a
/// comment, then its children and all below them, then its next sibling.
pub open spec fn preorder(comments: Seq<CommentView>, depth: nat) -> Seq<Placed> {
    preorder_of_first(comments, comments.len(), depth)
}

/// The blocks of `entries`, one after the other.
pub open spec fn blocks(entries: Seq<Placed>) -> Seq<char>
    decreases entries.len(),
{
    if entries.len() == 0 {
        Seq::empty()
    } else {
        blocks(entries.drop_last()) + comment_block(entries.last().comment, entries.last().depth)
    }
}

/// The blocks of two sequences of entries, one after the other, are the
/// blocks of the first and then those of the second.
pub proof fn lemma_blocks_concat(a: Seq<Placed>, b: Seq<Placed>)
    ensures
        blocks(a + b) == blocks(a) + blocks(b),
    decreases b.len(),
{
    if b.len() == 0 {
        assert(a + b =~= a);
        assert(blocks(a) + blocks(b) =~= blocks(a));
    } else {
        lemma_blocks_concat(a, b.drop_last());
        assert((a + b).drop_last() =~= a + b.drop_last());
        assert((a + b).last() == b.last());
        assert(blocks(a + b) =~= blocks(a) + blocks(b));
    }
}

/// The transcript of a comment and all below it is the blocks of these
/// comments in pre-order.
pub proof fn lemma_subtree_transcript_in_preorder(comment: CommentView, depth: nat)
    ensures
        subtree_transcript(comment, depth) == blocks(subtree_preorder(comment, depth)),
    decreases comment, 0nat,
{
    let head = seq![Placed { comment, depth }];
    let below = preorder_of_first(comment.children, comment.children.len(), depth + 1);
    lemma_transcript_of_first_in_preorder(comment.children, comment.children.len(), depth + 1);
    lemma_blocks_concat(head, below);
    assert(head.drop_last() =~= Seq::<Placed>::empty());
    assert(blocks(head.drop_last()) =~= Seq::<char>::empty());
    assert(head.last() == Placed { comment, depth });
    assert(blocks(head) =~= comment_block(comment, depth));
}

/// The transcript of the first `n` comments is the blocks of these comments
/// and of all below them in pre-order.
pub proof fn lemma_transcript_of_first_in_preorder(
    comments: Seq<CommentView>,
    n: nat,
    depth: nat,
)
    ensures
        transcript_of_first(comments, n, depth) == blocks(preorder_of_first(comments, n, depth)),
    decreases comments, n,
{
    if n == 0 || n > comments.len() {
    } else {
        lemma_transcript_of_first_in_preorder(comments, (n - 1) as nat, depth);
        lemma_subtree_transcript_in_preorder(comments[n - 1], depth);
        lemma_blocks_concat(
            preorder_of_first(comments, (n - 1) as nat, depth),
            subtree_preorder(comments[n - 1], depth),
        );
    }
}

/// The transcript sets the blocks of the comments in pre-order: each comment
/// before its children, the children in their order, and all below a comment
/// before its next sibling.
pub proof fn lemma_transcript_in_preorder(comments: Seq<CommentView>, depth: nat)
    ensures
        transcript(comments, depth) == blocks(preorder(comments, depth)),
{
    lemma_transcript_of_first_in_preorder(comments, comments.len(), depth);
}

/// The pre-order of the first `n` comments holds at least `n` entries.
pub proof fn lemma_preorder_of_first_len(comments: Seq<CommentView>, n: nat, depth: nat)
    requires
        n <= comments.len(),
    ensures
        preorder_of_first(comments, n, depth).len() >= n,
    decreases n,
{
    if n > 0 {
        lemma_preorder_of_first_len(comments, (n - 1) as nat, depth);
        assert(subtree_preorder(comments[n - 1], depth).len() >= 1);
    }
}

/// Whether `entries` holds, with each of its comments, every child of that
/// comment, one level deeper.
pub open spec fn holds_children(entries: Seq<Placed>) -> bool {
    forall|j: int, k: int|
        0 <= j < entries.len() && 0 <= k < entries[j].comment.children.len()
            ==> entries.contains(
            Placed {
                comment: #[trigger] entries[j].comment.children[k],
                depth: entries[j].depth + 1,
            },
        )
}

/// Two sequences that each hold the children of their comments do so
/// together.
pub proof fn lemma_holds_children_concat(a: Seq<Placed>, b: Seq<Placed>)
    requires
        holds_children(a),
        holds_children(b),
    ensures
        holds_children(a + b),
{
    let all = a + b;
    assert forall|j: int, k: int|
        0 <= j < all.len() && 0 <= k < all[j].comment.children.len() implies all.contains(
        Placed { comment: #[trigger] all[j].comment.children[k], depth: all[j].depth + 1 },
    ) by {
        let child = Placed { comment: all[j].comment.children[k], depth: all[j].depth + 1 };
        if j < a.len() {
            assert(all[j] == a[j]);
            assert(a.contains(
                Placed { comment: a[j].comment.children[k], depth: a[j].depth + 1 },
            ));
            let m = choose|m: int| 0 <= m < a.len() && a[m] == child;
            assert(all[m] == child);
        } else {
            let j2 = j - a.len();
            assert(all[j] == b[j2]);
            assert(b.contains(
                Placed { comment: b[j2].comment.children[k], depth: b[j2].depth + 1 },
            ));
            let m = choose|m: int| 0 <= m < b.len() && b[m] == child;
            assert(all[a.len() + m] == child);
        }
    }
}

/// The pre-order of the first `n` comments holds each of these comments at
/// the depth of the forest.
pub proof fn lemma_preorder_of_first_holds_roots(
    comments: Seq<CommentView>,
    n: nat,
    depth: nat,
    i: int,
)
    requires
        0 <= i < n <= comments.len(),
    ensures
        preorder_of_first(comments, n, depth).contains(Placed { comment: comments[i], depth }),
    decreases n,
{
    let front = preorder_of_first(comments, (n - 1) as nat, depth);
    let back = subtree_preorder(comments[n - 1], depth);
    let all = preorder_of_first(comments, n, depth);
    let root = Placed { comment: comments[i], depth };
    if i == n - 1 {
        assert(back[0] == root);
        assert(all[front.len() as int] == root);
    } else {
        lemma_preorder_of_first_holds_roots(comments, (n - 1) as nat, depth, i);
        let m = choose|m: int| 0 <= m < front.len() && front[m] == root;
        assert(all[m] == root);
    }
}

/// The pre-order of a comment and all below it holds the children of each
/// of its comments.
pub proof fn lemma_subtree_preorder_holds_children(comment: CommentView, depth: nat)
    ensures
        holds_children(subtree_preorder(comment, depth)),
    decreases comment, 0nat,
{
    let head = seq![Placed { comment, depth }];
    let below = preorder_of_first(comment.children, comment.children.len(), depth + 1);
    let all = subtree_preorder(comment, depth);
    lemma_preorder_of_first_holds_children(comment.children, comment.children.len(), depth + 1);
    assert forall|j: int, k: int|
        0 <= j < all.len() && 0 <= k < all[j].comment.children.len() implies all.contains(
        Placed { comment: #[trigger] all[j].comment.children[k], depth: all[j].depth + 1 },
    ) by {
        let child = Placed { comment: all[j].comment.children[k], depth: all[j].depth + 1 };
        if j == 0 {
            lemma_preorder_of_first_holds_roots(
                comment.children,
                comment.children.len(),
                depth + 1,
                k,
            );
        } else {
            assert(all[j] == below[j - 1]);
            assert(below.contains(
                Placed {
                    comment: below[j - 1].comment.children[k],
                    depth: below[j - 1].depth + 1,
                },
            ));
        }
        let m = choose|m: int| 0 <= m < below.len() && below[m] == child;
        assert(all[m + 1] == child);
    }
}

/// The pre-order of the first `n` comments holds the children of each of
/// its comments.
pub proof fn lemma_preorder_of_first_holds_children(
    comments: Seq<CommentView>,
    n: nat,
    depth: nat,
)
    ensures
        holds_children(preorder_of_first(comments, n, depth)),
    decreases comments, n,
{
    if n == 0 || n > comments.len() {
    } else {
        lemma_preorder_of_first_holds_children(comments, (n - 1) as nat, depth);
        lemma_subtree_preorder_holds_children(comments[n - 1], depth);
        lemma_holds_children_concat(
            preorder_of_first(comments, (n - 1) as nat, depth),
            subtree_preorder(comments[n - 1], depth),
        );
    }
}

/// The pre-order leaves no comment out: it holds every top-level comment at
/// the depth of the forest and, with each comment, all its children one
/// level deeper.
pub proof fn lemma_preorder_is_complete(comments: Seq<CommentView>, depth: nat)
    ensures
        forall|i: int|
            0 <= i < comments.len() ==> preorder(comments, depth).contains(
                Placed { comment: #[trigger] comments[i], depth },
            ),
        holds_children(preorder(comments, depth)),
{
    assert forall|i: int| 0 <= i < comments.len() implies preorder(comments, depth).contains(
        Placed { comment: #[trigger] comments[i], depth },
    ) by {
        lemma_preorder_of_first_holds_roots(comments, comments.len(), depth, i);
    }
    lemma_preorder_of_first_holds_children(comments, comments.len(), depth);
}

/// Appends the transcript of `comment` and of all below it, where `marker`
/// is the marker of the depth at which the comment stands.
fn append_subtree(out: &mut String, comment: &Comment, marker: &mut Vec<char>)
    requires
        is_marker(old(marker)@),
    ensures
        final(marker)@ == old(marker)@,
        final(out)@ == old(out)@ + subtree_transcript(
            comment@,
            (old(marker).len() - 1) as nat,
        ),
    decreases comment,
{
    let ghost depth = (marker.len() - 1) as nat;
    let body = chars_of(comment.body.as_str());
    append_range(out, marker, 0, marker.len());
    assert(marker@.subrange(0, marker.len() as int) =~= repeated('#', depth + 1));
    out.append(" ");
    out.append(comment.created_at.as_str());
    out.append(" by ");
    out.append(comment.author.as_str());
    out.append(":\n\n");
    append_rewritten_body(out, &body, marker);
    out.append("\n\n");
    assert(out@ =~= old(out)@ + comment_block(comment@, depth));
    marker.push('#');
    assert(marker@ =~= repeated('#', depth + 2));
    append_forest(out, &comment.children, marker);
    marker.pop();
    assert(marker@ =~= old(marker)@);
    assert(out@ =~= old(out)@ + subtree_transcript(comment@, depth));
}

/// Appends the transcript of `comments`, where `marker` is the marker of the
/// depth at which they stand.
fn append_forest(out: &mut String, comments: &Vec<Comment>, marker: &mut Vec<char>)
    requires
        is_marker(old(marker)@),
    ensures
        final(marker)@ == old(marker)@,
        final(out)@ == old(out)@ + transcript(
            comment_views(comments@),
            (old(marker).len() - 1) as nat,
        ),
    decreases comments,
{
    let ghost depth = (marker.len() - 1) as nat;
    let ghost views = comment_views(comments@);
    proof {
        lemma_comment_views(comments@);
    }
    let mut i: usize = 0;
    assert(out@ =~= old(out)@ + transcript_of_first(views, 0, depth));
    while i < comments.len()
        invariant
            i <= comments.len(),
            marker@ == old(marker)@,
            is_marker(marker@),
            depth == marker.len() - 1,
            views == comment_views(comments@),
            views.len() == comments.len(),
            forall|k: int| 0 <= k < comments.len() ==> views[k] == comments[k]@,
            out@ == old(out)@ + transcript_of_first(views, i as nat, depth),
        decreases comments.len() - i,
    {
        append_subtree(out, &comments[i], marker);
        i += 1;
        assert(out@ =~= old(out)@ + transcript_of_first(views, i as nat, depth));
    }
}

/// The transcript of `comments`, which stand at depth `depth`.
pub fn render_transcript(comments: &Vec<Comment>, depth: usize) -> (out: String)
    ensures
        out@ == transcript(comment_views(comments@), depth as nat),
{
    let mut marker = marker_of(depth);
    let mut out = String::new();
    append_forest(&mut out, comments, &mut marker);
    out
}

} // verus!
