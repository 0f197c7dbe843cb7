//! Threads and their comments.
//!
//! A thread is a title and an ordered forest of comments. A comment carries
//! its author, the time it was written, its markdown body and the comments
//! that answer it, in the order in which they were written. A comment without
//! answers has an empty sequence of children.

use vstd::prelude::*;

verus! {

/// A comment and the comments below it.
#[derive(Debug, PartialEq, Eq)]
pub struct Comment {
    pub author: String,
    pub created_at: String,
    pub body: String,
    pub children: Vec<Comment>,
}

/// A thread: its title and its top-level comments.
#[derive(Debug, PartialEq, Eq)]
pub struct ThreadRecord {
    pub title: String,
    pub comments: Vec<Comment>,
}

/// What a comment holds, as sequences of characters.
pub ghost struct CommentView {
    pub author: Seq<char>,
    pub created_at: Seq<char>,
    pub body: Seq<char>,
    pub children: Seq<CommentView>,
}

/// What a thread holds, as sequences.
pub ghost struct ThreadView {
    pub title: Seq<char>,
    pub comments: Seq<CommentView>,
}

/// The view of a comment: its texts as sequences, and the views of its
/// children.
pub open spec fn comment_view(comment: Comment) -> CommentView
    decreases comment, 0nat,
{
    CommentView {
        author: comment.author@,
        created_at: comment.created_at@,
        body: comment.body@,
        children: comment_views(comment.children@),
    }
}

/// The views of the comments of `comments`, in order.
pub open spec fn comment_views(comments: Seq<Comment>) -> Seq<CommentView>
    decreases comments, comments.len(),
{
    if comments.len() == 0 {
        Seq::empty()
    } else {
        comment_views(comments.drop_last()).push(comment_view(comments.last()))
    }
}

impl View for Comment {
    type V = CommentView;

    open spec fn view(&self) -> CommentView {
        comment_view(*self)
    }
}

impl View for ThreadRecord {
    type V = ThreadView;

    open spec fn view(&self) -> ThreadView {
        ThreadView { title: self.title@, comments: comment_views(self.comments@) }
    }
}

impl Comment {
    /// A comment with the given author, time, body and children.
    pub fn new(author: String, created_at: String, body: String, children: Vec<Comment>) -> (c:
        Comment)
        ensures
            c.author == author,
            c.created_at == created_at,
            c.body == body,
            c.children == children,
    {
        Comment { author, created_at, body, children }
    }
}

/// There are as many views as comments, and each is the view of the comment
/// at its place.
pub proof fn lemma_comment_views(comments: Seq<Comment>)
    ensures
        comment_views(comments).len() == comments.len(),
        forall|i: int| 0 <= i < comments.len() ==> comment_views(comments)[i] == comments[i]@,
    decreases comments.len(),
{
    if comments.len() > 0 {
        lemma_comment_views(comments.drop_last());
    }
}

} // verus!
