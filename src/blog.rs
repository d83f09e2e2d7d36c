//! A blog post that moves from draft, through review, to published, and
//! shows its content only once published.

use vstd::prelude::*;

verus! {

#[derive(Debug, Clone, Copy, PartialEq, Eq, Structural)]
pub enum PostState {
    Draft,
    PendingReview,
    Published,
}

/// The state after a review is requested: only a draft moves on.
pub open spec fn after_request_review(s: PostState) -> PostState {
    match s {
        PostState::Draft => PostState::PendingReview,
        _ => s,
    }
}

/// The state after approval: only a post under review moves on.
pub open spec fn after_approve(s: PostState) -> PostState {
    match s {
        PostState::PendingReview => PostState::Published,
        _ => s,
    }
}

pub struct Post {
    state: PostState,
    content: String,
}

impl Post {
    pub closed spec fn spec_state(&self) -> PostState {
        self.state
    }

    pub closed spec fn spec_content(&self) -> Seq<char> {
        self.content@
    }

    /// A draft holding `content`.
    pub fn new(content: String) -> (r: Post)
        ensures
            r.spec_state() == PostState::Draft,
            r.spec_content() == content@,
    {
        Post { state: PostState::Draft, content }
    }

    pub fn state(&self) -> (r: PostState)
        ensures
            r == self.spec_state(),
    {
        self.state
    }

    pub fn request_review(&mut self)
        ensures
            final(self).spec_state() == after_request_review(old(self).spec_state()),
            final(self).spec_content() == old(self).spec_content(),
    {
        self.state = match self.state {
            PostState::Draft => PostState::PendingReview,
            s => s,
        };
    }

    pub fn approve(&mut self)
        ensures
            final(self).spec_state() == after_approve(old(self).spec_state()),
            final(self).spec_content() == old(self).spec_content(),
    {
        self.state = match self.state {
            PostState::PendingReview => PostState::Published,
            s => s,
        };
    }

    /// What readers see: the content once published, nothing before.
    pub fn content(&self) -> (r: &str)
        ensures
            self.spec_state() == PostState::Published ==> r@ == self.spec_content(),
            self.spec_state() != PostState::Published ==> r@ == Seq::<char>::empty(),
    {
        match self.state {
            PostState::Published => self.content.as_str(),
            _ => {
                proof {
                    reveal_strlit("");
                }
                ""
            },
        }
    }
}

} // verus!
