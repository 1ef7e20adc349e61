//! Comments that are updated in place.
use vstd::prelude::*;

use crate::github::{find_comment, is_marked, Comment};
use crate::text::{ends_with, occurs_at, starts_with, text_trim, trim};

verus! {

/// The mark by which an earlier comment of the program is known again.
pub open spec fn marker_of(program: Seq<char>) -> Seq<char> {
    "<!-- "@ + program + "-sticky -->"@
}

/// The mark by which an earlier comment of the program is known again.
pub fn sticky_marker(program: &str) -> (r: String)
    ensures
        r@ == marker_of(program@),
{
    let mut m = "<!-- ".to_owned();
    m.push_str(program);
    m.push_str("-sticky -->");
    m
}

/// A review with the mark behind it.
pub open spec fn marked_body(program: Seq<char>, body: Seq<char>) -> Seq<char> {
    trim(body) + "\n"@ + marker_of(program)
}

/// A review that takes the place of an earlier one.
pub open spec fn updated_body(program: Seq<char>, body: Seq<char>) -> Seq<char> {
    marked_body(program, body) + "\n\n*Review updated*"@
}

/// How a review is posted.
pub enum StickyStep {
    /// Write it over the comment with this number.
    Edit { comment_id: u64, body: String },
    /// Post it as a new comment.
    Publish { body: String },
}

/// The step writes over the first comment with the mark, or posts a new one where there
/// is none.
pub open spec fn is_sticky_step(
    program: Seq<char>,
    body: Seq<char>,
    comments: Seq<Comment>,
    step: StickyStep,
) -> bool {
    match step {
        StickyStep::Edit { comment_id, body: b } => b@ == updated_body(program, body) && exists|
            i: int,
        |
            0 <= i < comments.len() && (#[trigger] comments[i]).id == comment_id && is_marked(
                comments[i],
                marker_of(program),
            ) && forall|j: int|
                0 <= j < i ==> !is_marked(#[trigger] comments[j], marker_of(program)),
        StickyStep::Publish { body: b } => b@ == marked_body(program, body) && forall|j: int|
            0 <= j < comments.len() ==> !is_marked(#[trigger] comments[j], marker_of(program)),
    }
}

/// A review takes the place of the first comment of the program that there is, and is a
/// new comment just where there is none; either way it holds the review.
pub proof fn earlier_comments_are_written_over(
    program: Seq<char>,
    body: Seq<char>,
    comments: Seq<Comment>,
    step: StickyStep,
    i: int,
)
    requires
        is_sticky_step(program, body, comments, step),
    ensures
        0 <= i < comments.len() && is_marked(comments[i], marker_of(program)) && (forall|j: int|
            0 <= j < i ==> !is_marked(#[trigger] comments[j], marker_of(program))) ==> (
        step matches StickyStep::Edit { comment_id, body: b } && comment_id == comments[i].id
            && starts_with(b@, trim(body))),
        (forall|j: int|
            0 <= j < comments.len() ==> !is_marked(#[trigger] comments[j], marker_of(program)))
            ==> (step matches StickyStep::Publish { body: b } && starts_with(b@, trim(body))),
{
    let m = marked_body(program, body);
    let u = updated_body(program, body);
    assert(m.subrange(0, trim(body).len() as int) =~= trim(body));
    assert(u.subrange(0, trim(body).len() as int) =~= trim(body));
}

/// How a review is posted so that it can be updated: over the first comment with
/// the mark, or as a new comment with the mark.
pub fn sticky_step(program: &str, body: &str, comments: &Vec<Comment>) -> (r: StickyStep)
    ensures
        is_sticky_step(program@, body@, comments@, r),
        match r {
            StickyStep::Edit { comment_id, body: b } => b@ == updated_body(program@, body@) && exists|i: int|
                0 <= i < comments@.len() && (#[trigger] comments@[i]).id == comment_id && is_marked(
                    comments@[i],
                    marker_of(program@),
                ) && forall|j: int|
                    0 <= j < i ==> !is_marked(#[trigger] comments@[j], marker_of(program@)),
            StickyStep::Publish { body: b } => b@ == marked_body(program@, body@) && forall|j: int|
                0 <= j < comments@.len() ==> !is_marked(#[trigger] comments@[j], marker_of(program@)),
        },
{
    let mut marked = text_trim(body);
    marked.push_str("\n");
    let marker = sticky_marker(program);
    marked.push_str(marker.as_str());
    match find_comment(comments, marker.as_str()) {
        Some(i) => {
            marked.push_str("\n\n*Review updated*");
            assert(comments@[i as int].id == comments[i as int].id);
            StickyStep::Edit { comment_id: comments[i].id, body: marked }
        },
        None => StickyStep::Publish { body: marked },
    }
}

/// Whatever was posted is found again by its mark, be it new or updated.
pub proof fn posted_review_is_found_again(program: Seq<char>, body: Seq<char>, posted: Comment)
    requires
        posted.body matches Some(b) && (b@ == marked_body(program, body) || b@ == updated_body(
            program,
            body,
        )),
    ensures
        is_marked(posted, marker_of(program)),
{
    let marker = marker_of(program);
    let front = trim(body) + "\n"@;
    let at = front.len() as int;
    let b = posted.body.unwrap()@;
    assert(b.subrange(at, at + marker.len()) =~= marker);
    assert(occurs_at(b, marker, at));
}

/// What is posted is the review, with the mark behind it; an update says that it is one.
pub proof fn posted_comments_hold_the_review(program: Seq<char>, body: Seq<char>)
    ensures
        starts_with(marked_body(program, body), trim(body)),
        ends_with(marked_body(program, body), "<!-- "@ + program + "-sticky -->"@),
        starts_with(updated_body(program, body), marked_body(program, body)),
        ends_with(updated_body(program, body), "*Review updated*"@),
{
    let m = marked_body(program, body);
    let u = updated_body(program, body);
    let mark = "<!-- "@ + program + "-sticky -->"@;
    reveal_strlit("\n\n*Review updated*");
    reveal_strlit("*Review updated*");
    assert(m.subrange(0, trim(body).len() as int) =~= trim(body));
    assert(m.subrange(m.len() - mark.len(), m.len() as int) =~= mark);
    assert(u.subrange(0, m.len() as int) =~= m);
    assert(u.subrange(u.len() - 16, u.len() as int) =~= "*Review updated*"@);
}

} // verus!
