//! What the sorted list of review keys, and the reviews beside it, say about
//! a project or an account.

use crate::account::AccountId;
use crate::records::{Project, ProjectView, Review, ReviewKey};
use crate::sorted::{strictly_sorted, SortKey};
use vstd::prelude::*;

verus! {

/// The reviews left on a project, in the order of their keys. `keys` and
/// `reviews` have one length, and each review stands at the index of its key.
pub open spec fn reviews_of(keys: Seq<ReviewKey>, reviews: Seq<Review>, project_id: u32) -> Seq<
    Review,
>
    decreases keys.len(),
{
    if keys.len() == 0 {
        Seq::empty()
    } else {
        let front = reviews_of(keys.drop_last(), reviews.drop_last(), project_id);
        if keys.last().project_id == project_id {
            front.push(reviews.last())
        } else {
            front
        }
    }
}

/// The accounts that left the given reviews, in the same order.
pub open spec fn reviewers(reviews: Seq<Review>) -> Seq<AccountId> {
    Seq::new(reviews.len(), |i: int| reviews[i].owner)
}

/// The sum of the ratings of the given reviews.
pub open spec fn rating_total(reviews: Seq<Review>) -> int
    decreases reviews.len(),
{
    if reviews.len() == 0 {
        0
    } else {
        rating_total(reviews.drop_last()) + reviews.last().rating
    }
}

/// The projects that an account has reviewed, each with its id, in the order
/// of the keys.
pub open spec fn projects_reviewed_by(
    keys: Seq<ReviewKey>,
    projects: Seq<ProjectView>,
    user: AccountId,
) -> Seq<(u32, ProjectView)>
    decreases keys.len(),
{
    if keys.len() == 0 {
        Seq::empty()
    } else {
        let front = projects_reviewed_by(keys.drop_last(), projects, user);
        if keys.last().owner == user {
            front.push((keys.last().project_id, projects[keys.last().project_id as int]))
        } else {
            front
        }
    }
}

/// The projects with their owners and ids, in the order of the ids.
pub open spec fn listing(projects: Seq<ProjectView>) -> Seq<(AccountId, u32, ProjectView)> {
    Seq::new(projects.len(), |id: int| (projects[id].owner, id as u32, projects[id]))
}

/// A listing of projects with the metadata of each as a sequence of bytes.
pub open spec fn listing_view(entries: Seq<(AccountId, u32, Project)>) -> Seq<
    (AccountId, u32, ProjectView),
> {
    Seq::new(entries.len(), |i: int| (entries[i].0, entries[i].1, entries[i].2@))
}

/// Projects beside their ids, with the metadata of each as a sequence of
/// bytes.
pub open spec fn reviewed_view(entries: Seq<(u32, Project)>) -> Seq<(u32, ProjectView)> {
    Seq::new(entries.len(), |i: int| (entries[i].0, entries[i].1@))
}

/// The reviews of a project in two lists laid end to end are those in the
/// first followed by those in the second.
pub proof fn lemma_reviews_of_concat(
    keys: Seq<ReviewKey>,
    reviews: Seq<Review>,
    more_keys: Seq<ReviewKey>,
    more_reviews: Seq<Review>,
    project_id: u32,
)
    requires
        keys.len() == reviews.len(),
        more_keys.len() == more_reviews.len(),
    ensures
        reviews_of(keys + more_keys, reviews + more_reviews, project_id) == reviews_of(
            keys,
            reviews,
            project_id,
        ) + reviews_of(more_keys, more_reviews, project_id),
    decreases more_keys.len(),
{
    let all_keys = keys + more_keys;
    let all_reviews = reviews + more_reviews;
    if more_keys.len() == 0 {
        assert(reviews_of(keys, reviews, project_id) + Seq::<Review>::empty() =~= reviews_of(
            keys,
            reviews,
            project_id,
        ));
    } else {
        lemma_reviews_of_concat(
            keys,
            reviews,
            more_keys.drop_last(),
            more_reviews.drop_last(),
            project_id,
        );
        assert(all_keys.drop_last() =~= keys + more_keys.drop_last());
        assert(all_reviews.drop_last() =~= reviews + more_reviews.drop_last());
        let left = reviews_of(keys, reviews, project_id);
        let right = reviews_of(more_keys.drop_last(), more_reviews.drop_last(), project_id);
        assert((left + right).push(more_reviews.last()) =~= left + right.push(
            more_reviews.last(),
        ));
    }
}

/// The ratings of two lists laid end to end add up.
pub proof fn lemma_rating_total_concat(reviews: Seq<Review>, more: Seq<Review>)
    ensures
        rating_total(reviews + more) == rating_total(reviews) + rating_total(more),
    decreases more.len(),
{
    if more.len() == 0 {
        assert(reviews + more =~= reviews);
    } else {
        lemma_rating_total_concat(reviews, more.drop_last());
        assert((reviews + more).drop_last() =~= reviews + more.drop_last());
    }
}

/// A key and its review inserted at one index add the review to the reviews
/// of its project, and leave the reviews of every other project as they were.
pub proof fn lemma_reviews_of_insert(
    keys: Seq<ReviewKey>,
    reviews: Seq<Review>,
    at: int,
    key: ReviewKey,
    review: Review,
    project_id: u32,
)
    requires
        keys.len() == reviews.len(),
        0 <= at <= keys.len(),
    ensures
        key.project_id != project_id ==> reviews_of(
            keys.insert(at, key),
            reviews.insert(at, review),
            project_id,
        ) == reviews_of(keys, reviews, project_id),
        key.project_id == project_id ==> {
            let before = reviews_of(keys, reviews, project_id);
            let after = reviews_of(keys.insert(at, key), reviews.insert(at, review), project_id);
            &&& after.len() == before.len() + 1
            &&& rating_total(after) == rating_total(before) + review.rating
        },
{
    let one_key = seq![key];
    let one_review = seq![review];
    let head = reviews_of(keys.take(at), reviews.take(at), project_id);
    let tail = reviews_of(keys.skip(at), reviews.skip(at), project_id);
    let middle = reviews_of(one_key, one_review, project_id);
    assert(keys =~= keys.take(at) + keys.skip(at));
    assert(reviews =~= reviews.take(at) + reviews.skip(at));
    assert(keys.insert(at, key) =~= keys.take(at) + one_key + keys.skip(at));
    assert(reviews.insert(at, review) =~= reviews.take(at) + one_review + reviews.skip(at));
    lemma_reviews_of_concat(
        keys.take(at),
        reviews.take(at),
        keys.skip(at),
        reviews.skip(at),
        project_id,
    );
    lemma_reviews_of_concat(keys.take(at), reviews.take(at), one_key, one_review, project_id);
    lemma_reviews_of_concat(
        keys.take(at) + one_key,
        reviews.take(at) + one_review,
        keys.skip(at),
        reviews.skip(at),
        project_id,
    );
    assert(reviews_of(one_key.drop_last(), one_review.drop_last(), project_id)
        =~= Seq::<Review>::empty());
    if key.project_id == project_id {
        assert(rating_total(middle.drop_last()) == 0);
        lemma_rating_total_concat(head, tail);
        lemma_rating_total_concat(head, middle);
        lemma_rating_total_concat(head + middle, tail);
    }
}

/// A project that no key names has no reviews.
pub proof fn lemma_reviews_of_unnamed(keys: Seq<ReviewKey>, reviews: Seq<Review>, project_id: u32)
    requires
        forall|i: int| 0 <= i < keys.len() ==> (#[trigger] keys[i]).project_id != project_id,
    ensures
        reviews_of(keys, reviews, project_id) == Seq::<Review>::empty(),
    decreases keys.len(),
{
    if keys.len() > 0 {
        lemma_reviews_of_unnamed(keys.drop_last(), reviews.drop_last(), project_id);
    }
}

/// A project has at most as many reviews as there are keys.
pub proof fn lemma_reviews_of_len(keys: Seq<ReviewKey>, reviews: Seq<Review>, project_id: u32)
    ensures
        reviews_of(keys, reviews, project_id).len() <= keys.len(),
    decreases keys.len(),
{
    if keys.len() > 0 {
        lemma_reviews_of_len(keys.drop_last(), reviews.drop_last(), project_id);
    }
}

/// Every review among those of a project stands beside a key that names the
/// project. The index of one such key is returned.
pub proof fn lemma_reviews_of_origin(
    keys: Seq<ReviewKey>,
    reviews: Seq<Review>,
    project_id: u32,
    at: int,
) -> (i: int)
    requires
        keys.len() == reviews.len(),
        0 <= at < reviews_of(keys, reviews, project_id).len(),
    ensures
        0 <= i < keys.len(),
        keys[i].project_id == project_id,
        reviews[i] == reviews_of(keys, reviews, project_id)[at],
    decreases keys.len(),
{
    let front = reviews_of(keys.drop_last(), reviews.drop_last(), project_id);
    if keys.last().project_id == project_id && at == front.len() {
        keys.len() - 1
    } else {
        lemma_reviews_of_origin(keys.drop_last(), reviews.drop_last(), project_id, at)
    }
}

/// The review beside every key that names a project is among the reviews of
/// that project.
pub proof fn lemma_reviews_of_complete(
    keys: Seq<ReviewKey>,
    reviews: Seq<Review>,
    project_id: u32,
    i: int,
)
    requires
        keys.len() == reviews.len(),
        0 <= i < keys.len(),
        keys[i].project_id == project_id,
    ensures
        reviews_of(keys, reviews, project_id).contains(reviews[i]),
    decreases keys.len(),
{
    let front = reviews_of(keys.drop_last(), reviews.drop_last(), project_id);
    let all = reviews_of(keys, reviews, project_id);
    if i == keys.len() - 1 {
        assert(all[front.len() as int] == reviews[i]);
    } else {
        lemma_reviews_of_complete(keys.drop_last(), reviews.drop_last(), project_id, i);
        let at = choose|at: int| 0 <= at < front.len() && front[at] == reviews[i];
        assert(all[at] == reviews[i]);
    }
}

/// Where the keys are strictly sorted and each review has the owner of its
/// key, the accounts that reviewed a project are strictly sorted: none
/// occurs twice.
pub proof fn lemma_reviewers_sorted(keys: Seq<ReviewKey>, reviews: Seq<Review>, project_id: u32)
    requires
        keys.len() == reviews.len(),
        strictly_sorted(keys),
        forall|i: int| 0 <= i < reviews.len() ==> (#[trigger] reviews[i]).owner == keys[i].owner,
    ensures
        strictly_sorted(reviewers(reviews_of(keys, reviews, project_id))),
    decreases keys.len(),
{
    let all = reviewers(reviews_of(keys, reviews, project_id));
    if keys.len() > 0 {
        let last = keys.len() - 1;
        let front_keys = keys.drop_last();
        let front_reviews = reviews.drop_last();
        let front = reviews_of(front_keys, front_reviews, project_id);
        assert forall|i: int, j: int|
            0 <= i < j < front_keys.len() implies #[trigger] front_keys[i].precedes(
            &front_keys[j],
        ) by {
            assert(keys[i].precedes(&keys[j]));
        }
        assert forall|i: int| 0 <= i < front_reviews.len() implies (
        #[trigger] front_reviews[i]).owner == front_keys[i].owner by {
            assert(reviews[i].owner == keys[i].owner);
        }
        lemma_reviewers_sorted(front_keys, front_reviews, project_id);
        assert forall|a: int, b: int| 0 <= a < b < all.len() implies #[trigger] all[a].precedes(
            &all[b],
        ) by {
            if b < front.len() {
                assert(reviewers(front)[a].precedes(&reviewers(front)[b]));
            } else {
                let i = lemma_reviews_of_origin(front_keys, front_reviews, project_id, a);
                assert(keys[i].precedes(&keys[last]));
            }
        }
    }
}

} // verus!
