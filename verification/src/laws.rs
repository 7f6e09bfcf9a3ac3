//! What holds of the registry whatever is done with it.

use crate::account::AccountId;
use crate::challenge::lemma_challenge_message_injective;
use crate::crypto::recovered_signer;
use crate::ledger::{
    lemma_reviewers_sorted, lemma_reviews_of_complete, lemma_reviews_of_insert,
    lemma_reviews_of_len, lemma_reviews_of_origin, lemma_reviews_of_unnamed, rating_total,
    reviewers, reviews_of,
};
use crate::records::{Error, Review, ReviewKey};
use crate::sorted::{
    lemma_insert_keeps_sorted, lemma_insert_to_set, lemma_lower_bound_splits, lower_bound,
    strictly_sorted, SortKey,
};
use crate::view::{Call, ChocolateView};
use vstd::prelude::*;

verus! {

/// The registry in which nothing has happened yet is in a state that can be
/// reached.
pub proof fn lemma_initial_valid()
    ensures
        ChocolateView::initial().valid(),
{
}

/// Registering a project leaves a state that can be reached.
pub proof fn lemma_add_project_keeps_valid(before: ChocolateView, caller: AccountId, meta: Seq<u8>)
    requires
        before.valid(),
        before.projects.len() < u32::MAX,
    ensures
        before.add_project(caller, meta).valid(),
{
    let after = before.add_project(caller, meta);
    let id = before.projects.len() as u32;
    lemma_reviews_of_unnamed(after.review_keys, after.reviews, id);
    assert forall|other: int| 0 <= other < after.projects.len() implies {
        &&& (#[trigger] after.projects[other]).review_count == reviews_of(
            after.review_keys,
            after.reviews,
            other as u32,
        ).len()
        &&& after.projects[other].rating_sum == rating_total(
            reviews_of(after.review_keys, after.reviews, other as u32),
        )
    } by {}
}

/// An attempt to review a project leaves a state that can be reached.
pub proof fn lemma_add_review_keeps_valid(
    before: ChocolateView,
    caller: AccountId,
    rating: u32,
    project_id: u32,
)
    requires
        before.valid(),
        before.review_fits(caller, rating, project_id),
    ensures
        before.add_review(caller, rating, project_id).valid(),
{
    if before.review_outcome(caller, project_id) is Ok {
        let after = before.add_review(caller, rating, project_id);
        let key = ReviewKey { owner: caller, project_id };
        let at = lower_bound(before.review_keys, key);
        let review = Review { id: before.reviews.len() as u32, rating, owner: caller };
        lemma_lower_bound_splits(before.review_keys, key);
        lemma_insert_keeps_sorted(before.review_keys, key);
        assert forall|i: int| 0 <= i < after.review_keys.len() implies (
        #[trigger] after.review_keys[i]).project_id < after.projects.len() by {
            if i < at {
                assert(after.review_keys[i] == before.review_keys[i]);
            } else if i > at {
                assert(after.review_keys[i] == before.review_keys[i - 1]);
            }
        }
        assert forall|i: int| 0 <= i < after.reviews.len() implies {
            &&& (#[trigger] after.reviews[i]).owner == after.review_keys[i].owner
            &&& after.reviews[i].id < after.reviews.len()
        } by {
            if i < at {
                assert(after.reviews[i] == before.reviews[i]);
            } else if i > at {
                assert(after.reviews[i] == before.reviews[i - 1]);
            }
        }
        assert forall|i: int, j: int| 0 <= i < j < after.reviews.len() implies (
        #[trigger] after.reviews[i]).id != (#[trigger] after.reviews[j]).id by {
            // The new review has the count of the others as its id, which is
            // above the id of each of them.
            let old_i = if i < at { i } else { i - 1 };
            let old_j = if j < at { j } else { j - 1 };
            if i != at && j != at {
                assert(before.reviews[old_i].id != before.reviews[old_j].id);
            } else if i == at {
                assert(before.reviews[old_j].id < before.reviews.len());
            } else {
                assert(before.reviews[old_i].id < before.reviews.len());
            }
        }
        assert forall|id: int| 0 <= id < after.projects.len() implies {
            &&& (#[trigger] after.projects[id]).review_count == reviews_of(
                after.review_keys,
                after.reviews,
                id as u32,
            ).len()
            &&& after.projects[id].rating_sum == rating_total(
                reviews_of(after.review_keys, after.reviews, id as u32),
            )
        } by {
            lemma_reviews_of_insert(before.review_keys, before.reviews, at, key, review, id as u32);
            lemma_reviews_of_len(before.review_keys, before.reviews, id as u32);
            assert(before.projects[id].review_count == reviews_of(
                before.review_keys,
                before.reviews,
                id as u32,
            ).len());
        }
    }
}

/// Every call that a state admits leaves a state that can be reached.
pub proof fn lemma_step_keeps_valid(before: ChocolateView, call: Call)
    requires
        before.valid(),
        before.admits(call),
    ensures
        before.step(call).valid(),
{
    match call {
        Call::AddProject { caller, meta } => {
            lemma_add_project_keeps_valid(before, caller, meta);
        },
        Call::AddReview { caller, rating, project_id } => {
            lemma_add_review_keeps_valid(before, caller, rating, project_id);
        },
        _ => {},
    }
}

/// Calls made one after the other, each admitted by the state that it is made
/// in, leave a state that can be reached.
pub proof fn lemma_run_keeps_valid(before: ChocolateView, calls: Seq<Call>)
    requires
        before.valid(),
        before.admits_all(calls),
    ensures
        before.run(calls).valid(),
    decreases calls.len(),
{
    if calls.len() > 0 {
        lemma_run_keeps_valid(before, calls.drop_last());
        lemma_step_keeps_valid(before.run(calls.drop_last()), calls.last());
    }
}

/// No call removes a project or a review.
pub proof fn lemma_step_keeps_records(before: ChocolateView, call: Call, key: ReviewKey)
    requires
        before.valid(),
    ensures
        before.step(call).projects.len() >= before.projects.len(),
        before.review_keys.contains(key) ==> before.step(call).review_keys.contains(key),
{
    if let Call::AddReview { caller, rating, project_id } = call {
        if before.review_outcome(caller, project_id) is Ok {
            let added = ReviewKey { owner: caller, project_id };
            lemma_lower_bound_splits(before.review_keys, added);
            lemma_insert_to_set(before.review_keys, lower_bound(before.review_keys, added), added);
            assert(before.step(call).review_keys.to_set().contains(key) <==> (key == added
                || before.review_keys.to_set().contains(key)));
        }
    }
}

/// Projects and reviews stay, whatever calls are made.
pub proof fn lemma_run_keeps_records(before: ChocolateView, calls: Seq<Call>, key: ReviewKey)
    requires
        before.valid(),
        before.admits_all(calls),
    ensures
        before.run(calls).projects.len() >= before.projects.len(),
        before.review_keys.contains(key) ==> before.run(calls).review_keys.contains(key),
    decreases calls.len(),
{
    if calls.len() > 0 {
        lemma_run_keeps_records(before, calls.drop_last(), key);
        lemma_run_keeps_valid(before, calls.drop_last());
        lemma_step_keeps_records(before.run(calls.drop_last()), calls.last(), key);
    }
}

/// An account has at most one review on a project: in a state that can be
/// reached no key occurs twice among the reviews.
pub proof fn lemma_review_keys_distinct(state: ChocolateView, i: int, j: int)
    requires
        state.valid(),
        0 <= i < state.review_keys.len(),
        0 <= j < state.review_keys.len(),
        i != j,
    ensures
        state.review_keys[i] != state.review_keys[j],
{
    let a = state.review_keys[i];
    let b = state.review_keys[j];
    ReviewKey::lemma_strict_total_order(&a, &a, &a);
    if i < j {
        assert(a.precedes(&b));
    } else {
        assert(b.precedes(&a));
    }
}

/// Once an account has reviewed a project, every further attempt of it to
/// review that project fails with `ReviewAlreadyExists`, whatever calls were
/// made in between and whatever the rating.
pub proof fn lemma_second_review_fails(
    before: ChocolateView,
    caller: AccountId,
    rating: u32,
    project_id: u32,
    calls: Seq<Call>,
)
    requires
        before.valid(),
        before.review_fits(caller, rating, project_id),
        before.review_outcome(caller, project_id) is Ok,
        before.add_review(caller, rating, project_id).admits_all(calls),
    ensures
        before.add_review(caller, rating, project_id).run(calls).review_outcome(caller, project_id)
            == Err::<(), Error>(Error::ReviewAlreadyExists),
        forall|again: u32|
            before.add_review(caller, rating, project_id).run(calls).add_review(
                caller,
                again,
                project_id,
            ) == before.add_review(caller, rating, project_id).run(calls),
{
    let key = ReviewKey { owner: caller, project_id };
    let reviewed = before.add_review(caller, rating, project_id);
    lemma_add_review_keeps_valid(before, caller, rating, project_id);
    lemma_lower_bound_splits(before.review_keys, key);
    assert(reviewed.review_keys[lower_bound(before.review_keys, key)] == key);
    lemma_run_keeps_records(reviewed, calls, key);
}

/// The count of a project is the number of the accounts that have reviewed
/// it, none of which is counted twice, and its sum is the sum of the ratings
/// that they gave. The reviews of a project are those beside the keys that
/// name it.
pub proof fn lemma_totals_match_reviews(state: ChocolateView, project_id: u32)
    requires
        state.valid(),
        project_id < state.projects.len(),
    ensures
        state.projects[project_id as int].review_count == reviewers(
            reviews_of(state.review_keys, state.reviews, project_id),
        ).len(),
        state.projects[project_id as int].rating_sum == rating_total(
            reviews_of(state.review_keys, state.reviews, project_id),
        ),
        strictly_sorted(reviewers(reviews_of(state.review_keys, state.reviews, project_id))),
        forall|i: int|
            0 <= i < state.review_keys.len() && (#[trigger] state.review_keys[i]).project_id
                == project_id ==> reviews_of(state.review_keys, state.reviews, project_id).contains(
                state.reviews[i],
            ),
        forall|at: int|
            0 <= at < reviews_of(state.review_keys, state.reviews, project_id).len()
                ==> state.review_keys.contains(
                ReviewKey {
                    owner: (#[trigger] reviews_of(
                        state.review_keys,
                        state.reviews,
                        project_id,
                    )[at]).owner,
                    project_id,
                },
            ),
{
    let keys = state.review_keys;
    let reviews = state.reviews;
    let found = reviews_of(keys, reviews, project_id);
    lemma_reviewers_sorted(keys, reviews, project_id);
    assert forall|i: int| 0 <= i < keys.len() && (#[trigger] keys[i]).project_id
        == project_id implies found.contains(reviews[i]) by {
        lemma_reviews_of_complete(keys, reviews, project_id, i);
    }
    assert forall|at: int| 0 <= at < found.len() implies keys.contains(
        ReviewKey { owner: (#[trigger] found[at]).owner, project_id },
    ) by {
        let i = lemma_reviews_of_origin(keys, reviews, project_id, at);
        assert(keys[i] == ReviewKey { owner: found[at].owner, project_id });
    }
}

/// How many of the calls register a project.
pub open spec fn projects_added(calls: Seq<Call>) -> nat
    decreases calls.len(),
{
    if calls.len() == 0 {
        0
    } else if calls.last() is AddProject {
        projects_added(calls.drop_last()) + 1
    } else {
        projects_added(calls.drop_last())
    }
}

/// The ids of projects count up from 0 without gaps: a project gets as its id
/// the number of projects registered before it, and that number grows by one
/// with each project registered and with no other call.
pub proof fn lemma_project_ids_count_up(before: ChocolateView, calls: Seq<Call>)
    requires
        before.valid(),
        before.admits_all(calls),
    ensures
        ChocolateView::initial().projects.len() == 0,
        before.run(calls).projects.len() == before.projects.len() + projects_added(calls),
        forall|caller: AccountId, meta: Seq<u8>|
            (#[trigger] before.run(calls).add_project(caller, meta)).projects.len()
                == before.run(calls).projects.len() + 1,
    decreases calls.len(),
{
    if calls.len() > 0 {
        lemma_project_ids_count_up(before, calls.drop_last());
    }
}

/// An account that asks for a challenge a second time, with no verification
/// of it concluded in between, gets the same challenge, and the second
/// request changes nothing.
pub proof fn lemma_challenge_is_reissued(before: ChocolateView, caller: AccountId)
    requires
        before.valid(),
    ensures
        before.initiate_verification(caller).challenge_for(caller) == before.challenge_for(caller),
        before.initiate_verification(caller).initiate_verification(caller)
            == before.initiate_verification(caller),
{
}

/// Two requests for a challenge by an account that had none under way count
/// as one: the count of challenges grows by one, as long as it is below the
/// largest count there is.
pub proof fn lemma_challenge_counts_once(before: ChocolateView, caller: AccountId)
    requires
        before.valid(),
        !before.flows.contains_key(caller),
        before.verifications_count < u32::MAX,
    ensures
        before.initiate_verification(caller).initiate_verification(caller).verifications_count
            == before.verifications_count + 1,
{
}

/// No two accounts have the same challenge under way.
pub proof fn lemma_challenges_differ(state: ChocolateView, account: AccountId, other: AccountId)
    requires
        state.valid(),
        state.flows.contains_key(account),
        state.flows.contains_key(other),
        account != other,
    ensures
        state.flows[account].message != state.flows[other].message,
{
    if state.flows[account].message == state.flows[other].message {
        lemma_challenge_message_injective(
            account,
            state.flows[account].index,
            other,
            state.flows[other].index,
        );
    }
}

/// A verification that is under way is concluded by a signature that shows
/// the account itself to have signed its challenge, handed in by an account
/// that may conclude verifications. The account then has no verification
/// under way and is the last of the verified accounts, and the same call
/// made again fails with `VerificationFlowNotInitiated`.
pub proof fn lemma_verification_round_trip(
    before: ChocolateView,
    caller: AccountId,
    signature: Seq<u8>,
    subject: AccountId,
)
    requires
        before.valid(),
        before.authorizers.contains(caller),
        before.flows.contains_key(subject),
        recovered_signer(signature, before.flows[subject].message) == Some(subject@),
    ensures
        before.verification_outcome(
            caller,
            subject,
            before.signer_of_challenge(signature, subject),
        ) == Ok::<(), Error>(()),
        ({
            let call = Call::VerifyIdentity { caller, signature, address_to_verify: subject };
            let after = before.step(call);
            &&& !after.flows.contains_key(subject)
            &&& after.verified_accounts == before.verified_accounts.push(subject)
            &&& after.verification_outcome(
                caller,
                subject,
                after.signer_of_challenge(signature, subject),
            ) == Err::<(), Error>(Error::VerificationFlowNotInitiated)
            &&& after.step(call) == after
        }),
{
}

/// An account that may not conclude verifications is refused with
/// `NotAuthorized`, whatever the signature shows and whether or not a
/// verification is under way, and nothing changes.
pub proof fn lemma_unauthorized_is_refused(
    before: ChocolateView,
    caller: AccountId,
    subject: AccountId,
    signer: Option<Seq<u8>>,
)
    requires
        !before.authorizers.contains(caller),
    ensures
        before.verification_outcome(caller, subject, signer) == Err::<(), Error>(
            Error::NotAuthorized,
        ),
        before.conclude_verification(caller, subject, signer) == before,
{
}

/// A call that fails changes nothing.
pub proof fn lemma_failure_changes_nothing(
    before: ChocolateView,
    caller: AccountId,
    rating: u32,
    project_id: u32,
    subject: AccountId,
    signer: Option<Seq<u8>>,
)
    ensures
        before.review_outcome(caller, project_id) is Err ==> before.add_review(
            caller,
            rating,
            project_id,
        ) == before,
        before.verification_outcome(caller, subject, signer) is Err
            ==> before.conclude_verification(caller, subject, signer) == before,
{
}

} // verus!
