//! The registry as a mathematical value, and what each operation makes of it.

use crate::account::AccountId;
use crate::challenge::challenge_message;
use crate::crypto::recovered_signer;
use crate::ledger::{rating_total, reviews_of};
use crate::records::{Error, ProjectView, Review, ReviewKey, VerifyDetailsView};
use crate::sorted::{lower_bound, strictly_sorted};
use vstd::prelude::*;

verus! {

/// The state of the registry.
pub struct ChocolateView {
    /// The projects, each at the index that is its id.
    pub projects: Seq<ProjectView>,
    /// The keys of the reviews, strictly sorted.
    pub review_keys: Seq<ReviewKey>,
    /// The reviews, each at the index of its key.
    pub reviews: Seq<Review>,
    /// The challenges of the verifications under way, by account.
    pub flows: Map<AccountId, VerifyDetailsView>,
    /// How many challenges have been issued.
    pub verifications_count: u32,
    /// The accounts that may conclude verifications.
    pub authorizers: Set<AccountId>,
    /// The accounts whose verification is done, in the order in which it was
    /// concluded.
    pub verified_accounts: Seq<AccountId>,
}

impl ChocolateView {
    /// The registry in which nothing has happened yet.
    pub open spec fn initial() -> ChocolateView {
        ChocolateView {
            projects: Seq::empty(),
            review_keys: Seq::empty(),
            reviews: Seq::empty(),
            flows: Map::empty(),
            verifications_count: 0,
            authorizers: Set::empty(),
            verified_accounts: Seq::empty(),
        }
    }

    /// What holds of every state that the operations can reach.
    pub open spec fn valid(self) -> bool {
        &&& self.projects.len() <= u32::MAX
        &&& self.reviews.len() <= u32::MAX
        &&& self.review_keys.len() == self.reviews.len()
        &&& strictly_sorted(self.review_keys)
        &&& forall|i: int|
            0 <= i < self.review_keys.len() ==> (#[trigger] self.review_keys[i]).project_id
                < self.projects.len()
        &&& forall|i: int|
            0 <= i < self.reviews.len() ==> {
                &&& (#[trigger] self.reviews[i]).owner == self.review_keys[i].owner
                &&& self.reviews[i].id < self.reviews.len()
            }
        &&& forall|i: int, j: int|
            0 <= i < j < self.reviews.len() ==> (#[trigger] self.reviews[i]).id
                != (#[trigger] self.reviews[j]).id
        &&& forall|id: int|
            0 <= id < self.projects.len() ==> {
                &&& (#[trigger] self.projects[id]).review_count == reviews_of(
                    self.review_keys,
                    self.reviews,
                    id as u32,
                ).len()
                &&& self.projects[id].rating_sum == rating_total(
                    reviews_of(self.review_keys, self.reviews, id as u32),
                )
            }
        &&& forall|account: AccountId| #[trigger]
            self.flows.contains_key(account) ==> {
                &&& 1 <= self.flows[account].index <= self.verifications_count
                &&& self.flows[account].message == challenge_message(
                    account,
                    self.flows[account].index,
                )
            }
    }

    /// The state after `caller` has registered a project.
    pub open spec fn add_project(self, caller: AccountId, meta: Seq<u8>) -> ChocolateView {
        ChocolateView {
            projects: self.projects.push(
                ProjectView { review_count: 0, rating_sum: 0, owner: caller, meta },
            ),
            ..self
        }
    }

    /// How an attempt of `caller` to review a project ends.
    pub open spec fn review_outcome(self, caller: AccountId, project_id: u32) -> Result<(), Error> {
        if project_id >= self.projects.len() {
            Err(Error::ProjectDoesNotExist)
        } else if self.review_keys.contains(ReviewKey { owner: caller, project_id }) {
            Err(Error::ReviewAlreadyExists)
        } else {
            Ok(())
        }
    }

    /// Whether the counts and sums of a review that would be accepted fit in
    /// 32 bits.
    pub open spec fn review_fits(self, caller: AccountId, rating: u32, project_id: u32) -> bool {
        self.review_outcome(caller, project_id) is Ok ==> {
            &&& self.reviews.len() < u32::MAX
            &&& self.projects[project_id as int].rating_sum + rating <= u32::MAX
        }
    }

    /// The state after an attempt of `caller` to review a project: where the
    /// attempt succeeds, key and review stand at the key's place in the
    /// order, and the project counts one review more.
    pub open spec fn add_review(self, caller: AccountId, rating: u32, project_id: u32)
        -> ChocolateView {
        if self.review_outcome(caller, project_id) is Ok {
            let key = ReviewKey { owner: caller, project_id };
            let at = lower_bound(self.review_keys, key);
            let project = self.projects[project_id as int];
            ChocolateView {
                projects: self.projects.update(
                    project_id as int,
                    ProjectView {
                        review_count: (project.review_count + 1) as u32,
                        rating_sum: (project.rating_sum + rating) as u32,
                        ..project
                    },
                ),
                review_keys: self.review_keys.insert(at, key),
                reviews: self.reviews.insert(
                    at,
                    Review { id: self.reviews.len() as u32, rating, owner: caller },
                ),
                ..self
            }
        } else {
            self
        }
    }

    /// What a request for a review returns.
    pub open spec fn review(self, project_id: u32, user: AccountId) -> Result<Review, Error> {
        let key = ReviewKey { owner: user, project_id };
        if self.review_keys.contains(key) {
            Ok(self.reviews[lower_bound(self.review_keys, key)])
        } else {
            Err(Error::ReviewDoesNotExist)
        }
    }

    /// The state after an account has been allowed to conclude verifications.
    pub open spec fn add_authorizer(self, authorizer: AccountId) -> ChocolateView {
        ChocolateView { authorizers: self.authorizers.insert(authorizer), ..self }
    }

    /// The count that the next challenge is issued at: one more than the
    /// count of challenges so far, unless that count is the largest there is.
    pub open spec fn next_index(self) -> u32 {
        if self.verifications_count < u32::MAX {
            (self.verifications_count + 1) as u32
        } else {
            u32::MAX
        }
    }

    /// The challenge that `caller` gets: the one under way, or else a new one.
    pub open spec fn challenge_for(self, caller: AccountId) -> Seq<u8> {
        if self.flows.contains_key(caller) {
            self.flows[caller].message
        } else {
            challenge_message(caller, self.next_index())
        }
    }

    /// The state after `caller` has asked for a challenge: unchanged where
    /// one is under way, and else with one challenge more.
    pub open spec fn initiate_verification(self, caller: AccountId) -> ChocolateView {
        if self.flows.contains_key(caller) {
            self
        } else {
            ChocolateView {
                flows: self.flows.insert(
                    caller,
                    VerifyDetailsView {
                        index: self.next_index(),
                        message: challenge_message(caller, self.next_index()),
                    },
                ),
                verifications_count: self.next_index(),
                ..self
            }
        }
    }

    /// How an attempt of `caller` to conclude the verification of `subject`
    /// ends, where `signer` is the account recovered from the signature, if
    /// any was.
    pub open spec fn verification_outcome(
        self,
        caller: AccountId,
        subject: AccountId,
        signer: Option<Seq<u8>>,
    ) -> Result<(), Error> {
        if !self.authorizers.contains(caller) {
            Err(Error::NotAuthorized)
        } else if !self.flows.contains_key(subject) {
            Err(Error::VerificationFlowNotInitiated)
        } else {
            match signer {
                None => Err(Error::InvalidSignature),
                Some(bytes) => if bytes == subject@ {
                    Ok(())
                } else {
                    Err(Error::VerificationFailed)
                },
            }
        }
    }

    /// The state after an attempt to conclude the verification of `subject`:
    /// where it succeeds the challenge is gone and the account is verified.
    pub open spec fn conclude_verification(
        self,
        caller: AccountId,
        subject: AccountId,
        signer: Option<Seq<u8>>,
    ) -> ChocolateView {
        if self.verification_outcome(caller, subject, signer) is Ok {
            ChocolateView {
                flows: self.flows.remove(subject),
                verified_accounts: self.verified_accounts.push(subject),
                ..self
            }
        } else {
            self
        }
    }

    /// The account that `signature` shows to have signed the challenge of
    /// `subject`.
    pub open spec fn signer_of_challenge(self, signature: Seq<u8>, subject: AccountId) -> Option<
        Seq<u8>,
    > {
        recovered_signer(signature, self.flows[subject].message)
    }
}

/// A call of one of the operations that change the registry.
pub enum Call {
    /// `caller` registers a project.
    AddProject { caller: AccountId, meta: Seq<u8> },
    /// `caller` reviews a project.
    AddReview { caller: AccountId, rating: u32, project_id: u32 },
    /// An account is allowed to conclude verifications.
    AddAuthorizer { authorizer: AccountId },
    /// `caller` asks for its challenge.
    InitiateVerification { caller: AccountId },
    /// `caller` hands in a signature over the challenge of an account.
    VerifyIdentity { caller: AccountId, signature: Seq<u8>, address_to_verify: AccountId },
}

impl ChocolateView {
    /// Whether the call can be made in this state: the ids, counts and sums
    /// that it leads to fit in 32 bits.
    pub open spec fn admits(self, call: Call) -> bool {
        match call {
            Call::AddProject { .. } => self.projects.len() < u32::MAX,
            Call::AddReview { caller, rating, project_id } => self.review_fits(
                caller,
                rating,
                project_id,
            ),
            _ => true,
        }
    }

    /// The state after the call.
    pub open spec fn step(self, call: Call) -> ChocolateView {
        match call {
            Call::AddProject { caller, meta } => self.add_project(caller, meta),
            Call::AddReview { caller, rating, project_id } => self.add_review(
                caller,
                rating,
                project_id,
            ),
            Call::AddAuthorizer { authorizer } => self.add_authorizer(authorizer),
            Call::InitiateVerification { caller } => self.initiate_verification(caller),
            Call::VerifyIdentity { caller, signature, address_to_verify } => {
                self.conclude_verification(
                    caller,
                    address_to_verify,
                    self.signer_of_challenge(signature, address_to_verify),
                )
            },
        }
    }

    /// The state after the calls, made one after the other.
    pub open spec fn run(self, calls: Seq<Call>) -> ChocolateView
        decreases calls.len(),
    {
        if calls.len() == 0 {
            self
        } else {
            self.run(calls.drop_last()).step(calls.last())
        }
    }

    /// Whether the calls can be made one after the other, beginning in this
    /// state.
    pub open spec fn admits_all(self, calls: Seq<Call>) -> bool
        decreases calls.len(),
    {
        calls.len() == 0 || (self.admits_all(calls.drop_last()) && self.run(
            calls.drop_last(),
        ).admits(calls.last()))
    }
}

} // verus!
