//! The registry: projects, reviews, authorizers and verifications.

use crate::account::AccountId;
use crate::challenge::build_challenge;
use crate::laws::{lemma_add_project_keeps_valid, lemma_add_review_keeps_valid};
use crate::ledger::{
    lemma_reviews_of_len, listing, listing_view, projects_reviewed_by, reviewed_view, reviewers,
    reviews_of,
};
use crate::records::{Error, Project, Review, ReviewKey, VerifyDetails};
use crate::sorted::{
    lemma_contains_at_lower_bound, lemma_insert_keeps_sorted, lemma_insert_to_set, search,
    strictly_sorted, Order, SortKey,
};
use crate::sorted_map::SortedMap;
use crate::view::ChocolateView;
use vstd::prelude::*;

verus! {

/// The registry of projects and reviews, with the accounts whose
/// verification is under way or done.
pub struct Chocolate {
    /// The projects, each at the index that is its id.
    projects: Vec<Project>,
    /// The reviews by their keys.
    ledger: SortedMap<ReviewKey, Review>,
    /// The challenges of the verifications under way, by account.
    flows: SortedMap<AccountId, VerifyDetails>,
    /// How many challenges have been issued.
    verifications_count: u32,
    /// The accounts that may conclude verifications, strictly sorted.
    authorizers: Vec<AccountId>,
    /// The accounts whose verification is done, in the order in which it was
    /// concluded.
    verified_accounts: Vec<AccountId>,
}

impl View for Chocolate {
    type V = ChocolateView;

    closed spec fn view(&self) -> ChocolateView {
        ChocolateView {
            projects: self.projects@.map_values(|project: Project| project@),
            review_keys: self.ledger.keys(),
            reviews: self.ledger.values(),
            flows: self.flows.entries().map_values(|details: VerifyDetails| details@),
            verifications_count: self.verifications_count,
            authorizers: self.authorizers@.to_set(),
            verified_accounts: self.verified_accounts@,
        }
    }
}

impl Chocolate {
    /// What holds of the vectors that the registry is kept in.
    pub closed spec fn inv(&self) -> bool {
        &&& self.ledger.wf()
        &&& self.flows.wf()
        &&& strictly_sorted(self.authorizers@)
    }

    /// The registry is in a state that the operations can reach.
    pub open spec fn wf(&self) -> bool {
        self@.valid() && self.inv()
    }

    /// A registry in which nothing has happened yet.
    pub fn new() -> (registry: Chocolate)
        ensures
            registry.wf(),
            registry@ == ChocolateView::initial(),
    {
        let registry = Chocolate {
            projects: Vec::new(),
            ledger: SortedMap::new(),
            flows: SortedMap::new(),
            verifications_count: 0,
            authorizers: Vec::new(),
            verified_accounts: Vec::new(),
        };
        proof {
            let initial = ChocolateView::initial();
            assert(registry@.projects =~= initial.projects);
            assert(registry@.flows =~= initial.flows);
            assert(registry@.authorizers =~= initial.authorizers);
        }
        registry
    }

    /// The number of projects, which is the id of the next one.
    pub fn project_count(&self) -> (count: u32)
        requires
            self.wf(),
        ensures
            count == self@.projects.len(),
    {
        self.projects.len() as u32
    }

    /// The project with the given id.
    pub fn get_project(&self, id: u32) -> (r: Result<Project, Error>)
        requires
            self.wf(),
        ensures
            match r {
                Ok(project) => id < self@.projects.len() && project@ == self@.projects[id as int],
                Err(error) => id >= self@.projects.len() && error == Error::ProjectDoesNotExist,
            },
    {
        if (id as usize) < self.projects.len() {
            Ok(self.projects[id as usize].duplicate())
        } else {
            Err(Error::ProjectDoesNotExist)
        }
    }

    /// Whether one more project can be registered: its id has to fit in 32
    /// bits.
    pub fn can_add_project(&self) -> (fits: bool)
        requires
            self.wf(),
        ensures
            fits == (self@.projects.len() < u32::MAX),
    {
        self.projects.len() < u32::MAX as usize
    }

    /// Registers a project of `caller` with the given metadata and returns
    /// its id: the number of projects registered before.
    pub fn add_project(&mut self, caller: AccountId, meta: Vec<u8>) -> (r: Result<u32, Error>)
        requires
            old(self).wf(),
            old(self)@.projects.len() < u32::MAX,
        ensures
            final(self).wf(),
            r == Ok::<u32, Error>(old(self)@.projects.len() as u32),
            final(self)@ == old(self)@.add_project(caller, meta@),
    {
        let id = self.projects.len() as u32;
        let ghost before = self@;
        let project = Project { review_count: 0, rating_sum: 0, owner: caller, meta };
        self.projects.push(project);
        proof {
            let after = before.add_project(caller, meta@);
            assert(self@.projects =~= after.projects);
            lemma_add_project_keeps_valid(before, caller, meta@);
        }
        Ok(id)
    }

    /// Whether a review of `caller` on a project, if it is accepted, leaves
    /// the counts and sums within 32 bits.
    pub fn can_add_review(&self, caller: AccountId, rating: u32, project_id: u32) -> (fits: bool)
        requires
            self.wf(),
        ensures
            fits == self@.review_fits(caller, rating, project_id),
    {
        if (project_id as usize) >= self.projects.len() {
            return true;
        }
        let key = ReviewKey { owner: caller, project_id };
        match self.ledger.find(&key) {
            Ok(_) => true,
            Err(_) => {
                self.ledger.len() < u32::MAX as usize && rating <= u32::MAX
                    - self.projects[project_id as usize].rating_sum
            },
        }
    }

    /// Records the review of `caller` on a project, unless the project does
    /// not exist or `caller` has reviewed it before.
    pub fn add_review(&mut self, caller: AccountId, rating: u32, project_id: u32) -> (r: Result<
        (),
        Error,
    >)
        requires
            old(self).wf(),
            old(self)@.review_fits(caller, rating, project_id),
        ensures
            final(self).wf(),
            r == old(self)@.review_outcome(caller, project_id),
            final(self)@ == old(self)@.add_review(caller, rating, project_id),
    {
        if (project_id as usize) >= self.projects.len() {
            return Err(Error::ProjectDoesNotExist);
        }
        let key = ReviewKey { owner: caller, project_id };
        let ghost before = self@;
        match self.ledger.find(&key) {
            Ok(_) => Err(Error::ReviewAlreadyExists),
            Err(at) => {
                let review = Review { id: self.ledger.len() as u32, rating, owner: caller };
                proof {
                    lemma_reviews_of_len(before.review_keys, before.reviews, project_id);
                }
                self.ledger.insert_at(at, key, review);
                let project = &mut self.projects[project_id as usize];
                project.review_count = project.review_count + 1;
                project.rating_sum = project.rating_sum + rating;
                proof {
                    let after = before.add_review(caller, rating, project_id);
                    assert(self@.projects =~= after.projects);
                    lemma_add_review_keeps_valid(before, caller, rating, project_id);
                }
                Ok(())
            },
        }
    }

    /// The review that `user` has left on a project.
    pub fn get_review(&self, project_id: u32, user: AccountId) -> (r: Result<Review, Error>)
        requires
            self.wf(),
        ensures
            r == self@.review(project_id, user),
    {
        let key = ReviewKey { owner: user, project_id };
        match self.ledger.find(&key) {
            Ok(at) => Ok(*self.ledger.value_at(at)),
            Err(_) => Err(Error::ReviewDoesNotExist),
        }
    }

    /// The projects with their owners and ids, in the order of the ids.
    pub fn get_projects_list(&self) -> (list: Vec<(AccountId, u32, Project)>)
        requires
            self.wf(),
        ensures
            listing_view(list@) == listing(self@.projects),
    {
        let mut list: Vec<(AccountId, u32, Project)> = Vec::new();
        let mut id: usize = 0;
        while id < self.projects.len()
            invariant
                self.wf(),
                id <= self.projects.len(),
                list.len() == id,
                forall|i: int|
                    0 <= i < id ==> (#[trigger] list[i]).0 == self@.projects[i].owner && list[i].1
                        == i && list[i].2@ == self@.projects[i],
            decreases self.projects.len() - id,
        {
            let project = self.projects[id].duplicate();
            list.push((project.owner, id as u32, project));
            id += 1;
        }
        list
    }

    /// The reviews left on a project, in the order of their keys.
    pub fn get_reviews_list(&self, project_id: u32) -> (list: Vec<Review>)
        requires
            self.wf(),
        ensures
            list@ == reviews_of(self@.review_keys, self@.reviews, project_id),
    {
        let mut list: Vec<Review> = Vec::new();
        let n = self.ledger.len();
        let mut i: usize = 0;
        while i < n
            invariant
                self.wf(),
                n == self@.review_keys.len(),
                i <= n,
                list@ == reviews_of(
                    self@.review_keys.take(i as int),
                    self@.reviews.take(i as int),
                    project_id,
                ),
            decreases n - i,
        {
            proof {
                let keys = self@.review_keys;
                let reviews = self@.reviews;
                assert(keys.take(i + 1).drop_last() =~= keys.take(i as int));
                assert(reviews.take(i + 1).drop_last() =~= reviews.take(i as int));
            }
            if self.ledger.key_at(i).project_id == project_id {
                list.push(*self.ledger.value_at(i));
            }
            i += 1;
        }
        proof {
            assert(self@.review_keys.take(n as int) =~= self@.review_keys);
            assert(self@.reviews.take(n as int) =~= self@.reviews);
        }
        list
    }

    /// The accounts that have reviewed a project, in the order of the keys.
    pub fn get_reviewers_list(&self, project_id: u32) -> (list: Vec<AccountId>)
        requires
            self.wf(),
        ensures
            list@ == reviewers(reviews_of(self@.review_keys, self@.reviews, project_id)),
    {
        let mut list: Vec<AccountId> = Vec::new();
        let n = self.ledger.len();
        let mut i: usize = 0;
        while i < n
            invariant
                self.wf(),
                n == self@.review_keys.len(),
                i <= n,
                list@ == reviewers(
                    reviews_of(
                        self@.review_keys.take(i as int),
                        self@.reviews.take(i as int),
                        project_id,
                    ),
                ),
            decreases n - i,
        {
            let ghost front = reviews_of(
                self@.review_keys.take(i as int),
                self@.reviews.take(i as int),
                project_id,
            );
            proof {
                let keys = self@.review_keys;
                let reviews = self@.reviews;
                assert(keys.take(i + 1).drop_last() =~= keys.take(i as int));
                assert(reviews.take(i + 1).drop_last() =~= reviews.take(i as int));
                assert(reviewers(front.push(reviews[i as int])) =~= reviewers(front).push(
                    reviews[i as int].owner,
                ));
            }
            let key = self.ledger.key_at(i);
            if key.project_id == project_id {
                list.push(key.owner);
            }
            i += 1;
        }
        proof {
            assert(self@.review_keys.take(n as int) =~= self@.review_keys);
            assert(self@.reviews.take(n as int) =~= self@.reviews);
        }
        list
    }

    /// The projects that `user` has reviewed, each with its id, in the order
    /// of the keys.
    pub fn get_projects_reviewed_by_user(&self, user: AccountId) -> (list: Vec<(u32, Project)>)
        requires
            self.wf(),
        ensures
            reviewed_view(list@) == projects_reviewed_by(self@.review_keys, self@.projects, user),
    {
        let mut list: Vec<(u32, Project)> = Vec::new();
        let n = self.ledger.len();
        let mut i: usize = 0;
        while i < n
            invariant
                self.wf(),
                n == self@.review_keys.len(),
                i <= n,
                reviewed_view(list@) == projects_reviewed_by(
                    self@.review_keys.take(i as int),
                    self@.projects,
                    user,
                ),
            decreases n - i,
        {
            let ghost before = reviewed_view(list@);
            let key = self.ledger.key_at(i);
            proof {
                let keys = self@.review_keys;
                assert(keys.take(i + 1).drop_last() =~= keys.take(i as int));
            }
            if let Order::Same = key.owner.compare(&user) {
                let project = self.projects[key.project_id as usize].duplicate();
                list.push((key.project_id, project));
                assert(reviewed_view(list@) =~= before.push(
                    (key.project_id, self@.projects[key.project_id as int]),
                ));
            }
            i += 1;
        }
        proof {
            assert(self@.review_keys.take(n as int) =~= self@.review_keys);
        }
        list
    }

    /// Whether an account may conclude verifications.
    pub fn is_authorizer(&self, account: AccountId) -> (authorized: bool)
        requires
            self.wf(),
        ensures
            authorized == self@.authorizers.contains(account),
    {
        match search(&self.authorizers, &account) {
            Ok(_) => true,
            Err(_) => false,
        }
    }

    /// Allows an account to conclude verifications. Nothing changes where it
    /// is allowed to already.
    pub fn add_authorizer(&mut self, authorizer: AccountId) -> (r: Result<(), Error>)
        requires
            old(self).wf(),
        ensures
            final(self).wf(),
            r == Ok::<(), Error>(()),
            final(self)@ == old(self)@.add_authorizer(authorizer),
    {
        let ghost before = self@;
        match search(&self.authorizers, &authorizer) {
            Ok(_) => {
                assert(before.authorizers.insert(authorizer) =~= before.authorizers);
            },
            Err(at) => {
                proof {
                    lemma_insert_keeps_sorted(self.authorizers@, authorizer);
                    lemma_insert_to_set(self.authorizers@, at as int, authorizer);
                }
                self.authorizers.insert(at, authorizer);
            },
        }
        assert(self@ == before.add_authorizer(authorizer));
        Ok(())
    }

    /// How many challenges have been issued.
    pub fn verifications_count(&self) -> (count: u32)
        requires
            self.wf(),
        ensures
            count == self@.verifications_count,
    {
        self.verifications_count
    }

    /// The challenge of the verification of `account` that is under way, if
    /// one is.
    pub fn verification_details(&self, account: AccountId) -> (details: Option<VerifyDetails>)
        requires
            self.wf(),
        ensures
            match details {
                Some(found) => self@.flows.contains_key(account) && found@ == self@.flows[account],
                None => !self@.flows.contains_key(account),
            },
    {
        match self.flows.find(&account) {
            Ok(at) => Some(self.flows.value_at(at).duplicate()),
            Err(_) => None,
        }
    }

    /// The accounts whose verification is done, in the order in which it was
    /// concluded.
    pub fn verified_accounts(&self) -> (accounts: Vec<AccountId>)
        requires
            self.wf(),
        ensures
            accounts@ == self@.verified_accounts,
    {
        self.verified_accounts.clone()
    }

    /// Returns the challenge that `caller` has to sign: the one of the
    /// verification under way, or a new one, with which a verification
    /// begins.
    pub fn initiate_verfication_flow(&mut self, caller: AccountId) -> (r: Result<Vec<u8>, Error>)
        requires
            old(self).wf(),
        ensures
            final(self).wf(),
            match r {
                Ok(message) => message@ == old(self)@.challenge_for(caller),
                Err(_) => false,
            },
            final(self)@ == old(self)@.initiate_verification(caller),
    {
        let ghost before = self@;
        match self.flows.find(&caller) {
            Ok(at) => Ok(self.flows.value_at(at).message.clone()),
            Err(at) => {
                let index = self.verifications_count.saturating_add(1);
                let message = build_challenge(&caller, index);
                let issued = message.clone();
                self.verifications_count = index;
                self.flows.insert_at(at, caller, VerifyDetails { index, message });
                proof {
                    let after = before.initiate_verification(caller);
                    assert(self@.flows =~= after.flows);
                }
                Ok(issued)
            },
        }
    }

    /// Concludes the verification of `address_to_verify` on behalf of
    /// `caller`, where `signer` is the account that the signature over the
    /// challenge was found to come from, if any was. It succeeds where
    /// `caller` may conclude verifications, one is under way for the account,
    /// and the signer is that account; the challenge is then gone and the
    /// account is verified. For every other outcome nothing changes.
    pub fn conclude_verification(
        &mut self,
        caller: AccountId,
        address_to_verify: AccountId,
        signer: Option<AccountId>,
    ) -> (r: Result<(), Error>)
        requires
            old(self).wf(),
        ensures
            final(self).wf(),
            r == old(self)@.verification_outcome(caller, address_to_verify, signer_bytes(signer)),
            final(self)@ == old(self)@.conclude_verification(
                caller,
                address_to_verify,
                signer_bytes(signer),
            ),
    {
        let ghost before = self@;
        if !self.is_authorizer(caller) {
            return Err(Error::NotAuthorized);
        }
        let at = match self.flows.find(&address_to_verify) {
            Ok(at) => at,
            Err(_) => {
                return Err(Error::VerificationFlowNotInitiated);
            },
        };
        let account = match signer {
            Some(account) => account,
            None => {
                return Err(Error::InvalidSignature);
            },
        };
        match account.compare(&address_to_verify) {
            Order::Same => {
                self.flows.remove_at(at);
                self.verified_accounts.push(address_to_verify);
                proof {
                    let after = before.conclude_verification(
                        caller,
                        address_to_verify,
                        signer_bytes(signer),
                    );
                    assert(self@.flows =~= after.flows);
                }
                Ok(())
            },
            _ => Err(Error::VerificationFailed),
        }
    }

    /// Concludes the verification of `address_to_verify` on behalf of
    /// `caller` with a signature over the challenge of that account.
    pub fn verify_identity_response(
        &mut self,
        caller: AccountId,
        signature: [u8; 65],
        address_to_verify: AccountId,
    ) -> (r: Result<(), Error>)
        requires
            old(self).wf(),
        ensures
            final(self).wf(),
            !old(self)@.authorizers.contains(caller) ==> r == Err::<(), Error>(
                Error::NotAuthorized,
            ),
            r == old(self)@.verification_outcome(
                caller,
                address_to_verify,
                old(self)@.signer_of_challenge(signature@, address_to_verify),
            ),
            final(self)@ == old(self)@.conclude_verification(
                caller,
                address_to_verify,
                old(self)@.signer_of_challenge(signature@, address_to_verify),
            ),
    {
        if !self.is_authorizer(caller) {
            return Err(Error::NotAuthorized);
        }
        let message = match self.flows.find(&address_to_verify) {
            Ok(at) => self.flows.value_at(at).message.clone(),
            Err(_) => {
                return Err(Error::VerificationFlowNotInitiated);
            },
        };
        let signer = Chocolate::recover_signer(&signature, message);
        self.conclude_verification(caller, address_to_verify, signer)
    }
}

/// The bytes of the account that a signature was found to come from.
pub open spec fn signer_bytes(signer: Option<AccountId>) -> Option<Seq<u8>> {
    match signer {
        Some(account) => Some(account@),
        None => None,
    }
}

} // verus!
