//! The records that the registry keeps and the errors that it reports.

use crate::account::AccountId;
use crate::sorted::{Order, SortKey};
use vstd::prelude::*;

verus! {

/// What an operation of the registry can fail with.
#[derive(Clone, Copy, Debug, PartialEq, Eq)]
pub enum Error {
    /// A project of that name is registered already.
    ProjectAlreadyExists,
    /// The account has reviewed the project before.
    ReviewAlreadyExists,
    /// No project has the id.
    ProjectDoesNotExist,
    /// The account has left no review on the project.
    ReviewDoesNotExist,
    /// The account has a verification under way.
    VerificationFlowAlreadyInitiated,
    /// The account has no verification under way.
    VerificationFlowNotInitiated,
    /// The caller may not conclude verifications.
    NotAuthorized,
    /// No public key can be recovered from the signature.
    InvalidSignature,
    /// The signature was made by another account than the one to verify.
    VerificationFailed,
}

/// Whether an account stands for a user or for a project.
#[derive(Clone, Copy, Debug, PartialEq, Eq)]
pub enum AccountType {
    /// An account that leaves reviews.
    User,
    /// An account that owns a project.
    Project,
}

/// A review that an account has left on a project.
#[derive(Clone, Copy, Debug, PartialEq, Eq)]
pub struct Review {
    /// The number of reviews that the registry held when this one was added.
    pub id: u32,
    /// The rating given.
    pub rating: u32,
    /// The account that left the review.
    pub owner: AccountId,
}

/// A project and the totals of the reviews left on it.
#[derive(Clone, Debug, PartialEq, Eq)]
pub struct Project {
    /// The number of reviews left on the project.
    pub review_count: u32,
    /// The sum of the ratings of those reviews.
    pub rating_sum: u32,
    /// The account that registered the project.
    pub owner: AccountId,
    /// Metadata that the owner supplied.
    pub meta: Vec<u8>,
}

/// A project with its metadata as a sequence of bytes.
pub struct ProjectView {
    pub review_count: u32,
    pub rating_sum: u32,
    pub owner: AccountId,
    pub meta: Seq<u8>,
}

impl View for Project {
    type V = ProjectView;

    open spec fn view(&self) -> ProjectView {
        ProjectView {
            review_count: self.review_count,
            rating_sum: self.rating_sum,
            owner: self.owner,
            meta: self.meta@,
        }
    }
}

impl Project {
    /// A copy of the project.
    pub fn duplicate(&self) -> (copy: Project)
        ensures
            copy@ == self@,
    {
        Project {
            review_count: self.review_count,
            rating_sum: self.rating_sum,
            owner: self.owner,
            meta: self.meta.clone(),
        }
    }
}

/// The challenge of a verification that is under way.
#[derive(Clone, Debug, PartialEq, Eq)]
pub struct VerifyDetails {
    /// The count of verifications at the time the challenge was issued.
    pub index: u32,
    /// The bytes that the holder of the account has to sign.
    pub message: Vec<u8>,
}

/// A challenge with its message as a sequence of bytes.
pub struct VerifyDetailsView {
    pub index: u32,
    pub message: Seq<u8>,
}

impl View for VerifyDetails {
    type V = VerifyDetailsView;

    open spec fn view(&self) -> VerifyDetailsView {
        VerifyDetailsView { index: self.index, message: self.message@ }
    }
}

impl VerifyDetails {
    /// A copy of the challenge.
    pub fn duplicate(&self) -> (copy: VerifyDetails)
        ensures
            copy@ == self@,
    {
        VerifyDetails { index: self.index, message: self.message.clone() }
    }
}

/// What identifies a review: the account that left it and the project that
/// it is about. Keys are ordered by owner first, then by project.
#[derive(Clone, Copy, Debug, PartialEq, Eq)]
pub struct ReviewKey {
    pub owner: AccountId,
    pub project_id: u32,
}

impl SortKey for ReviewKey {
    open spec fn precedes(&self, other: &Self) -> bool {
        self.owner.precedes(&other.owner) || (self.owner == other.owner && self.project_id
            < other.project_id)
    }

    proof fn lemma_strict_total_order(a: &Self, b: &Self, c: &Self) {
        AccountId::lemma_strict_total_order(&a.owner, &b.owner, &c.owner);
    }

    fn compare(&self, other: &Self) -> (o: Order) {
        match self.owner.compare(&other.owner) {
            Order::Before => Order::Before,
            Order::After => Order::After,
            Order::Same => {
                if self.project_id < other.project_id {
                    Order::Before
                } else if self.project_id > other.project_id {
                    Order::After
                } else {
                    Order::Same
                }
            },
        }
    }
}

} // verus!
