use chocolate::account::AccountId;
use chocolate::records::{Error, Project, Review, ReviewKey};
use chocolate::registry::Chocolate;
use chocolate::sorted::{search, Order, SortKey};

fn account(first: u8, last: u8) -> AccountId {
    let mut bytes = [0u8; 32];
    bytes[0] = first;
    bytes[31] = last;
    AccountId::from(bytes)
}

fn three_reviewers() -> Chocolate {
    let mut chocolate = Chocolate::new();
    chocolate.add_project(account(9, 9), vec![]).unwrap();
    chocolate.add_project(account(9, 9), vec![1]).unwrap();
    // Added in an order that is not the order of the keys.
    chocolate.add_review(account(5, 0), 3, 0).unwrap();
    chocolate.add_review(account(1, 0), 4, 1).unwrap();
    chocolate.add_review(account(1, 0), 5, 0).unwrap();
    chocolate.add_review(account(3, 0), 1, 0).unwrap();
    chocolate
}

#[test]
fn totals_are_those_of_the_reviews() {
    let chocolate = three_reviewers();
    let first = chocolate.get_project(0).unwrap();
    assert_eq!(first.review_count, 3);
    assert_eq!(first.rating_sum, 9);
    let second = chocolate.get_project(1).unwrap();
    assert_eq!(second.review_count, 1);
    assert_eq!(second.rating_sum, 4);
    let reviews = chocolate.get_reviews_list(0);
    assert_eq!(reviews.len() as u32, first.review_count);
    assert_eq!(
        reviews.iter().map(|review| review.rating).sum::<u32>(),
        first.rating_sum
    );
}

#[test]
fn reviews_are_listed_in_the_order_of_their_keys() {
    let chocolate = three_reviewers();
    assert_eq!(
        chocolate.get_reviews_list(0),
        vec![
            Review {
                id: 2,
                rating: 5,
                owner: account(1, 0),
            },
            Review {
                id: 3,
                rating: 1,
                owner: account(3, 0),
            },
            Review {
                id: 0,
                rating: 3,
                owner: account(5, 0),
            },
        ]
    );
    assert_eq!(
        chocolate.get_reviewers_list(0),
        vec![account(1, 0), account(3, 0), account(5, 0)]
    );
    assert_eq!(chocolate.get_reviewers_list(1), vec![account(1, 0)]);
    assert_eq!(chocolate.get_reviewers_list(2), vec![]);
}

#[test]
fn a_review_is_found_after_later_reviews_sort_before_it() {
    let chocolate = three_reviewers();
    assert_eq!(
        chocolate.get_review(0, account(5, 0)),
        Ok(Review {
            id: 0,
            rating: 3,
            owner: account(5, 0),
        })
    );
    assert_eq!(
        chocolate.get_review(1, account(1, 0)),
        Ok(Review {
            id: 1,
            rating: 4,
            owner: account(1, 0),
        })
    );
    assert_eq!(
        chocolate.get_review(1, account(5, 0)),
        Err(Error::ReviewDoesNotExist)
    );
    assert_eq!(
        chocolate.get_review(0, account(4, 0)),
        Err(Error::ReviewDoesNotExist)
    );
}

#[test]
fn second_review_fails_after_other_calls() {
    let mut chocolate = three_reviewers();
    chocolate.add_project(account(1, 0), vec![]).unwrap();
    chocolate.add_review(account(2, 0), 2, 0).unwrap();
    chocolate.add_authorizer(account(1, 0)).unwrap();
    chocolate.initiate_verfication_flow(account(5, 0)).unwrap();
    assert_eq!(
        chocolate.add_review(account(5, 0), 1, 0),
        Err(Error::ReviewAlreadyExists)
    );
    assert_eq!(
        chocolate.add_review(account(5, 0), 3, 0),
        Err(Error::ReviewAlreadyExists)
    );
    let project = chocolate.get_project(0).unwrap();
    assert_eq!(project.review_count, 4);
    assert_eq!(project.rating_sum, 11);
    assert_eq!(chocolate.get_reviews_list(0).len(), 4);
}

#[test]
fn projects_reviewed_by_an_account() {
    let chocolate = three_reviewers();
    assert_eq!(
        chocolate.get_projects_reviewed_by_user(account(1, 0)),
        vec![
            (
                0,
                Project {
                    review_count: 3,
                    rating_sum: 9,
                    owner: account(9, 9),
                    meta: vec![],
                }
            ),
            (
                1,
                Project {
                    review_count: 1,
                    rating_sum: 4,
                    owner: account(9, 9),
                    meta: vec![1],
                }
            ),
        ]
    );
    assert_eq!(
        chocolate.get_projects_reviewed_by_user(account(9, 9)),
        vec![]
    );
}

#[test]
fn a_sum_that_does_not_fit_is_told_beforehand() {
    let mut chocolate = Chocolate::new();
    chocolate.add_project(account(1, 1), vec![]).unwrap();
    assert!(chocolate.can_add_review(account(1, 0), u32::MAX, 0));
    chocolate.add_review(account(1, 0), u32::MAX - 1, 0).unwrap();
    assert!(chocolate.can_add_review(account(2, 0), 1, 0));
    assert!(!chocolate.can_add_review(account(2, 0), 2, 0));
    // An attempt that is refused anyway adds nothing.
    assert!(chocolate.can_add_review(account(1, 0), 2, 0));
    assert!(chocolate.can_add_review(account(2, 0), 2, 1));
    chocolate.add_review(account(2, 0), 1, 0).unwrap();
    assert_eq!(chocolate.get_project(0).unwrap().rating_sum, u32::MAX);
    assert!(chocolate.can_add_review(account(3, 0), 0, 0));
    assert!(!chocolate.can_add_review(account(3, 0), 1, 0));
}

#[test]
fn accounts_are_ordered_byte_by_byte() {
    assert_eq!(account(1, 0).compare(&account(1, 0)), Order::Same);
    assert_eq!(account(1, 0).compare(&account(2, 0)), Order::Before);
    assert_eq!(account(2, 0).compare(&account(1, 255)), Order::After);
    assert_eq!(account(1, 7).compare(&account(1, 8)), Order::Before);
    assert_eq!(account(0, 200).compare(&account(0, 100)), Order::After);
    assert!(account(1, 7) < account(1, 8));
}

#[test]
fn keys_are_ordered_by_owner_then_project() {
    let key = |first: u8, project_id: u32| ReviewKey {
        owner: account(first, 0),
        project_id,
    };
    assert_eq!(key(1, 5).compare(&key(2, 0)), Order::Before);
    assert_eq!(key(2, 0).compare(&key(1, 5)), Order::After);
    assert_eq!(key(1, 5).compare(&key(1, 6)), Order::Before);
    assert_eq!(key(1, 6).compare(&key(1, 5)), Order::After);
    assert_eq!(key(1, 5).compare(&key(1, 5)), Order::Same);
}

#[test]
fn search_finds_a_key_or_its_place() {
    let keys = vec![account(1, 0), account(3, 0), account(5, 0), account(7, 0)];
    assert_eq!(search(&keys, &account(1, 0)), Ok(0));
    assert_eq!(search(&keys, &account(5, 0)), Ok(2));
    assert_eq!(search(&keys, &account(7, 0)), Ok(3));
    assert_eq!(search(&keys, &account(0, 0)), Err(0));
    assert_eq!(search(&keys, &account(4, 0)), Err(2));
    assert_eq!(search(&keys, &account(8, 0)), Err(4));
    assert_eq!(search(&Vec::new(), &account(8, 0)), Err(0));
}
