use chocolate::account::AccountId;
use chocolate::records::{Error, Project, Review, VerifyDetails};
use chocolate::registry::Chocolate;

fn alice() -> AccountId {
    AccountId::from([1u8; 32])
}

fn bob() -> AccountId {
    AccountId::from([2u8; 32])
}

#[test]
fn new_works() {
    let chocolate = Chocolate::new();
    assert_eq!(chocolate.get_project(0), Err(Error::ProjectDoesNotExist));
}

#[test]
fn it_works() {
    let mut chocolate = Chocolate::new();
    assert_eq!(chocolate.get_project(0), Err(Error::ProjectDoesNotExist));
    chocolate
        .add_project(alice(), Default::default())
        .expect("Should add project 0");
    assert_eq!(
        chocolate.get_project(0),
        Ok(Project {
            owner: alice(),
            meta: Default::default(),
            rating_sum: Default::default(),
            review_count: Default::default(),
        })
    );
    assert_eq!(chocolate.project_count(), 1);
}

#[test]
fn it_works_review() {
    let mut chocolate = Chocolate::new();
    assert_eq!(
        chocolate.get_review(0, alice()),
        Err(Error::ReviewDoesNotExist)
    );
    chocolate
        .add_project(alice(), Default::default())
        .expect("Should add test project 0");
    chocolate
        .add_review(alice(), 10, 0)
        .expect("Adding review should succeed");
    let maybe_key = chocolate
        .get_reviewers_list(0)
        .iter()
        .position(|s| s.eq(&alice()));

    assert_eq!(maybe_key, Some(0)); // first key array.
    assert_eq!(
        chocolate.get_review(0, alice()),
        Ok(Review {
            owner: alice(),
            rating: 10,
            id: maybe_key.unwrap().try_into().expect("Should fit"),
        })
    );
}

#[test]
fn initiate_verfication_flow_works() {
    let mut flipper = Chocolate::new();
    let message = flipper.initiate_verfication_flow(alice());

    assert!(message.is_ok());

    assert_eq!(
        flipper.verification_details(alice()),
        Some(VerifyDetails {
            index: 1,
            message: message.unwrap(),
        })
    );
}

#[test]
fn project_then_review_then_refused_review() {
    let mut chocolate = Chocolate::new();
    assert_eq!(chocolate.add_project(alice(), Vec::new()), Ok(0));
    assert_eq!(
        chocolate.get_project(0),
        Ok(Project {
            review_count: 0,
            rating_sum: 0,
            owner: alice(),
            meta: vec![],
        })
    );
    assert!(chocolate.can_add_review(bob(), 10, 0));
    assert_eq!(chocolate.add_review(bob(), 10, 0), Ok(()));
    let project = chocolate.get_project(0).unwrap();
    assert_eq!(project.rating_sum, 10);
    assert_eq!(project.review_count, 1);
    assert!(chocolate.can_add_review(bob(), 5, 0));
    assert_eq!(
        chocolate.add_review(bob(), 5, 0),
        Err(Error::ReviewAlreadyExists)
    );
    let project = chocolate.get_project(0).unwrap();
    assert_eq!(project.rating_sum, 10);
    assert_eq!(project.review_count, 1);
    assert_eq!(
        chocolate.get_review(0, bob()),
        Ok(Review {
            id: 0,
            rating: 10,
            owner: bob(),
        })
    );
}

#[test]
fn project_ids_count_up_from_zero() {
    let mut chocolate = Chocolate::new();
    assert_eq!(chocolate.project_count(), 0);
    assert_eq!(chocolate.add_project(alice(), vec![1]), Ok(0));
    assert_eq!(chocolate.add_review(bob(), 3, 0), Ok(()));
    assert_eq!(chocolate.add_authorizer(bob()), Ok(()));
    assert_eq!(chocolate.add_project(bob(), vec![2, 2]), Ok(1));
    assert!(chocolate.initiate_verfication_flow(alice()).is_ok());
    assert_eq!(chocolate.add_project(alice(), vec![3, 3, 3]), Ok(2));
    assert_eq!(chocolate.project_count(), 3);
    assert!(chocolate.can_add_project());
    assert_eq!(chocolate.get_project(3), Err(Error::ProjectDoesNotExist));
    assert_eq!(chocolate.get_project(1).unwrap().meta, vec![2, 2]);
    assert_eq!(chocolate.get_project(1).unwrap().owner, bob());
}

#[test]
fn projects_are_listed_in_the_order_of_their_ids() {
    let mut chocolate = Chocolate::new();
    assert_eq!(chocolate.get_projects_list(), vec![]);
    chocolate.add_project(bob(), vec![7]).unwrap();
    chocolate.add_project(alice(), vec![8, 9]).unwrap();
    chocolate.add_review(alice(), 4, 0).unwrap();
    assert_eq!(
        chocolate.get_projects_list(),
        vec![
            (
                bob(),
                0,
                Project {
                    review_count: 1,
                    rating_sum: 4,
                    owner: bob(),
                    meta: vec![7],
                }
            ),
            (
                alice(),
                1,
                Project {
                    review_count: 0,
                    rating_sum: 0,
                    owner: alice(),
                    meta: vec![8, 9],
                }
            ),
        ]
    );
}

#[test]
fn review_of_a_missing_project_is_refused() {
    let mut chocolate = Chocolate::new();
    assert_eq!(
        chocolate.add_review(alice(), 5, 0),
        Err(Error::ProjectDoesNotExist)
    );
    chocolate.add_project(alice(), vec![]).unwrap();
    assert_eq!(
        chocolate.add_review(alice(), 5, 1),
        Err(Error::ProjectDoesNotExist)
    );
    assert_eq!(chocolate.get_reviews_list(1), vec![]);
    assert_eq!(chocolate.get_project(0).unwrap().review_count, 0);
}
