use tp_updater::error::StoreError;
use tp_updater::protocol::{
    add_outcome, add_status, list_outcome, list_status, remove_outcome, remove_status,
};

#[test]
fn add_is_answered_with_201_or_500() {
    assert_eq!(add_status(&Ok(())), 201);
    assert_eq!(add_status(&Err(StoreError::Unavailable)), 500);
    assert_eq!(add_status(&Err(StoreError::InvalidIndicator)), 500);
}

#[test]
fn remove_is_answered_with_200_404_or_500() {
    assert_eq!(remove_status(&Ok(())), 200);
    assert_eq!(remove_status(&Err(StoreError::NotFound)), 404);
    assert_eq!(remove_status(&Err(StoreError::Unavailable)), 500);
    assert_eq!(remove_status(&Err(StoreError::Malformed)), 500);
}

#[test]
fn list_is_answered_with_200_or_500() {
    assert_eq!(list_status(&Ok(vec!["Income".to_string()])), 200);
    assert_eq!(list_status(&Ok(Vec::new())), 200);
    assert_eq!(list_status(&Err(StoreError::Unavailable)), 500);
}

#[test]
fn add_outcome_reads_the_status() {
    assert_eq!(add_outcome(201), Ok(()));
    assert_eq!(add_outcome(500), Err(StoreError::Unavailable));
    assert_eq!(add_outcome(200), Err(StoreError::Malformed));
    assert_eq!(add_outcome(404), Err(StoreError::Malformed));
    assert_eq!(add_outcome(0), Err(StoreError::Malformed));
}

#[test]
fn remove_outcome_reads_the_status() {
    assert_eq!(remove_outcome(200), Ok(()));
    assert_eq!(remove_outcome(404), Err(StoreError::NotFound));
    assert_eq!(remove_outcome(500), Err(StoreError::Unavailable));
    assert_eq!(remove_outcome(201), Err(StoreError::Malformed));
    assert_eq!(remove_outcome(302), Err(StoreError::Malformed));
}

#[test]
fn list_outcome_reads_status_and_body() {
    let names = vec!["Air Quality".to_string(), "Income".to_string()];
    assert_eq!(list_outcome(200, Some(names.clone())), Ok(names.clone()));
    assert_eq!(list_outcome(200, None), Err(StoreError::Malformed));
    assert_eq!(list_outcome(500, Some(names.clone())), Err(StoreError::Unavailable));
    assert_eq!(list_outcome(500, None), Err(StoreError::Unavailable));
    assert_eq!(list_outcome(404, Some(names)), Err(StoreError::Malformed));
}

#[test]
fn outcome_survives_the_status() {
    assert_eq!(add_outcome(add_status(&Ok(()))), Ok(()));
    assert_eq!(remove_outcome(remove_status(&Ok(()))), Ok(()));
    assert_eq!(
        remove_outcome(remove_status(&Err(StoreError::NotFound))),
        Err(StoreError::NotFound)
    );
    assert_eq!(
        remove_outcome(remove_status(&Err(StoreError::Unavailable))),
        Err(StoreError::Unavailable)
    );
}

#[test]
fn errors_have_their_messages() {
    assert_eq!(StoreError::NotSelected.message(""), "No indicator selected");
    assert_eq!(
        StoreError::NotFound.message("Congestion"),
        "Cannot remove Congestion: not a recently updated indicator."
    );
    assert_eq!(
        StoreError::Unavailable.message("Congestion"),
        "Error with API, please try again later."
    );
    assert_eq!(
        StoreError::Malformed.message("Congestion"),
        StoreError::Unavailable.message("Congestion")
    );
    assert_eq!(StoreError::InvalidIndicator.message("Nope"), "Not an indicator of the catalog");
}

#[test]
fn malformed_answer_is_logged_apart() {
    assert_eq!(StoreError::Malformed.log_line("Income"), "Undefined response from API");
    assert_eq!(
        StoreError::Unavailable.log_line("Income"),
        "Error with API, please try again later."
    );
    assert_ne!(
        StoreError::Malformed.log_line("Income"),
        StoreError::Unavailable.log_line("Income")
    );
    assert_eq!(
        StoreError::NotFound.log_line("Income"),
        "Cannot remove Income: not a recently updated indicator."
    );
}
