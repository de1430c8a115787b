use tp_updater::calendar::Day;
use tp_updater::catalog::Catalog;
use tp_updater::client::{add_reply, refresh_reply, remove_reply, rendered, ClientState, Command, Msg};
use tp_updater::error::StoreError;
use tp_updater::protocol::{add_outcome, add_status, list_outcome, remove_outcome, remove_status};
use tp_updater::store::{add_indicator, get_indicators, remove_indicator, OverlayStore};

fn catalog() -> Catalog {
    Catalog::new(vec!["Air Quality".to_string(), "Congestion".to_string()])
}

fn client() -> ClientState {
    ClientState::new(catalog())
}

fn today() -> Day {
    Day::from_number(738_000).unwrap()
}

fn select(state: &mut ClientState, name: &str) {
    let commands = state.update(Msg::SelectIndicator(name.to_string()));
    assert!(commands.is_empty());
}

#[test]
fn client_starts_empty() {
    let state = client();
    assert_eq!(state.selected(), &None);
    assert!(state.overlaid().is_empty());
    assert_eq!(state.status_message(), &None);
    assert_eq!(state.error_message(), &None);
    assert_eq!(state.generation(), 0);
    assert!(!state.actions_enabled());
    assert!(state.catalog().contains("Air Quality"));
}

#[test]
fn first_rendering_asks_for_the_list() {
    assert_eq!(rendered(true), Some(Msg::GetUpdatedIndicators));
    assert_eq!(rendered(false), None);
    let mut state = client();
    let commands = state.update(rendered(true).unwrap());
    assert_eq!(commands, vec![Command::Refresh(0)]);
}

#[test]
fn selecting_an_indicator_of_the_catalog() {
    let mut state = client();
    select(&mut state, "Congestion");
    assert_eq!(state.selected(), &Some("Congestion".to_string()));
    assert!(state.actions_enabled());
    select(&mut state, "Air Quality");
    assert_eq!(state.selected(), &Some("Air Quality".to_string()));
}

#[test]
fn selecting_outside_the_catalog_selects_nothing() {
    let mut state = client();
    select(&mut state, "Select Indicator");
    assert_eq!(state.selected(), &None);
    assert!(!state.actions_enabled());
    select(&mut state, "Congestion");
    select(&mut state, "Innovataion");
    assert_eq!(state.selected(), &None);
    assert!(!state.actions_enabled());
    select(&mut state, "congestion");
    assert_eq!(state.selected(), &None);
}

#[test]
fn selecting_clears_the_error() {
    let mut state = client();
    state.update(Msg::Error("boom".to_string()));
    assert_eq!(state.error_message(), &Some("boom".to_string()));
    select(&mut state, "Congestion");
    assert_eq!(state.error_message(), &None);
    state.update(Msg::Error("boom".to_string()));
    select(&mut state, "Nowhere");
    assert_eq!(state.error_message(), &None);
}

#[test]
fn target_is_the_selection() {
    let mut state = client();
    assert_eq!(state.target(), Err(StoreError::NotSelected));
    select(&mut state, "Congestion");
    assert_eq!(state.target(), Ok(&"Congestion".to_string()));
    select(&mut state, "Elsewhere");
    assert_eq!(state.target(), Err(StoreError::NotSelected));
}

#[test]
fn add_without_selection_is_an_error_and_no_call() {
    let mut state = client();
    let commands = state.update(Msg::Add);
    assert!(commands.is_empty());
    assert_eq!(state.error_message(), &Some("No indicator selected".to_string()));
    assert_eq!(state.status_message(), &None);
    assert_eq!(state.generation(), 0);
}

#[test]
fn remove_without_selection_is_an_error_and_no_call() {
    let mut state = client();
    state.update(Msg::Confirm("Indicator added".to_string()));
    let commands = state.update(Msg::Remove);
    assert!(commands.is_empty());
    assert_eq!(state.error_message(), &Some("No indicator selected".to_string()));
    assert_eq!(state.status_message(), &None);
}

#[test]
fn add_and_remove_call_the_store_for_the_selection() {
    let mut state = client();
    select(&mut state, "Congestion");
    assert_eq!(state.update(Msg::Add), vec![Command::Add("Congestion".to_string())]);
    assert_eq!(state.update(Msg::Remove), vec![Command::Remove("Congestion".to_string())]);
    assert_eq!(state.error_message(), &None);
    assert_eq!(state.generation(), 0);
    assert_eq!(state.selected(), &Some("Congestion".to_string()));
}

#[test]
fn success_is_confirmed_and_followed_by_one_listing() {
    let mut state = client();
    select(&mut state, "Congestion");
    state.update(Msg::Add);
    let commands = state.update(add_reply(add_outcome(201), "Congestion"));
    assert_eq!(commands, vec![Command::Refresh(1)]);
    assert_eq!(state.status_message(), &Some("Indicator added".to_string()));
    assert_eq!(state.error_message(), &None);
    assert_eq!(state.generation(), 1);
    let commands = state.update(remove_reply(remove_outcome(200), "Congestion"));
    assert_eq!(commands, vec![Command::Refresh(2)]);
    assert_eq!(state.status_message(), &Some("Indicator removed".to_string()));
    assert_eq!(state.generation(), 2);
}

#[test]
fn failure_is_shown_and_followed_by_no_listing() {
    let mut state = client();
    select(&mut state, "Congestion");
    state.update(Msg::Confirm("Indicator added".to_string()));
    let commands = state.update(add_reply(add_outcome(500), "Congestion"));
    assert!(commands.is_empty());
    assert_eq!(
        state.error_message(),
        &Some("Error with API, please try again later.".to_string())
    );
    assert_eq!(state.status_message(), &None);
    assert_eq!(state.generation(), 1);
    let commands = state.update(add_reply(add_outcome(418), "Congestion"));
    assert!(commands.is_empty());
    assert_eq!(
        state.error_message(),
        &Some("Error with API, please try again later.".to_string())
    );
}

#[test]
fn replies_carry_the_words_for_the_outcome() {
    assert_eq!(add_reply(Ok(()), "Income"), Msg::Confirm("Indicator added".to_string()));
    assert_eq!(remove_reply(Ok(()), "Income"), Msg::Confirm("Indicator removed".to_string()));
    assert_eq!(
        remove_reply(Err(StoreError::NotFound), "Income"),
        Msg::Error("Cannot remove Income: not a recently updated indicator.".to_string())
    );
    assert_eq!(
        remove_reply(Err(StoreError::Unavailable), "Income"),
        Msg::Error("Error with API, please try again later.".to_string())
    );
    assert_eq!(
        add_reply(Err(StoreError::Malformed), "Income"),
        Msg::Error("Error with API, please try again later.".to_string())
    );
    assert_eq!(
        refresh_reply(3, Err(StoreError::Unavailable)),
        Msg::RefreshFailed(3, "Error with API, please try again later.".to_string())
    );
    assert_eq!(
        refresh_reply(4, Ok(vec!["Income".to_string(), "Air Quality".to_string(), "Income".to_string()])),
        Msg::SetUpdatedIndicators(4, vec!["Air Quality".to_string(), "Income".to_string()])
    );
}

#[test]
fn confirmation_and_error_are_never_shown_together() {
    let mut state = client();
    state.update(Msg::Confirm("Indicator added".to_string()));
    assert!(state.status_message().is_some() && state.error_message().is_none());
    state.update(Msg::Error("boom".to_string()));
    assert!(state.status_message().is_none() && state.error_message().is_some());
    state.update(Msg::Confirm("Indicator removed".to_string()));
    assert!(state.status_message().is_some() && state.error_message().is_none());
    state.update(Msg::RefreshFailed(2, "late".to_string()));
    assert!(state.status_message().is_none() && state.error_message().is_some());
    state.update(Msg::GetUpdatedIndicators);
    assert!(state.status_message().is_none() && state.error_message().is_none());
}

#[test]
fn add_then_list_then_remove_of_an_absent_overlay() {
    let mut store = OverlayStore::new(catalog());
    let mut state = client();
    state.update(Msg::GetUpdatedIndicators);
    state.update(refresh_reply(0, Ok(get_indicators(&store, today()))));

    select(&mut state, "Air Quality");
    assert_eq!(state.update(Msg::Add), vec![Command::Add("Air Quality".to_string())]);
    let status = add_status(&add_indicator(&mut store, "Air Quality", today()));
    assert_eq!(status, 201);
    let commands = state.update(add_reply(add_outcome(status), "Air Quality"));
    assert_eq!(commands, vec![Command::Refresh(1)]);
    let listed = get_indicators(&store, today());
    assert_eq!(listed, vec!["Air Quality".to_string()]);
    state.update(refresh_reply(1, list_outcome(200, Some(listed))));
    assert_eq!(state.overlaid(), &vec!["Air Quality".to_string()]);

    select(&mut state, "Congestion");
    assert_eq!(state.update(Msg::Remove), vec![Command::Remove("Congestion".to_string())]);
    let status = remove_status(&remove_indicator(&mut store, "Congestion"));
    assert_eq!(status, 404);
    let commands = state.update(remove_reply(remove_outcome(status), "Congestion"));
    assert!(commands.is_empty());
    assert_eq!(
        state.error_message(),
        &Some("Cannot remove Congestion: not a recently updated indicator.".to_string())
    );
    assert_eq!(state.status_message(), &None);
    assert_eq!(state.overlaid(), &vec!["Air Quality".to_string()]);
    assert_eq!(state.generation(), 1);
}

#[test]
fn two_rapid_adds_give_one_listing_each_and_both_names() {
    let mut store = OverlayStore::new(catalog());
    let mut state = client();
    let mut listings = 0;

    select(&mut state, "Congestion");
    let first = state.update(Msg::Add);
    select(&mut state, "Air Quality");
    let second = state.update(Msg::Add);
    assert_eq!(first, vec![Command::Add("Congestion".to_string())]);
    assert_eq!(second, vec![Command::Add("Air Quality".to_string())]);

    // Both adds succeed before either listing is answered.
    let outcome = add_indicator(&mut store, "Congestion", today());
    let after_first = state.update(add_reply(outcome, "Congestion"));
    let early = get_indicators(&store, today());
    let outcome = add_indicator(&mut store, "Air Quality", today());
    let after_second = state.update(add_reply(outcome, "Air Quality"));
    let late = get_indicators(&store, today());
    for command in after_first.iter().chain(after_second.iter()) {
        if matches!(command, Command::Refresh(_)) {
            listings += 1;
        }
    }
    assert_eq!(after_first, vec![Command::Refresh(1)]);
    assert_eq!(after_second, vec![Command::Refresh(2)]);
    assert_eq!(listings, 2);

    // The answers arrive out of order: the later listing first.
    assert!(state.update(refresh_reply(2, Ok(late))).is_empty());
    assert!(state.update(refresh_reply(1, Ok(early))).is_empty());
    assert_eq!(state.overlaid(), &vec!["Air Quality".to_string(), "Congestion".to_string()]);
    assert_eq!(state.generation(), 2);
}

#[test]
fn failed_listing_keeps_the_names_and_shows_an_error() {
    let mut state = client();
    state.update(Msg::GetUpdatedIndicators);
    state.update(refresh_reply(0, Ok(vec!["Congestion".to_string()])));
    assert_eq!(state.overlaid(), &vec!["Congestion".to_string()]);
    let commands = state.update(Msg::GetUpdatedIndicators);
    assert_eq!(commands, vec![Command::Refresh(0)]);
    let commands = state.update(refresh_reply(0, Err(StoreError::Unavailable)));
    assert!(commands.is_empty());
    assert_eq!(state.overlaid(), &vec!["Congestion".to_string()]);
    assert_eq!(
        state.error_message(),
        &Some("Error with API, please try again later.".to_string())
    );
    let commands = state.update(refresh_reply(0, list_outcome(200, None)));
    assert!(commands.is_empty());
    assert_eq!(state.overlaid(), &vec!["Congestion".to_string()]);
    assert!(state.error_message().is_some());
}

#[test]
fn stale_answer_changes_nothing() {
    let mut state = client();
    state.update(refresh_reply(0, Ok(vec!["Congestion".to_string()])));
    state.update(Msg::Confirm("Indicator added".to_string()));
    // Answers to the listing asked for before the success.
    state.update(refresh_reply(0, Ok(Vec::new())));
    assert_eq!(state.overlaid(), &vec!["Congestion".to_string()]);
    assert_eq!(state.status_message(), &Some("Indicator added".to_string()));
    state.update(refresh_reply(0, Err(StoreError::Unavailable)));
    assert_eq!(state.error_message(), &None);
    assert_eq!(state.status_message(), &Some("Indicator added".to_string()));
    // An answer that claims a generation not yet reached.
    state.update(refresh_reply(7, Ok(Vec::new())));
    assert_eq!(state.overlaid(), &vec!["Congestion".to_string()]);
    // The answer to the present listing.
    state.update(refresh_reply(1, Ok(vec!["Air Quality".to_string()])));
    assert_eq!(state.overlaid(), &vec!["Air Quality".to_string()]);
}

#[test]
fn listing_replaces_the_names_and_clears_the_error() {
    let mut state = client();
    state.update(Msg::Error("boom".to_string()));
    state.update(Msg::SetUpdatedIndicators(0, vec!["Congestion".to_string(), "Air Quality".to_string()]));
    // The names of the message are taken as they stand.
    assert_eq!(state.overlaid(), &vec!["Congestion".to_string(), "Air Quality".to_string()]);
    assert_eq!(state.error_message(), &None);
    state.update(Msg::SetUpdatedIndicators(0, Vec::new()));
    assert!(state.overlaid().is_empty());
}
