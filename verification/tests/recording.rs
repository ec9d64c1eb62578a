use leetbot::leeting::{handle_leet_message, setup_leet, LeetClass, LeetError, SetupOutcome};
use leetbot::store::{Server, Store, StoreError};

// 2024-01-15 12:37:00 UTC, which is 13:37 in Europe/Oslo (CET, UTC+1).
const OSLO_1337: i64 = 1705322220;
// One and two minutes later: 13:38 and 13:39 in Europe/Oslo.
const OSLO_1338: i64 = 1705322280;
// One minute earlier: 13:36 in Europe/Oslo.
const OSLO_1336: i64 = 1705322160;
// The same wall-clock minute on the next Oslo day.
const OSLO_1337_NEXT_DAY: i64 = OSLO_1337 + 86_400;

fn configured_store(guild: &str, channel: &str) -> Store {
    let mut store = Store::new();
    let outcome = setup_leet(
        &mut store,
        &guild.to_string(),
        &"ACCEPT".to_string(),
        &"DENY".to_string(),
        &"REPEAT".to_string(),
        &"Europe/Oslo".to_string(),
        &channel.to_string(),
    );
    assert_eq!(outcome, SetupOutcome::Success);
    store
}

#[test]
fn setup_stores_canonical_timezone_case_insensitively() {
    let mut store = Store::new();
    let outcome = setup_leet(
        &mut store,
        &"g1".to_string(),
        &"A".to_string(),
        &"D".to_string(),
        &"R".to_string(),
        &"europe/oslo".to_string(),
        &"chan".to_string(),
    );
    assert_eq!(outcome, SetupOutcome::Success);
    let server = Server::get(&store, &"g1".to_string()).unwrap();
    let setup = server.get_leet_setup(&store).unwrap();
    assert_eq!(setup.timezone, "Europe/Oslo");
    assert_eq!(setup.leaderboard_channel, "chan");
    assert_eq!(setup.leaderboard_count, 15);
    assert_eq!(setup.accept_emoji, "A");
    assert_eq!(setup.deny_emoji, "D");
    assert_eq!(setup.repeat_emoji, "R");
}

#[test]
fn setup_rejects_unknown_timezone() {
    let mut store = Store::new();
    let outcome = setup_leet(
        &mut store,
        &"g1".to_string(),
        &"A".to_string(),
        &"D".to_string(),
        &"R".to_string(),
        &"Atlantis/Central".to_string(),
        &"chan".to_string(),
    );
    assert_eq!(outcome, SetupOutcome::InvalidTimezone);
    let server = Server::get(&store, &"g1".to_string()).unwrap();
    assert!(server.get_leet_setup(&store).is_none());
}

#[test]
fn second_setup_is_rejected_and_keeps_first_configuration() {
    let mut store = configured_store("g1", "first-channel");
    let outcome = setup_leet(
        &mut store,
        &"g1".to_string(),
        &"A2".to_string(),
        &"D2".to_string(),
        &"R2".to_string(),
        &"UTC".to_string(),
        &"second-channel".to_string(),
    );
    assert_eq!(outcome, SetupOutcome::AlreadyConfigured);
    let server = Server::get(&store, &"g1".to_string()).unwrap();
    let setup = server.get_leet_setup(&store).unwrap();
    assert_eq!(setup.timezone, "Europe/Oslo");
    assert_eq!(setup.leaderboard_channel, "first-channel");
    assert_eq!(setup.accept_emoji, "ACCEPT");
    assert_eq!(setup.deny_emoji, "DENY");
    assert_eq!(setup.repeat_emoji, "REPEAT");
}

#[test]
fn first_message_in_window_is_accepted() {
    let mut store = configured_store("g1", "chan");
    let r = handle_leet_message(&mut store, &"g1".to_string(), &"u1".to_string(), OSLO_1337);
    assert_eq!(r, Ok(Some((LeetClass::Accepted, "ACCEPT".to_string()))));
    // the record carries the Oslo-local calendar day
    let server = Server::get(&store, &"g1".to_string()).unwrap();
    let leet = server.get_leet(&store, "u1", 15, 1, 2024).unwrap();
    assert_eq!(leet.user_id, "u1");
    assert_eq!(leet.guild_id, "g1");
}

#[test]
fn second_message_same_day_is_a_repeat() {
    let mut store = configured_store("g1", "chan");
    let first = handle_leet_message(&mut store, &"g1".to_string(), &"u1".to_string(), OSLO_1337);
    assert_eq!(first, Ok(Some((LeetClass::Accepted, "ACCEPT".to_string()))));
    let second = handle_leet_message(&mut store, &"g1".to_string(), &"u1".to_string(), OSLO_1337);
    assert_eq!(second, Ok(Some((LeetClass::Repeat, "REPEAT".to_string()))));
    // still exactly one record for the day
    let server = Server::get(&store, &"g1".to_string()).unwrap();
    assert_eq!(
        server.add_leet(&mut store, "u1", 15, 1, 2024),
        Err(StoreError::UniqueViolation)
    );
}

#[test]
fn preseeded_record_makes_window_message_a_repeat() {
    let mut store = configured_store("g1", "chan");
    let server = Server::get(&store, &"g1".to_string()).unwrap();
    server.add_leet(&mut store, "u1", 15, 1, 2024).unwrap();
    let r = handle_leet_message(&mut store, &"g1".to_string(), &"u1".to_string(), OSLO_1337);
    assert_eq!(r, Ok(Some((LeetClass::Repeat, "REPEAT".to_string()))));
}

#[test]
fn messages_outside_window_are_denied() {
    let mut store = configured_store("g1", "chan");
    let early = handle_leet_message(&mut store, &"g1".to_string(), &"u1".to_string(), OSLO_1336);
    assert_eq!(early, Ok(Some((LeetClass::OutOfWindow, "DENY".to_string()))));
    let late = handle_leet_message(&mut store, &"g1".to_string(), &"u1".to_string(), OSLO_1338);
    assert_eq!(late, Ok(Some((LeetClass::OutOfWindow, "DENY".to_string()))));
    // no record was written
    let server = Server::get(&store, &"g1".to_string()).unwrap();
    assert!(server.get_leet(&store, "u1", 15, 1, 2024).is_none());
}

#[test]
fn next_local_day_is_accepted_again() {
    let mut store = configured_store("g1", "chan");
    let first = handle_leet_message(&mut store, &"g1".to_string(), &"u1".to_string(), OSLO_1337);
    assert_eq!(first, Ok(Some((LeetClass::Accepted, "ACCEPT".to_string()))));
    let next_day = handle_leet_message(
        &mut store,
        &"g1".to_string(),
        &"u1".to_string(),
        OSLO_1337_NEXT_DAY,
    );
    assert_eq!(next_day, Ok(Some((LeetClass::Accepted, "ACCEPT".to_string()))));
}

#[test]
fn unconfigured_guild_is_ignored() {
    let mut store = Store::new();
    let r = handle_leet_message(&mut store, &"g1".to_string(), &"u1".to_string(), OSLO_1337);
    assert_eq!(r, Ok(None));
}

#[test]
fn out_of_range_timestamp_fails_localization() {
    let mut store = configured_store("g1", "chan");
    let r = handle_leet_message(&mut store, &"g1".to_string(), &"u1".to_string(), i64::MAX);
    assert_eq!(r, Err(LeetError::InvalidTimezone));
}

#[test]
fn create_fails_on_existing_guild() {
    let mut store = Store::new();
    Server::create(&mut store, &"g1".to_string()).unwrap();
    assert_eq!(
        Server::create(&mut store, &"g1".to_string()).unwrap_err(),
        StoreError::UniqueViolation
    );
}

#[test]
fn get_or_create_is_idempotent() {
    let mut store = Store::new();
    let a = Server::get_or_create(&mut store, &"g1".to_string());
    let b = Server::get_or_create(&mut store, &"g1".to_string());
    assert_eq!(a.guild_id(), b.guild_id());
    assert_eq!(a.guild_id().as_str(), "g1");
}

#[test]
fn get_returns_none_for_unknown_guild() {
    let store = Store::new();
    assert!(Server::get(&store, &"nope".to_string()).is_none());
}
