use leetbot::leeting::{get_leaderboard_string, handle_leet_message, leeterboard, setup_leet, SetupOutcome};
use leetbot::scheduler::{post_needed_leaderboards, post_one_leaderboard};
use leetbot::store::{LeaderboardEntry, Server, Store};

// 2024-01-15 12:37:00 UTC = 13:37 in Europe/Oslo.
const OSLO_1337: i64 = 1705322220;
// 2024-01-15 12:38:00 UTC = 13:38 in Europe/Oslo.
const OSLO_1338: i64 = 1705322280;
// 2024-01-15 13:38:00 UTC.
const UTC_1338: i64 = 1705325880;
// 2024-01-15 13:37:00 UTC.
const UTC_1337: i64 = 1705325820;

fn configure(store: &mut Store, guild: &str, timezone: &str, channel: &str) {
    let outcome = setup_leet(
        &mut *store,
        &guild.to_string(),
        &"A".to_string(),
        &"D".to_string(),
        &"R".to_string(),
        &timezone.to_string(),
        &channel.to_string(),
    );
    assert_eq!(outcome, SetupOutcome::Success);
}

fn record(store: &mut Store, guild: &str, user: &str, ts: i64) {
    let r = handle_leet_message(&mut *store, &guild.to_string(), &user.to_string(), ts);
    assert!(r.is_ok());
}

#[test]
fn empty_guild_has_empty_leaderboard() {
    let mut store = Store::new();
    configure(&mut store, "g1", "Europe/Oslo", "chan");
    let server = Server::get(&store, &"g1".to_string()).unwrap();
    let entries = server.get_montly_leaderboard(&store, 1, 2024);
    assert!(entries.is_empty());
    assert_eq!(get_leaderboard_string(&entries, 15), "No leets this month");
}

#[test]
fn leaderboard_is_sorted_descending_by_count() {
    let mut store = Store::new();
    configure(&mut store, "g1", "Europe/Oslo", "chan");
    // u1 leets on two days, u2 on three, u3 on one, all in January 2024
    for day in 0..2i64 {
        record(&mut store, "g1", "u1", OSLO_1337 + day * 86_400);
    }
    for day in 0..3i64 {
        record(&mut store, "g1", "u2", OSLO_1337 + day * 86_400);
    }
    record(&mut store, "g1", "u3", OSLO_1337);
    let server = Server::get(&store, &"g1".to_string()).unwrap();
    let entries = server.get_montly_leaderboard(&store, 1, 2024);
    assert_eq!(entries.len(), 3);
    assert_eq!(entries[0].user_id, "u2");
    assert_eq!(entries[0].count, 3);
    assert_eq!(entries[1].user_id, "u1");
    assert_eq!(entries[1].count, 2);
    assert_eq!(entries[2].user_id, "u3");
    assert_eq!(entries[2].count, 1);
    for w in entries.windows(2) {
        assert!(w[0].count >= w[1].count);
    }
}

#[test]
fn equal_counts_keep_first_seen_order() {
    let mut store = Store::new();
    configure(&mut store, "g1", "Europe/Oslo", "chan");
    record(&mut store, "g1", "first", OSLO_1337);
    record(&mut store, "g1", "second", OSLO_1337);
    let server = Server::get(&store, &"g1".to_string()).unwrap();
    let entries = server.get_montly_leaderboard(&store, 1, 2024);
    assert_eq!(entries.len(), 2);
    assert_eq!(entries[0].user_id, "first");
    assert_eq!(entries[1].user_id, "second");
}

#[test]
fn round_trip_one_record_per_user() {
    let mut store = Store::new();
    configure(&mut store, "g1", "Europe/Oslo", "chan");
    let n: usize = 5;
    for k in 0..n {
        record(&mut store, "g1", &format!("user{}", k), OSLO_1337);
    }
    let server = Server::get(&store, &"g1".to_string()).unwrap();
    let entries = server.get_montly_leaderboard(&store, 1, 2024);
    assert_eq!(entries.len(), n);
    let total: i64 = entries.iter().map(|e| e.count).sum();
    assert_eq!(total, n as i64);
    for e in &entries {
        assert_eq!(e.count, 1);
    }
}

#[test]
fn other_guilds_and_months_are_not_counted() {
    let mut store = Store::new();
    configure(&mut store, "g1", "Europe/Oslo", "chan1");
    configure(&mut store, "g2", "Europe/Oslo", "chan2");
    record(&mut store, "g1", "u1", OSLO_1337);
    record(&mut store, "g2", "u1", OSLO_1337);
    // a February record for g1
    record(&mut store, "g1", "u1", OSLO_1337 + 31 * 86_400);
    let server = Server::get(&store, &"g1".to_string()).unwrap();
    let january = server.get_montly_leaderboard(&store, 1, 2024);
    assert_eq!(january.len(), 1);
    assert_eq!(january[0].count, 1);
    let february = server.get_montly_leaderboard(&store, 2, 2024);
    assert_eq!(february.len(), 1);
}

#[test]
fn rendering_has_exact_lines_ranks_and_counts() {
    let entries = vec![
        LeaderboardEntry { user_id: "alice".to_string(), count: 3 },
        LeaderboardEntry { user_id: "bob".to_string(), count: 1 },
    ];
    assert_eq!(
        get_leaderboard_string(&entries, 15),
        "- 1: <@alice>, 3 leets\n- 2: <@bob>, 1 leets"
    );
}

#[test]
fn rendering_respects_the_entry_limit() {
    let entries = vec![
        LeaderboardEntry { user_id: "a".to_string(), count: 12 },
        LeaderboardEntry { user_id: "b".to_string(), count: 10 },
        LeaderboardEntry { user_id: "c".to_string(), count: 7 },
    ];
    assert_eq!(get_leaderboard_string(&entries, 2), "- 1: <@a>, 12 leets\n- 2: <@b>, 10 leets");
    assert_eq!(get_leaderboard_string(&entries, 0), "");
}

#[test]
fn rendering_of_no_entries_is_the_fixed_message() {
    assert_eq!(get_leaderboard_string(&Vec::new(), 15), "No leets this month");
}

#[test]
fn tick_publishes_one_message_per_due_guild() {
    let mut store = Store::new();
    configure(&mut store, "g1", "UTC", "chan1");
    configure(&mut store, "g2", "UTC", "chan2");
    record(&mut store, "g1", "u1", UTC_1337);
    let posts = post_needed_leaderboards(&store, UTC_1338);
    assert_eq!(posts.len(), 2);
    assert_eq!(posts[0].0, "chan1");
    assert_eq!(posts[0].1, "- 1: <@u1>, 1 leets");
    assert_eq!(posts[1].0, "chan2");
    assert_eq!(posts[1].1, "No leets this month");
}

#[test]
fn tick_publishes_nothing_at_other_minutes() {
    let mut store = Store::new();
    configure(&mut store, "g1", "UTC", "chan1");
    assert!(post_needed_leaderboards(&store, UTC_1337).is_empty());
    assert!(post_needed_leaderboards(&store, UTC_1338 + 60).is_empty());
    assert!(post_needed_leaderboards(&store, UTC_1338 + 3_600).is_empty());
}

#[test]
fn tick_is_evaluated_per_guild_in_its_own_time_zone() {
    let mut store = Store::new();
    configure(&mut store, "g-oslo", "Europe/Oslo", "chan-oslo");
    configure(&mut store, "g-utc", "UTC", "chan-utc");
    // 13:38 in Oslo is 12:38 UTC: only the Oslo guild is due
    let oslo_posts = post_needed_leaderboards(&store, OSLO_1338);
    assert_eq!(oslo_posts.len(), 1);
    assert_eq!(oslo_posts[0].0, "chan-oslo");
    // 13:38 UTC is 14:38 in Oslo: only the UTC guild is due
    let utc_posts = post_needed_leaderboards(&store, UTC_1338);
    assert_eq!(utc_posts.len(), 1);
    assert_eq!(utc_posts[0].0, "chan-utc");
}

#[test]
fn one_guild_publish_is_independent_of_the_others() {
    let mut store = Store::new();
    configure(&mut store, "g1", "UTC", "chan1");
    configure(&mut store, "g2", "UTC", "chan2");
    let server2 = Server::get(&store, &"g2".to_string()).unwrap();
    let setup2 = server2.get_leet_setup(&store).unwrap();
    // deciding g2's publish alone gives the same message the tick gives
    let single = post_one_leaderboard(&store, &setup2, UTC_1338).unwrap();
    let all = post_needed_leaderboards(&store, UTC_1338);
    assert_eq!(all.len(), 2);
    assert_eq!(single.0, all[1].0);
    assert_eq!(single.1, all[1].1);
}

#[test]
fn publish_uses_the_guild_local_month() {
    let mut store = Store::new();
    configure(&mut store, "g1", "UTC", "chan1");
    record(&mut store, "g1", "u1", UTC_1337);
    // a tick one month later aggregates February, not January
    let feb_1338: i64 = UTC_1338 + 31 * 86_400;
    let posts = post_needed_leaderboards(&store, feb_1338);
    assert_eq!(posts.len(), 1);
    assert_eq!(posts[0].1, "No leets this month");
}

#[test]
fn leeterboard_command_renders_the_current_local_month() {
    let mut store = Store::new();
    configure(&mut store, "g1", "Europe/Oslo", "chan");
    record(&mut store, "g1", "u1", OSLO_1337);
    let reply = leeterboard(&mut store, &"g1".to_string(), OSLO_1338).unwrap();
    assert_eq!(reply, Some("- 1: <@u1>, 1 leets".to_string()));
}

#[test]
fn leeterboard_without_configuration_gives_nothing() {
    let mut store = Store::new();
    let reply = leeterboard(&mut store, &"g1".to_string(), OSLO_1338).unwrap();
    assert_eq!(reply, None);
}
