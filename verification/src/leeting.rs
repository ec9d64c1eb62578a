//! The leet flow: the one-time configuration command's core, the inbound
//! message handler that classifies a trigger message and records the
//! achievement, and the leaderboard text rendering.

use crate::store::{
    entries_view, has_leet, has_setup, has_server, is_setup_for, LeaderboardEntry, Server,
    SpecEntry, SpecLeet, SpecSetup, Store,
};
use crate::scheduler::{spec_limit, spec_publish_text};
use crate::timewin::{
    is_achievement_window, local_parts, localize, parse_timezone, spec_is_achievement_window,
    tz_canonical,
};
use vstd::prelude::*;

verus! {

use vstd::string::StringExecFns;

/// How a trigger message was classified: first achievement of the user's
/// local day, a repeat within the same local day, or outside the
/// achievement window.
#[derive(Clone, Copy, Debug, PartialEq, Eq, Structural)]
pub enum LeetClass {
    Accepted,
    Repeat,
    OutOfWindow,
}

/// Outcome of the one-time configuration command.
#[derive(Clone, Copy, Debug, PartialEq, Eq, Structural)]
pub enum SetupOutcome {
    Success,
    AlreadyConfigured,
    InvalidTimezone,
}

/// Error of the message flow: the stored time-zone name could not be
/// resolved when localizing the message's timestamp.
#[derive(Clone, Copy, Debug, PartialEq, Eq, Structural)]
pub enum LeetError {
    InvalidTimezone,
}

/// The configuration row for guild `g`, where one exists (under the
/// store's invariant it is unique).
pub open spec fn the_setup(setups: Seq<SpecSetup>, g: Seq<char>) -> SpecSetup {
    choose|s: SpecSetup| is_setup_for(setups, g, s)
}

/// Under the store's invariant a guild has at most one configuration row.
pub proof fn lemma_setup_unique(setups: Seq<SpecSetup>, g: Seq<char>, a: SpecSetup, b: SpecSetup)
    requires
        forall|i: int, j: int|
            0 <= i < j < setups.len() ==> (#[trigger] setups[i]).guild_id != (
            #[trigger] setups[j]).guild_id,
        is_setup_for(setups, g, a),
        is_setup_for(setups, g, b),
    ensures
        a == b,
{
    let i = choose|i: int| 0 <= i < setups.len() && setups[i] == a;
    let j = choose|j: int| 0 <= j < setups.len() && setups[j] == b;
    if i != j {
        assert(setups[i].guild_id == setups[j].guild_id);
        assert(false);
    }
}

/// Classification of a trigger message from user `u` in guild `g` whose
/// timestamp localized to `p` = (hour, minute, day, month, year), given
/// the achievement records `leets`.
pub open spec fn classify(
    leets: Seq<SpecLeet>,
    g: Seq<char>,
    u: Seq<char>,
    p: (u32, u32, u32, u32, i32),
) -> LeetClass {
    if !spec_is_achievement_window(p.0, p.1) {
        LeetClass::OutOfWindow
    } else if has_leet(leets, g, u, p.2 as int, p.3 as int, p.4 as int) {
        LeetClass::Repeat
    } else {
        LeetClass::Accepted
    }
}

/// The reaction symbol a guild's configuration assigns to a
/// classification: the accept symbol for a first-of-day achievement, the
/// repeat symbol for a repeat, the deny symbol outside the window.
pub open spec fn reaction_for(s: SpecSetup, c: LeetClass) -> Seq<char> {
    match c {
        LeetClass::Accepted => s.accept_emoji,
        LeetClass::Repeat => s.repeat_emoji,
        LeetClass::OutOfWindow => s.deny_emoji,
    }
}

/// Core of the one-time configuration command. Creates the guild row when
/// none exists, then installs the guild's configuration — time zone
/// (validated against the IANA database, stored under its canonical
/// name), leaderboard channel, a fixed entry limit of 15, and the three
/// reaction symbols — unless the guild is already configured, which
/// leaves the existing configuration untouched, or the time-zone name is
/// unknown, which writes nothing.
pub fn setup_leet(
    store: &mut Store,
    guild_id: &String,
    accept_emoji: &String,
    invalid_emoji: &String,
    repeat_emoji: &String,
    timezone: &String,
    channel: &String,
) -> (r: SetupOutcome)
    requires
        old(store).wf(),
    ensures
        final(store).wf(),
        final(store)@.leets == old(store)@.leets,
        has_server(final(store)@.servers, guild_id@),
        has_server(old(store)@.servers, guild_id@) ==> final(store)@.servers == old(
            store,
        )@.servers,
        !has_server(old(store)@.servers, guild_id@) ==> final(store)@.servers == old(
            store,
        )@.servers.push(guild_id@),
        has_setup(old(store)@.setups, guild_id@) ==> {
            &&& r == SetupOutcome::AlreadyConfigured
            &&& final(store)@.setups == old(store)@.setups
        },
        !has_setup(old(store)@.setups, guild_id@) && tz_canonical(timezone@) is None ==> {
            &&& r == SetupOutcome::InvalidTimezone
            &&& final(store)@.setups == old(store)@.setups
        },
        !has_setup(old(store)@.setups, guild_id@) && tz_canonical(timezone@) is Some ==> {
            &&& r == SetupOutcome::Success
            &&& final(store)@.setups == old(store)@.setups.push(
                SpecSetup {
                    guild_id: guild_id@,
                    timezone: tz_canonical(timezone@)->0,
                    leaderboard_channel: channel@,
                    leaderboard_count: 15,
                    accept_emoji: accept_emoji@,
                    deny_emoji: invalid_emoji@,
                    repeat_emoji: repeat_emoji@,
                },
            )
        },
{
    let server = Server::get_or_create(store, guild_id);
    if server.get_leet_setup(store).is_some() {
        return SetupOutcome::AlreadyConfigured;
    }
    let canonical = match parse_timezone(timezone.as_str()) {
        Some(c) => c,
        None => {
            return SetupOutcome::InvalidTimezone;
        },
    };
    match server.setup_leet(store, &canonical, channel, 15, accept_emoji, invalid_emoji,
        repeat_emoji) {
        Ok(()) => SetupOutcome::Success,
        Err(_) => {
            // unreachable: no configuration existed for this guild above
            proof {
                assert(false);
            }
            SetupOutcome::AlreadyConfigured
        },
    }
}

/// Core of the inbound-message flow, to be run for a message that
/// contains the trigger word. Looks up the sender's guild (creating its
/// bare row on first contact), short-circuits when the guild has no
/// configuration, localizes the message timestamp to the configured time
/// zone, classifies the message, records a first-of-day achievement, and
/// returns the classification with the reaction symbol to emit. The
/// record is written before the caller can react: a crash after the call
/// can lose a reaction, never a record.
pub fn handle_leet_message(
    store: &mut Store,
    guild_id: &String,
    user_id: &String,
    timestamp_secs: i64,
) -> (r: Result<Option<(LeetClass, String)>, LeetError>)
    requires
        old(store).wf(),
    ensures
        final(store).wf(),
        final(store)@.setups == old(store)@.setups,
        has_server(old(store)@.servers, guild_id@) ==> final(store)@.servers == old(
            store,
        )@.servers,
        !has_server(old(store)@.servers, guild_id@) ==> final(store)@.servers == old(
            store,
        )@.servers.push(guild_id@),
        !has_setup(old(store)@.setups, guild_id@) ==> {
            &&& r == Result::<Option<(LeetClass, String)>, LeetError>::Ok(None)
            &&& final(store)@.leets == old(store)@.leets
        },
        has_setup(old(store)@.setups, guild_id@) ==> {
            let s = the_setup(old(store)@.setups, guild_id@);
            match local_parts(timestamp_secs as int, s.timezone) {
                None => {
                    &&& r == Result::<Option<(LeetClass, String)>, LeetError>::Err(
                        LeetError::InvalidTimezone,
                    )
                    &&& final(store)@.leets == old(store)@.leets
                },
                Some(p) => {
                    let c = classify(old(store)@.leets, guild_id@, user_id@, p);
                    &&& r is Ok
                    &&& r->Ok_0 is Some
                    &&& (r->Ok_0->0).0 == c
                    &&& (r->Ok_0->0).1@ == reaction_for(s, c)
                    &&& c is Accepted ==> final(store)@.leets == old(store)@.leets.push(
                        SpecLeet {
                            guild_id: guild_id@,
                            user_id: user_id@,
                            day: p.2 as int,
                            month: p.3 as int,
                            year: p.4 as int,
                        },
                    )
                    &&& !(c is Accepted) ==> final(store)@.leets == old(store)@.leets
                },
            }
        },
{
    let server = Server::get_or_create(store, guild_id);
    let setup = match server.get_leet_setup(store) {
        Some(s) => s,
        None => {
            return Ok(None);
        },
    };
    proof {
        lemma_setup_unique(
            store@.setups,
            guild_id@,
            setup@,
            the_setup(old(store)@.setups, guild_id@),
        );
    }
    let local = match localize(timestamp_secs, setup.timezone.as_str()) {
        Some(l) => l,
        None => {
            return Err(LeetError::InvalidTimezone);
        },
    };
    if !is_achievement_window(local.hour, local.minute) {
        return Ok(Some((LeetClass::OutOfWindow, setup.deny_emoji)));
    }
    let day = local.day as i64;
    let month = local.month as i64;
    let year = local.year as i64;
    match server.get_leet(store, user_id.as_str(), day, month, year) {
        Some(_) => Ok(Some((LeetClass::Repeat, setup.repeat_emoji))),
        None => {
            match server.add_leet(store, user_id.as_str(), day, month, year) {
                Ok(()) => Ok(Some((LeetClass::Accepted, setup.accept_emoji))),
                Err(_) => {
                    // unreachable: no record existed for this tuple above
                    proof {
                        assert(false);
                    }
                    Ok(None)
                },
            }
        },
    }
}

/// Core of the leaderboard command: the reply a guild gets when a user
/// asks for the current leaderboard. Creates the guild's bare row on
/// first contact, short-circuits when the guild has no configuration, and
/// otherwise renders the monthly leaderboard for the asking instant's
/// guild-local month.
pub fn leeterboard(store: &mut Store, guild_id: &String, now_secs: i64) -> (r: Result<
    Option<String>,
    LeetError,
>)
    requires
        old(store).wf(),
        old(store)@.leets.len() <= i64::MAX,
    ensures
        final(store).wf(),
        final(store)@.setups == old(store)@.setups,
        final(store)@.leets == old(store)@.leets,
        has_server(old(store)@.servers, guild_id@) ==> final(store)@.servers == old(
            store,
        )@.servers,
        !has_server(old(store)@.servers, guild_id@) ==> final(store)@.servers == old(
            store,
        )@.servers.push(guild_id@),
        !has_setup(old(store)@.setups, guild_id@) ==> r == Result::<
            Option<String>,
            LeetError,
        >::Ok(None),
        has_setup(old(store)@.setups, guild_id@) ==> {
            let s = the_setup(old(store)@.setups, guild_id@);
            match local_parts(now_secs as int, s.timezone) {
                None => r == Result::<Option<String>, LeetError>::Err(LeetError::InvalidTimezone),
                Some(p) => {
                    &&& r is Ok
                    &&& r->Ok_0 is Some
                    &&& spec_publish_text(old(store)@, s, now_secs as int, r->Ok_0->0@)
                },
            }
        },
{
    let server = Server::get_or_create(store, guild_id);
    let setup = match server.get_leet_setup(store) {
        Some(s) => s,
        None => {
            return Ok(None);
        },
    };
    proof {
        lemma_setup_unique(
            store@.setups,
            guild_id@,
            setup@,
            the_setup(old(store)@.setups, guild_id@),
        );
    }
    let local = match localize(now_secs, setup.timezone.as_str()) {
        Some(l) => l,
        None => {
            return Err(LeetError::InvalidTimezone);
        },
    };
    let leaderboard = server.get_montly_leaderboard(store, local.month as i64, local.year as i64);
    let max_count: usize = if setup.leaderboard_count <= 0 {
        0
    } else if setup.leaderboard_count as u64 > usize::MAX as u64 {
        usize::MAX
    } else {
        setup.leaderboard_count as usize
    };
    assert(max_count as int == spec_limit(setup@.leaderboard_count));
    proof {
        let es = entries_view(leaderboard@);
        assert forall|i: int| 0 <= i < leaderboard@.len() implies 0 <= (
        #[trigger] leaderboard@[i]).count by {
            assert(es[i] == leaderboard@[i]@);
            assert(es[i].count > 0);
        }
    }
    let text = get_leaderboard_string(&leaderboard, max_count);
    Ok(Some(text))
}

/// The decimal digit character for `d` (0 through 9).
pub open spec fn dec_digit(d: int) -> char
    recommends
        0 <= d <= 9,
{
    if d == 0 {
        '0'
    } else if d == 1 {
        '1'
    } else if d == 2 {
        '2'
    } else if d == 3 {
        '3'
    } else if d == 4 {
        '4'
    } else if d == 5 {
        '5'
    } else if d == 6 {
        '6'
    } else if d == 7 {
        '7'
    } else if d == 8 {
        '8'
    } else {
        '9'
    }
}

/// The decimal rendering of a non-negative integer, most significant
/// digit first, without leading zeroes (a lone zero for 0).
pub open spec fn spec_dec(n: int) -> Seq<char>
    recommends
        0 <= n,
    decreases n,
{
    if n < 10 {
        seq![dec_digit(n)]
    } else {
        spec_dec(n / 10).push(dec_digit(n % 10))
    }
}

fn digit_str(d: u64) -> (s: &'static str)
    requires
        d < 10,
    ensures
        s@ == seq![dec_digit(d as int)],
{
    let s: &'static str = match d {
        0 => "0",
        1 => "1",
        2 => "2",
        3 => "3",
        4 => "4",
        5 => "5",
        6 => "6",
        7 => "7",
        8 => "8",
        _ => "9",
    };
    proof {
        reveal_strlit("0");
        reveal_strlit("1");
        reveal_strlit("2");
        reveal_strlit("3");
        reveal_strlit("4");
        reveal_strlit("5");
        reveal_strlit("6");
        reveal_strlit("7");
        reveal_strlit("8");
        reveal_strlit("9");
    }
    s
}

/// Renders `n` in decimal.
fn u64_to_string(n: u64) -> (s: String)
    ensures
        s@ == spec_dec(n as int),
    decreases n,
{
    if n < 10 {
        digit_str(n).to_owned()
    } else {
        let mut s = u64_to_string(n / 10);
        s.append(digit_str(n % 10));
        s
    }
}

/// One rendered leaderboard line: `- <rank>: <user mention>, <count> leets`.
pub open spec fn spec_entry_line(rank: int, e: SpecEntry) -> Seq<char> {
    "- "@ + spec_dec(rank) + ": <@"@ + e.user_id + ">, "@ + spec_dec(e.count) + " leets"@
}

/// The first `k` rendered lines, joined by newlines.
pub open spec fn spec_leaderboard_lines(entries: Seq<SpecEntry>, k: int) -> Seq<char>
    recommends
        0 <= k <= entries.len(),
    decreases k,
{
    if k <= 0 {
        Seq::empty()
    } else if k == 1 {
        spec_entry_line(1, entries[0])
    } else {
        spec_leaderboard_lines(entries, k - 1) + "\n"@ + spec_entry_line(k, entries[k - 1])
    }
}

/// The rendered leaderboard: up to `max` lines, 1-based rank by position,
/// or the fixed no-activity message when there are no entries at all.
pub open spec fn spec_leaderboard_string(entries: Seq<SpecEntry>, max: int) -> Seq<char> {
    if entries.len() == 0 {
        "No leets this month"@
    } else if max < entries.len() {
        spec_leaderboard_lines(entries, max)
    } else {
        spec_leaderboard_lines(entries, entries.len() as int)
    }
}

fn entry_line(rank: usize, e: &LeaderboardEntry) -> (r: String)
    requires
        0 <= e.count,
    ensures
        r@ == spec_entry_line(rank as int, e@),
{
    let mut s = "- ".to_owned();
    s.append(u64_to_string(rank as u64).as_str());
    s.append(": <@");
    s.append(e.user_id.as_str());
    s.append(">, ");
    s.append(u64_to_string(e.count as u64).as_str());
    s.append(" leets");
    s
}

/// Renders a monthly leaderboard as text: one line per entry in order,
/// rank 1 first, at most `max_count` lines; no entries at all render as
/// the fixed no-activity message.
pub fn get_leaderboard_string(entries: &Vec<LeaderboardEntry>, max_count: usize) -> (r: String)
    requires
        forall|i: int| 0 <= i < entries@.len() ==> 0 <= (#[trigger] entries@[i]).count,
    ensures
        r@ == spec_leaderboard_string(entries_view(entries@), max_count as int),
{
    if entries.len() == 0 {
        return "No leets this month".to_owned();
    }
    let k = if entries.len() < max_count {
        entries.len()
    } else {
        max_count
    };
    let mut s = String::new();
    let mut i: usize = 0;
    while i < k
        invariant
            k <= entries@.len(),
            i <= k,
            forall|j: int| 0 <= j < entries@.len() ==> 0 <= (#[trigger] entries@[j]).count,
            s@ == spec_leaderboard_lines(entries_view(entries@), i as int),
        decreases k - i,
    {
        let line = entry_line(i + 1, &entries[i]);
        if i == 0 {
            s = line;
        } else {
            s.append("\n");
            s.append(line.as_str());
        }
        i += 1;
    }
    s
}

} // verus!

