//! The leaderboard scheduler's per-tick decision: once a minute the host
//! process hands the current instant to `post_needed_leaderboards`, which
//! walks every configured guild, localizes the instant to the guild's
//! time zone, and collects the leaderboard message for each guild whose
//! local minute is the publish moment. Sending the collected messages —
//! and surviving a failed send for one guild without giving up on the
//! others — is the host process's loop; the decision of what to send
//! where is all here.

use crate::leeting::{get_leaderboard_string, spec_leaderboard_string};
use crate::store::{
    has_server, is_monthly_leaderboard, LeetSetup, Server, SpecEntry, SpecSetup, SpecStore, Store,
};
use crate::timewin::{is_publish_moment, local_parts, localize, spec_is_publish_moment};
use vstd::prelude::*;

verus! {

/// A guild's configuration is due at instant `now`: its stored time-zone
/// name resolves, the localized minute is the publish moment, and the
/// guild's row exists.
pub open spec fn spec_is_due(st: SpecStore, s: SpecSetup, now: int) -> bool {
    &&& local_parts(now, s.timezone) is Some
    &&& spec_is_publish_moment(
        (local_parts(now, s.timezone)->0).0,
        (local_parts(now, s.timezone)->0).1,
    )
    &&& has_server(st.servers, s.guild_id)
}

/// The leaderboard entry limit a configuration's stored count imposes,
/// clamped to what a length can express.
pub open spec fn spec_limit(c: int) -> int {
    if c <= 0 {
        0
    } else if c > usize::MAX {
        usize::MAX as int
    } else {
        c
    }
}

/// The message one configured guild gets at instant `now`, where it is
/// due: the configured channel, and a rendering of some monthly
/// leaderboard of the guild for the localized instant's month, cut to the
/// configured entry limit.
pub open spec fn spec_publish_text(st: SpecStore, s: SpecSetup, now: int, text: Seq<char>) -> bool {
    exists|es: Seq<SpecEntry>|
        #![trigger spec_leaderboard_string(es, spec_limit(s.leaderboard_count))]
        {
            let p = local_parts(now, s.timezone)->0;
            &&& is_monthly_leaderboard(st.leets, s.guild_id, p.3 as int, p.4 as int, es)
            &&& text == spec_leaderboard_string(es, spec_limit(s.leaderboard_count))
        }
}

/// Decides one guild's publish for this tick: the channel and rendered
/// leaderboard when the guild's local minute is the publish moment,
/// nothing otherwise (also nothing when the stored time-zone name does
/// not resolve or the guild's row is gone — that guild is skipped, never
/// the tick).
pub fn post_one_leaderboard(store: &Store, setup: &LeetSetup, now_secs: i64) -> (r: Option<
    (String, String),
>)
    requires
        store@.leets.len() <= i64::MAX,
    ensures
        r is Some <==> spec_is_due(store@, setup@, now_secs as int),
        r matches Some(o) ==> o.0@ == setup@.leaderboard_channel && spec_publish_text(
            store@,
            setup@,
            now_secs as int,
            o.1@,
        ),
{
    let local = match localize(now_secs, setup.timezone.as_str()) {
        Some(l) => l,
        None => {
            return None;
        },
    };
    if !is_publish_moment(local.hour, local.minute) {
        return None;
    }
    let server = match Server::get(store, &setup.guild_id) {
        Some(s) => s,
        None => {
            return None;
        },
    };
    let leaderboard = server.get_montly_leaderboard(store, local.month as i64, local.year as i64);
    let max_count: usize = if setup.leaderboard_count <= 0 {
        0
    } else if setup.leaderboard_count as u64 > usize::MAX as u64 {
        usize::MAX
    } else {
        setup.leaderboard_count as usize
    };
    assert(max_count as int == spec_limit(setup@.leaderboard_count));
    proof {
        let es = crate::store::entries_view(leaderboard@);
        assert forall|i: int| 0 <= i < leaderboard@.len() implies 0 <= (
        #[trigger] leaderboard@[i]).count by {
            assert(es[i] == leaderboard@[i]@);
            assert(es[i].count > 0);
        }
    }
    let text = get_leaderboard_string(&leaderboard, max_count);
    Some((setup.leaderboard_channel.clone(), text))
}

/// One scheduler tick: every configured guild whose local minute at
/// `now_secs` is the publish moment contributes one (channel, text) pair,
/// in configuration order; guilds whose time zone does not resolve, whose
/// row is gone, or whose local minute is any other minute contribute
/// nothing. Each pair is independent of every other guild's fate.
pub fn post_needed_leaderboards(store: &Store, now_secs: i64) -> (r: Vec<(String, String)>)
    requires
        store@.leets.len() <= i64::MAX,
    ensures
        ({
            let due = store@.setups.filter(
                |s: SpecSetup| spec_is_due(store@, s, now_secs as int),
            );
            &&& r@.len() == due.len()
            &&& forall|k: int|
                0 <= k < due.len() ==> (#[trigger] r@[k]).0@ == due[k].leaderboard_channel
            &&& forall|k: int|
                0 <= k < due.len() ==> spec_publish_text(
                    store@,
                    due[k],
                    now_secs as int,
                    (#[trigger] r@[k]).1@,
                )
        }),
{
    let ghost pred = |s: SpecSetup| spec_is_due(store@, s, now_secs as int);
    let setups = Server::get_all_leet_setups(store);
    let n = setups.len();
    let mut r: Vec<(String, String)> = Vec::new();
    let mut i: usize = 0;
    while i < n
        invariant
            n == setups@.len(),
            i <= n,
            setups@.len() == store@.setups.len(),
            forall|j: int| 0 <= j < n ==> (#[trigger] setups@[j])@ == store@.setups[j],
            store@.leets.len() <= i64::MAX,
            pred == (|s: SpecSetup| spec_is_due(store@, s, now_secs as int)),
            ({
                let due = store@.setups.subrange(0, i as int).filter(pred);
                &&& r@.len() == due.len()
                &&& forall|k: int|
                    0 <= k < due.len() ==> (#[trigger] r@[k]).0@ == due[k].leaderboard_channel
                &&& forall|k: int|
                    0 <= k < due.len() ==> spec_publish_text(
                        store@,
                        due[k],
                        now_secs as int,
                        (#[trigger] r@[k]).1@,
                    )
            }),
        decreases n - i,
    {
        let ghost due_before = store@.setups.subrange(0, i as int).filter(pred);
        proof {
            assert(store@.setups.subrange(0, (i + 1) as int) =~= store@.setups.subrange(
                0,
                i as int,
            ).push(store@.setups[i as int]));
            lemma_filter_push_setups(store@.setups.subrange(0, i as int), pred, store@.setups[
                i as int]);
        }
        match post_one_leaderboard(store, &setups[i], now_secs) {
            Some(o) => {
                r.push(o);
            },
            None => {
            },
        }
        i += 1;
    }
    proof {
        assert(store@.setups.subrange(0, n as int) =~= store@.setups);
    }
    r
}

/// Appending one configuration to a sequence extends its filtered form by
/// that configuration exactly when it satisfies the predicate.
proof fn lemma_filter_push_setups(s: Seq<SpecSetup>, pred: spec_fn(SpecSetup) -> bool, e: SpecSetup)
    ensures
        pred(e) ==> s.push(e).filter(pred) == s.filter(pred).push(e),
        !pred(e) ==> s.push(e).filter(pred) == s.filter(pred),
{
    reveal(Seq::filter);
    assert(s.push(e).drop_last() =~= s);
    assert(s.push(e).last() == e);
}

/// Every element of a filtered sequence stands in the sequence it was
/// filtered from.
proof fn lemma_filter_membership(s: Seq<SpecSetup>, pred: spec_fn(SpecSetup) -> bool)
    ensures
        forall|i: int|
            0 <= i < s.filter(pred).len() ==> exists|k: int|
                0 <= k < s.len() && s[k] == #[trigger] s.filter(pred)[i],
    decreases s.len(),
{
    reveal(Seq::filter);
    if s.len() > 0 {
        lemma_filter_membership(s.drop_last(), pred);
        let sub = s.drop_last().filter(pred);
        assert forall|i: int| 0 <= i < s.filter(pred).len() implies exists|k: int|
            0 <= k < s.len() && s[k] == #[trigger] s.filter(pred)[i] by {
            if i < sub.len() {
                let k = choose|k: int| 0 <= k < s.drop_last().len() && s.drop_last()[k] == sub[i];
                assert(s[k] == s.filter(pred)[i]);
            } else {
                assert(s[s.len() - 1] == s.filter(pred)[i]);
            }
        }
    }
}

/// Filtering keeps configurations of pairwise distinct guilds pairwise
/// distinct.
proof fn lemma_filter_distinct_guilds(s: Seq<SpecSetup>, pred: spec_fn(SpecSetup) -> bool)
    requires
        forall|i: int, j: int|
            0 <= i < j < s.len() ==> (#[trigger] s[i]).guild_id != (#[trigger] s[j]).guild_id,
    ensures
        forall|i: int, j: int|
            0 <= i < j < s.filter(pred).len() ==> (#[trigger] s.filter(pred)[i]).guild_id != (
            #[trigger] s.filter(pred)[j]).guild_id,
    decreases s.len(),
{
    reveal(Seq::filter);
    if s.len() > 0 {
        let sub = s.drop_last().filter(pred);
        assert forall|i: int, j: int|
            0 <= i < j < s.drop_last().len() implies (#[trigger] s.drop_last()[i]).guild_id != (
        #[trigger] s.drop_last()[j]).guild_id by {
            assert(s.drop_last()[i] == s[i]);
            assert(s.drop_last()[j] == s[j]);
        }
        lemma_filter_distinct_guilds(s.drop_last(), pred);
        lemma_filter_membership(s.drop_last(), pred);
        if pred(s.last()) {
            assert forall|i: int, j: int|
                0 <= i < j < s.filter(pred).len() implies (
            #[trigger] s.filter(pred)[i]).guild_id != (#[trigger] s.filter(pred)[j]).guild_id by {
                if j == s.filter(pred).len() - 1 {
                    assert(s.filter(pred)[i] == sub[i]);
                    let k = choose|k: int|
                        0 <= k < s.drop_last().len() && s.drop_last()[k] == sub[i];
                    assert(s[k].guild_id != s[s.len() - 1].guild_id);
                } else {
                    assert(s.filter(pred)[i] == sub[i]);
                    assert(s.filter(pred)[j] == sub[j]);
                }
            }
        }
    }
}

/// A tick publishes at most one message per guild: in a well-formed store
/// the due configurations carry pairwise distinct guilds, so each guild
/// contributes at most one (channel, text) pair.
pub proof fn lemma_one_publish_per_guild(st: Store, now: int, i: int, j: int)
    requires
        st.wf(),
        0 <= i < j < st@.setups.filter(|s: SpecSetup| spec_is_due(st@, s, now)).len(),
    ensures
        (st@.setups.filter(|s: SpecSetup| spec_is_due(st@, s, now))[i]).guild_id != (st@.setups.filter(
            |s: SpecSetup| spec_is_due(st@, s, now),
        )[j]).guild_id,
{
    lemma_filter_distinct_guilds(st@.setups, |s: SpecSetup| spec_is_due(st@, s, now));
}

} // verus!
