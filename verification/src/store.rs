//! The storage model: per-guild rows, per-guild configuration rows, and
//! per-user daily achievement rows, with the uniqueness invariants the
//! persisted schema enforces — one row per guild, one configuration per
//! guild, and at most one achievement record per
//! (guild, user, day, month, year) tuple.

use vstd::prelude::*;

verus! {

/// Error a storage insert reports when the row's unique key already exists.
#[derive(Clone, Copy, Debug, PartialEq, Eq, Structural)]
pub enum StoreError {
    UniqueViolation,
}

/// A guild (chat server) known to the bot, created on first interaction.
#[derive(Clone, Debug)]
pub struct Server {
    guild_id: String,
}

/// A guild's one-time leet configuration: time zone, leaderboard
/// destination channel and entry limit, and the three reaction symbols.
#[derive(Debug)]
pub struct LeetSetup {
    pub guild_id: String,
    pub timezone: String,
    pub leaderboard_channel: String,
    pub leaderboard_count: i64,
    pub accept_emoji: String,
    pub deny_emoji: String,
    pub repeat_emoji: String,
}

/// One user's achievement record for one local calendar day in one guild.
#[derive(Debug)]
pub struct Leet {
    pub guild_id: String,
    pub user_id: String,
    pub day: i64,
    pub month: i64,
    pub year: i64,
}

/// One line of a monthly leaderboard: a user and that user's count of
/// achievement records in the month.
#[derive(Debug)]
pub struct LeaderboardEntry {
    pub user_id: String,
    pub count: i64,
}

/// Mathematical image of a `LeetSetup`.
pub ghost struct SpecSetup {
    pub guild_id: Seq<char>,
    pub timezone: Seq<char>,
    pub leaderboard_channel: Seq<char>,
    pub leaderboard_count: int,
    pub accept_emoji: Seq<char>,
    pub deny_emoji: Seq<char>,
    pub repeat_emoji: Seq<char>,
}

/// Mathematical image of a `Leet`.
pub ghost struct SpecLeet {
    pub guild_id: Seq<char>,
    pub user_id: Seq<char>,
    pub day: int,
    pub month: int,
    pub year: int,
}

/// Mathematical image of a `LeaderboardEntry`.
pub ghost struct SpecEntry {
    pub user_id: Seq<char>,
    pub count: int,
}

/// Mathematical image of a `Store`.
pub ghost struct SpecStore {
    pub servers: Seq<Seq<char>>,
    pub setups: Seq<SpecSetup>,
    pub leets: Seq<SpecLeet>,
}

impl View for Server {
    type V = Seq<char>;

    closed spec fn view(&self) -> Seq<char> {
        self.guild_id@
    }
}

impl View for LeetSetup {
    type V = SpecSetup;

    open spec fn view(&self) -> SpecSetup {
        SpecSetup {
            guild_id: self.guild_id@,
            timezone: self.timezone@,
            leaderboard_channel: self.leaderboard_channel@,
            leaderboard_count: self.leaderboard_count as int,
            accept_emoji: self.accept_emoji@,
            deny_emoji: self.deny_emoji@,
            repeat_emoji: self.repeat_emoji@,
        }
    }
}

impl View for Leet {
    type V = SpecLeet;

    open spec fn view(&self) -> SpecLeet {
        SpecLeet {
            guild_id: self.guild_id@,
            user_id: self.user_id@,
            day: self.day as int,
            month: self.month as int,
            year: self.year as int,
        }
    }
}

impl View for LeaderboardEntry {
    type V = SpecEntry;

    open spec fn view(&self) -> SpecEntry {
        SpecEntry { user_id: self.user_id@, count: self.count as int }
    }
}

/// Some guild row carries the identifier `g`.
pub open spec fn has_server(servers: Seq<Seq<char>>, g: Seq<char>) -> bool {
    exists|i: int| 0 <= i < servers.len() && servers[i] == g
}

/// Some configuration row belongs to the guild `g`.
pub open spec fn has_setup(setups: Seq<SpecSetup>, g: Seq<char>) -> bool {
    exists|i: int| 0 <= i < setups.len() && (#[trigger] setups[i]).guild_id == g
}

/// The configuration rows for guild `g` include `s` (under the store's
/// invariant there is at most one).
pub open spec fn is_setup_for(setups: Seq<SpecSetup>, g: Seq<char>, s: SpecSetup) -> bool {
    s.guild_id == g && exists|i: int| 0 <= i < setups.len() && setups[i] == s
}

/// The identity tuple of an achievement record.
pub open spec fn leet_key(l: SpecLeet) -> (Seq<char>, Seq<char>, int, int, int) {
    (l.guild_id, l.user_id, l.day, l.month, l.year)
}

/// Some achievement record carries exactly this identity tuple.
pub open spec fn has_leet(
    leets: Seq<SpecLeet>,
    g: Seq<char>,
    u: Seq<char>,
    day: int,
    month: int,
    year: int,
) -> bool {
    exists|i: int|
        0 <= i < leets.len() && #[trigger] leet_key(leets[i]) == (g, u, day, month, year)
}

/// The in-memory store modelling the persisted state: guild rows,
/// configuration rows and achievement rows. All mutation goes through the
/// `Server` methods, which keep the uniqueness invariants.
pub struct Store {
    servers: Vec<Server>,
    setups: Vec<LeetSetup>,
    leets: Vec<Leet>,
}

impl View for Store {
    type V = SpecStore;

    closed spec fn view(&self) -> SpecStore {
        SpecStore {
            servers: Seq::new(self.servers@.len(), |i: int| self.servers@[i]@),
            setups: Seq::new(self.setups@.len(), |i: int| self.setups@[i]@),
            leets: Seq::new(self.leets@.len(), |i: int| self.leets@[i]@),
        }
    }
}

impl Store {
    /// The schema's uniqueness constraints: guild identifiers are unique,
    /// at most one configuration per guild, and at most one achievement
    /// record per identity tuple.
    pub open spec fn wf(self) -> bool {
        &&& forall|i: int, j: int|
            0 <= i < j < self@.servers.len() ==> self@.servers[i] != self@.servers[j]
        &&& forall|i: int, j: int|
            0 <= i < j < self@.setups.len() ==> (#[trigger] self@.setups[i]).guild_id != (
            #[trigger] self@.setups[j]).guild_id
        &&& forall|i: int, j: int|
            0 <= i < j < self@.leets.len() ==> leet_key(#[trigger] self@.leets[i]) != leet_key(
            #[trigger] self@.leets[j])
    }

    /// An empty store.
    pub fn new() -> (s: Store)
        ensures
            s@.servers.len() == 0,
            s@.setups.len() == 0,
            s@.leets.len() == 0,
            s.wf(),
    {
        Store { servers: Vec::new(), setups: Vec::new(), leets: Vec::new() }
    }
}

impl Server {
    /// The guild identifier this row carries.
    pub fn guild_id(&self) -> (r: &String)
        ensures
            r@ == self@,
    {
        &self.guild_id
    }

    /// Inserts a new guild row. Fails with `UniqueViolation`, changing
    /// nothing, when a row with this identifier already exists.
    pub fn create(store: &mut Store, guild_id: &String) -> (r: Result<Server, StoreError>)
        requires
            old(store).wf(),
        ensures
            final(store).wf(),
            has_server(old(store)@.servers, guild_id@) ==> {
                &&& r == Result::<Server, StoreError>::Err(StoreError::UniqueViolation)
                &&& final(store)@ == old(store)@
            },
            !has_server(old(store)@.servers, guild_id@) ==> {
                &&& r is Ok
                &&& r->Ok_0@ == guild_id@
                &&& final(store)@.servers == old(store)@.servers.push(guild_id@)
                &&& final(store)@.setups == old(store)@.setups
                &&& final(store)@.leets == old(store)@.leets
            },
    {
        if Self::find(store, guild_id) {
            return Err(StoreError::UniqueViolation);
        }
        let row = Server { guild_id: guild_id.clone() };
        store.servers.push(Server { guild_id: guild_id.clone() });
        proof {
            assert(store@.servers =~= old(store)@.servers.push(guild_id@));
            assert(store@.setups =~= old(store)@.setups);
            assert(store@.leets =~= old(store)@.leets);
        }
        Ok(row)
    }

    /// Whether a guild row with this identifier exists.
    fn find(store: &Store, guild_id: &String) -> (r: bool)
        ensures
            r == has_server(store@.servers, guild_id@),
    {
        let n = store.servers.len();
        let mut i: usize = 0;
        while i < n
            invariant
                n == store@.servers.len(),
                i <= n,
                forall|j: int| 0 <= j < i ==> store@.servers[j] != guild_id@,
            decreases n - i,
        {
            if store.servers[i].guild_id == *guild_id {
                assert(store@.servers[i as int] == guild_id@);
                return true;
            }
            i += 1;
        }
        false
    }

    /// Fetches the guild row with this identifier, if one exists.
    pub fn get(store: &Store, guild_id: &String) -> (r: Option<Server>)
        ensures
            r is Some <==> has_server(store@.servers, guild_id@),
            r matches Some(s) ==> s@ == guild_id@,
    {
        if Self::find(store, guild_id) {
            Some(Server { guild_id: guild_id.clone() })
        } else {
            None
        }
    }

    /// Fetches the guild row with this identifier, inserting a bare row
    /// first when none exists. Idempotent: an existing store is unchanged.
    pub fn get_or_create(store: &mut Store, guild_id: &String) -> (r: Server)
        requires
            old(store).wf(),
        ensures
            final(store).wf(),
            r@ == guild_id@,
            has_server(final(store)@.servers, guild_id@),
            final(store)@.setups == old(store)@.setups,
            final(store)@.leets == old(store)@.leets,
            has_server(old(store)@.servers, guild_id@) ==> final(store)@ == old(store)@,
            !has_server(old(store)@.servers, guild_id@) ==> final(store)@.servers == old(
                store,
            )@.servers.push(guild_id@),
    {
        match Self::get(store, guild_id) {
            Some(s) => s,
            None => {
                match Self::create(store, guild_id) {
                    Ok(s) => {
                        assert(store@.servers[store@.servers.len() - 1] == guild_id@);
                        s
                    },
                    Err(_) => {
                        // unreachable: no row carried this identifier above
                        proof {
                            assert(false);
                        }
                        Server { guild_id: guild_id.clone() }
                    },
                }
            },
        }
    }
    /// Fetches this guild's configuration row, if one exists.
    pub fn get_leet_setup(&self, store: &Store) -> (r: Option<LeetSetup>)
        ensures
            r is Some <==> has_setup(store@.setups, self@),
            r matches Some(s) ==> is_setup_for(store@.setups, self@, s@),
    {
        let n = store.setups.len();
        let mut i: usize = 0;
        while i < n
            invariant
                n == store@.setups.len(),
                i <= n,
                forall|j: int| 0 <= j < i ==> (#[trigger] store@.setups[j]).guild_id != self@,
            decreases n - i,
        {
            if store.setups[i].guild_id == self.guild_id {
                assert(store@.setups[i as int].guild_id == self@);
                let r = clone_setup(&store.setups[i]);
                assert(r@ == store@.setups[i as int]);
                return Some(r);
            }
            i += 1;
        }
        None
    }

    /// Inserts this guild's one-time configuration. Fails with
    /// `UniqueViolation`, changing nothing, when the guild already has one:
    /// a configuration is never overwritten.
    pub fn setup_leet(
        &self,
        store: &mut Store,
        timezone: &String,
        leaderboard_channel: &String,
        leaderboard_count: i32,
        accept_emoji: &String,
        deny_emoji: &String,
        repeat_emoji: &String,
    ) -> (r: Result<(), StoreError>)
        requires
            old(store).wf(),
        ensures
            final(store).wf(),
            has_setup(old(store)@.setups, self@) ==> {
                &&& r == Result::<(), StoreError>::Err(StoreError::UniqueViolation)
                &&& final(store)@ == old(store)@
            },
            !has_setup(old(store)@.setups, self@) ==> {
                &&& r is Ok
                &&& final(store)@.setups == old(store)@.setups.push(
                    SpecSetup {
                        guild_id: self@,
                        timezone: timezone@,
                        leaderboard_channel: leaderboard_channel@,
                        leaderboard_count: leaderboard_count as int,
                        accept_emoji: accept_emoji@,
                        deny_emoji: deny_emoji@,
                        repeat_emoji: repeat_emoji@,
                    },
                )
                &&& final(store)@.servers == old(store)@.servers
                &&& final(store)@.leets == old(store)@.leets
            },
    {
        if self.get_leet_setup(store).is_some() {
            return Err(StoreError::UniqueViolation);
        }
        let row = LeetSetup {
            guild_id: self.guild_id.clone(),
            timezone: timezone.clone(),
            leaderboard_channel: leaderboard_channel.clone(),
            leaderboard_count: leaderboard_count as i64,
            accept_emoji: accept_emoji.clone(),
            deny_emoji: deny_emoji.clone(),
            repeat_emoji: repeat_emoji.clone(),
        };
        store.setups.push(row);
        proof {
            assert(store@.setups =~= old(store)@.setups.push(
                SpecSetup {
                    guild_id: self@,
                    timezone: timezone@,
                    leaderboard_channel: leaderboard_channel@,
                    leaderboard_count: leaderboard_count as int,
                    accept_emoji: accept_emoji@,
                    deny_emoji: deny_emoji@,
                    repeat_emoji: repeat_emoji@,
                },
            ));
            assert(store@.servers =~= old(store)@.servers);
            assert(store@.leets =~= old(store)@.leets);
        }
        Ok(())
    }

    /// Fetches this guild's achievement record for one user and local
    /// calendar day, if one exists.
    pub fn get_leet(
        &self,
        store: &Store,
        user_id: &str,
        day: i64,
        month: i64,
        year: i64,
    ) -> (r: Option<Leet>)
        ensures
            r is Some <==> has_leet(
                store@.leets,
                self@,
                user_id@,
                day as int,
                month as int,
                year as int,
            ),
            r matches Some(l) ==> l@ == (SpecLeet {
                guild_id: self@,
                user_id: user_id@,
                day: day as int,
                month: month as int,
                year: year as int,
            }),
    {
        let n = store.leets.len();
        let mut i: usize = 0;
        while i < n
            invariant
                n == store@.leets.len(),
                i <= n,
                forall|j: int|
                    0 <= j < i ==> #[trigger] leet_key(store@.leets[j]) != (
                    self@,
                    user_id@,
                    day as int,
                    month as int,
                    year as int,
                ),
            decreases n - i,
        {
            let l = &store.leets[i];
            if l.guild_id == self.guild_id && string_eq_str(&l.user_id, user_id) && l.day == day
                && l.month == month && l.year == year {
                assert(leet_key(store@.leets[i as int]) == (
                    self@,
                    user_id@,
                    day as int,
                    month as int,
                    year as int,
                ));
                return Some(
                    Leet {
                        guild_id: self.guild_id.clone(),
                        user_id: string_from_str(user_id),
                        day,
                        month,
                        year,
                    },
                );
            }
            i += 1;
        }
        None
    }

    /// Inserts an achievement record for one user and local calendar day.
    /// Fails with `UniqueViolation`, changing nothing, when a record with
    /// the same identity tuple already exists: the record count for a
    /// tuple never goes above one.
    pub fn add_leet(
        &self,
        store: &mut Store,
        user_id: &str,
        day: i64,
        month: i64,
        year: i64,
    ) -> (r: Result<(), StoreError>)
        requires
            old(store).wf(),
        ensures
            final(store).wf(),
            has_leet(old(store)@.leets, self@, user_id@, day as int, month as int, year as int)
                ==> {
                &&& r == Result::<(), StoreError>::Err(StoreError::UniqueViolation)
                &&& final(store)@ == old(store)@
            },
            !has_leet(old(store)@.leets, self@, user_id@, day as int, month as int, year as int)
                ==> {
                &&& r is Ok
                &&& final(store)@.leets == old(store)@.leets.push(
                    SpecLeet {
                        guild_id: self@,
                        user_id: user_id@,
                        day: day as int,
                        month: month as int,
                        year: year as int,
                    },
                )
                &&& final(store)@.servers == old(store)@.servers
                &&& final(store)@.setups == old(store)@.setups
            },
    {
        if self.get_leet(store, user_id, day, month, year).is_some() {
            return Err(StoreError::UniqueViolation);
        }
        let row = Leet {
            guild_id: self.guild_id.clone(),
            user_id: string_from_str(user_id),
            day,
            month,
            year,
        };
        store.leets.push(row);
        proof {
            assert(store@.leets =~= old(store)@.leets.push(
                SpecLeet {
                    guild_id: self@,
                    user_id: user_id@,
                    day: day as int,
                    month: month as int,
                    year: year as int,
                },
            ));
            assert(store@.servers =~= old(store)@.servers);
            assert(store@.setups =~= old(store)@.setups);
        }
        Ok(())
    }

    /// All configuration rows, in insertion order; what the scheduler
    /// walks once per minute.
    pub fn get_all_leet_setups(store: &Store) -> (r: Vec<LeetSetup>)
        ensures
            r@.len() == store@.setups.len(),
            forall|i: int| 0 <= i < r@.len() ==> r@[i]@ == store@.setups[i],
    {
        let n = store.setups.len();
        let mut r: Vec<LeetSetup> = Vec::new();
        let mut i: usize = 0;
        while i < n
            invariant
                n == store@.setups.len(),
                i <= n,
                r@.len() == i,
                forall|j: int| 0 <= j < i ==> r@[j]@ == store@.setups[j],
            decreases n - i,
        {
            r.push(clone_setup(&store.setups[i]));
            i += 1;
        }
        r
    }
}

/// An achievement record belongs to guild `g` and calendar month `m` of
/// year `y`.
pub open spec fn leet_in_month(l: SpecLeet, g: Seq<char>, m: int, y: int) -> bool {
    l.guild_id == g && l.month == m && l.year == y
}

/// How many achievement records user `u` has in guild `g` for calendar
/// month `m` of year `y`.
pub open spec fn user_month_count(
    leets: Seq<SpecLeet>,
    g: Seq<char>,
    u: Seq<char>,
    m: int,
    y: int,
) -> nat {
    leets.filter(|l: SpecLeet| leet_in_month(l, g, m, y) && l.user_id == u).len()
}

/// The view of a sequence of leaderboard entries.
pub open spec fn entries_view(entries: Seq<LeaderboardEntry>) -> Seq<SpecEntry> {
    Seq::new(entries.len(), |i: int| entries[i]@)
}

/// What it means for `entries` to be a monthly leaderboard of guild `g`
/// for month `m` of year `y` over the records `leets`: one entry per user
/// with at least one record in the month, carrying that user's record
/// count, sorted by count descending.
pub open spec fn is_monthly_leaderboard(
    leets: Seq<SpecLeet>,
    g: Seq<char>,
    m: int,
    y: int,
    entries: Seq<SpecEntry>,
) -> bool {
    &&& forall|i: int|
        0 <= i < entries.len() ==> (#[trigger] entries[i]).count == user_month_count(
            leets,
            g,
            entries[i].user_id,
            m,
            y,
        )
    &&& forall|i: int| 0 <= i < entries.len() ==> (#[trigger] entries[i]).count > 0
    &&& forall|i: int, j: int|
        0 <= i < j < entries.len() ==> (#[trigger] entries[i]).user_id != (
        #[trigger] entries[j]).user_id
    &&& forall|k: int|
        0 <= k < leets.len() && leet_in_month(#[trigger] leets[k], g, m, y) ==> exists|i: int|
            0 <= i < entries.len() && (#[trigger] entries[i]).user_id == leets[k].user_id
    &&& forall|i: int, j: int|
        0 <= i <= j < entries.len() ==> (#[trigger] entries[i]).count >= (
        #[trigger] entries[j]).count
}

/// The position of the first achievement record in `leets` that belongs
/// to guild `g`, user `u` and calendar month `m` of year `y`; the length
/// of `leets` when there is none. Equal counts on the leaderboard are
/// ordered by this position, which makes the ranking deterministic.
pub open spec fn first_seen_at(
    leets: Seq<SpecLeet>,
    g: Seq<char>,
    u: Seq<char>,
    m: int,
    y: int,
) -> int
    decreases leets.len(),
{
    if leets.len() == 0 {
        0
    } else if leet_in_month(leets[0], g, m, y) && leets[0].user_id == u {
        0
    } else {
        1 + first_seen_at(leets.drop_first(), g, u, m, y)
    }
}

/// What the first-seen position means: no earlier record matches, and the
/// record at the position itself matches where one exists at all.
proof fn lemma_first_seen(leets: Seq<SpecLeet>, g: Seq<char>, u: Seq<char>, m: int, y: int)
    ensures
        0 <= first_seen_at(leets, g, u, m, y) <= leets.len(),
        forall|k: int|
            0 <= k < first_seen_at(leets, g, u, m, y) ==> !(leet_in_month(
                #[trigger] leets[k],
                g,
                m,
                y,
            ) && leets[k].user_id == u),
        first_seen_at(leets, g, u, m, y) < leets.len() ==> leet_in_month(
            leets[first_seen_at(leets, g, u, m, y)],
            g,
            m,
            y,
        ) && leets[first_seen_at(leets, g, u, m, y)].user_id == u,
    decreases leets.len(),
{
    if leets.len() > 0 {
        if !(leet_in_month(leets[0], g, m, y) && leets[0].user_id == u) {
            lemma_first_seen(leets.drop_first(), g, u, m, y);
            assert forall|k: int| 0 <= k < first_seen_at(leets, g, u, m, y) implies !(
            leet_in_month(#[trigger] leets[k], g, m, y) && leets[k].user_id == u) by {
                if k > 0 {
                    assert(leets.drop_first()[k - 1] == leets[k]);
                }
            }
            if first_seen_at(leets, g, u, m, y) < leets.len() {
                assert(leets.drop_first()[first_seen_at(leets.drop_first(), g, u, m, y)]
                    == leets[first_seen_at(leets, g, u, m, y)]);
            }
        }
    }
}

/// Appending one element to a sequence grows its filtered length by one
/// exactly when the element satisfies the predicate.
proof fn lemma_filter_push<A>(s: Seq<A>, pred: spec_fn(A) -> bool, e: A)
    ensures
        pred(e) ==> s.push(e).filter(pred) == s.filter(pred).push(e),
        !pred(e) ==> s.push(e).filter(pred) == s.filter(pred),
{
    reveal(Seq::filter);
    assert(s.push(e).drop_last() =~= s);
    assert(s.push(e).last() == e);
}

/// A sequence none of whose elements satisfies the predicate filters to
/// the empty sequence.
proof fn lemma_filter_all_false<A>(s: Seq<A>, pred: spec_fn(A) -> bool)
    requires
        forall|i: int| 0 <= i < s.len() ==> !pred(#[trigger] s[i]),
    ensures
        s.filter(pred).len() == 0,
    decreases s.len(),
{
    reveal(Seq::filter);
    if s.len() > 0 {
        lemma_filter_all_false(s.drop_last(), pred);
    }
}

/// One more achievement record for user `u` in the month: the count over
/// the records up to and including position `t` exceeds the count up to
/// `t` by one exactly when record `t` is `u`'s and falls in the month.
proof fn lemma_count_extend(
    leets: Seq<SpecLeet>,
    t: int,
    g: Seq<char>,
    u: Seq<char>,
    m: int,
    y: int,
)
    requires
        0 <= t < leets.len(),
    ensures
        leet_in_month(leets[t], g, m, y) && leets[t].user_id == u ==> user_month_count(
            leets.subrange(0, t + 1),
            g,
            u,
            m,
            y,
        ) == user_month_count(leets.subrange(0, t), g, u, m, y) + 1,
        !(leet_in_month(leets[t], g, m, y) && leets[t].user_id == u) ==> user_month_count(
            leets.subrange(0, t + 1),
            g,
            u,
            m,
            y,
        ) == user_month_count(leets.subrange(0, t), g, u, m, y),
{
    assert(leets.subrange(0, t + 1) =~= leets.subrange(0, t).push(leets[t]));
    lemma_filter_push(
        leets.subrange(0, t),
        |l: SpecLeet| leet_in_month(l, g, m, y) && l.user_id == u,
        leets[t],
    );
}

/// The index of the entry carrying `user`, where one exists.
fn find_user(agg: &Vec<LeaderboardEntry>, user: &String) -> (r: Option<usize>)
    ensures
        r matches Some(i) ==> i < agg@.len() && agg@[i as int]@.user_id == user@,
        r is None ==> forall|i: int| 0 <= i < agg@.len() ==> (#[trigger] agg@[i])@.user_id != user@,
{
    let n = agg.len();
    let mut i: usize = 0;
    while i < n
        invariant
            n == agg@.len(),
            i <= n,
            forall|j: int| 0 <= j < i ==> (#[trigger] agg@[j])@.user_id != user@,
        decreases n - i,
    {
        if agg[i].user_id == *user {
            return Some(i);
        }
        i += 1;
    }
    None
}

/// Inserting an element into a sequence: afterwards the sequence holds
/// exactly what it held before, plus the new element.
proof fn lemma_insert_contains<A>(s: Seq<A>, p: int, e: A, x: A)
    requires
        0 <= p <= s.len(),
    ensures
        s.insert(p, e).contains(x) <==> (s.contains(x) || x == e),
{
    s.insert_ensures(p, e);
    let t = s.insert(p, e);
    if s.contains(x) {
        let i = choose|i: int| 0 <= i < s.len() && s[i] == x;
        if i < p {
            assert(t[i] == x);
        } else {
            assert(t[i + 1] == x);
        }
    }
    if x == e {
        assert(t[p] == x);
    }
    if t.contains(x) {
        let i = choose|i: int| 0 <= i < t.len() && t[i] == x;
        if i < p {
            assert(s[i] == x);
        } else if i == p {
            assert(x == e);
        } else {
            assert(s[i - 1] == x);
        }
    }
}

impl Server {
    /// The guild's leaderboard for one calendar month: one entry per user
    /// with at least one achievement record in that month, carrying that
    /// user's record count, ordered by count descending (ties keep the
    /// order in which the users' first records stand in the store).
    #[verifier::rlimit(60)]
    pub fn get_montly_leaderboard(&self, store: &Store, month: i64, year: i64) -> (r: Vec<
        LeaderboardEntry,
    >)
        requires
            store@.leets.len() <= i64::MAX,
        ensures
            is_monthly_leaderboard(store@.leets, self@, month as int, year as int, entries_view(r@)),
            forall|i: int, j: int|
                0 <= i < j < r@.len() && (#[trigger] r@[i])@.count == (#[trigger] r@[j])@.count
                    ==> first_seen_at(store@.leets, self@, r@[i]@.user_id, month as int, year as int)
                    < first_seen_at(store@.leets, self@, r@[j]@.user_id, month as int, year as int),
    {
        let ghost g = self@;
        let ghost m = month as int;
        let ghost y = year as int;
        let n = store.leets.len();
        let mut agg: Vec<LeaderboardEntry> = Vec::new();
        let mut t: usize = 0;
        while t < n
            invariant
                n == store@.leets.len(),
                n <= i64::MAX,
                t <= n,
                g == self@,
                m == month as int,
                y == year as int,
                forall|i: int|
                    0 <= i < agg@.len() ==> (#[trigger] agg@[i])@.count == user_month_count(
                        store@.leets.subrange(0, t as int),
                        g,
                        agg@[i]@.user_id,
                        m,
                        y,
                    ),
                forall|i: int| 0 <= i < agg@.len() ==> (#[trigger] agg@[i])@.count > 0,
                forall|i: int, j: int|
                    0 <= i < j < agg@.len() ==> (#[trigger] agg@[i])@.user_id != (
                    #[trigger] agg@[j])@.user_id,
                forall|k: int|
                    0 <= k < t && leet_in_month(#[trigger] store@.leets[k], g, m, y)
                        ==> exists|i: int|
                        0 <= i < agg@.len() && (#[trigger] agg@[i])@.user_id
                            == store@.leets[k].user_id,
                forall|i: int|
                    0 <= i < agg@.len() ==> first_seen_at(
                        store@.leets,
                        g,
                        (#[trigger] agg@[i])@.user_id,
                        m,
                        y,
                    ) < t,
                forall|i: int, j: int|
                    0 <= i < j < agg@.len() ==> first_seen_at(
                        store@.leets,
                        g,
                        (#[trigger] agg@[i])@.user_id,
                        m,
                        y,
                    ) < first_seen_at(store@.leets, g, (#[trigger] agg@[j])@.user_id, m, y),
            decreases n - t,
        {
            let l = &store.leets[t];
            let in_month = l.guild_id == self.guild_id && l.month == month && l.year == year;
            assert(in_month == leet_in_month(store@.leets[t as int], g, m, y));
            let ghost prev = agg@;
            if in_month {
                match find_user(&agg, &l.user_id) {
                    Some(idx) => {
                        let c = agg[idx].count;
                        proof {
                            store@.leets.subrange(0, t as int).lemma_filter_len(
                                |x: SpecLeet| leet_in_month(x, g, m, y) && x.user_id == agg@[
                                    idx as int]@.user_id,
                            );
                        }
                        let user = agg[idx].user_id.clone();
                        agg[idx] = LeaderboardEntry { user_id: user, count: c + 1 };
                        proof {
                            assert(forall|i: int|
                                0 <= i < agg@.len() ==> (#[trigger] agg@[i])@.user_id
                                    == prev[i]@.user_id);
                            assert(agg@[idx as int]@.user_id == store@.leets[t as int].user_id);
                            assert forall|i: int| 0 <= i < agg@.len() implies (
                            #[trigger] agg@[i])@.count == user_month_count(
                                store@.leets.subrange(0, (t + 1) as int),
                                g,
                                agg@[i]@.user_id,
                                m,
                                y,
                            ) by {
                                lemma_count_extend(store@.leets, t as int, g, agg@[i]@.user_id, m, y);
                                if i != idx as int {
                                    assert(agg@[i]@.user_id != agg@[idx as int]@.user_id);
                                }
                            }
                            assert forall|i: int| 0 <= i < agg@.len() implies first_seen_at(
                                store@.leets,
                                g,
                                (#[trigger] agg@[i])@.user_id,
                                m,
                                y,
                            ) < t + 1 by {
                                assert(agg@[i]@.user_id == prev[i]@.user_id);
                            }
                        }
                    },
                    None => {
                        proof {
                            let pred = |x: SpecLeet| leet_in_month(x, g, m, y) && x.user_id
                                == store@.leets[t as int].user_id;
                            assert forall|k: int|
                                0 <= k < store@.leets.subrange(0, t as int).len() implies !pred(
                                #[trigger] store@.leets.subrange(0, t as int)[k],
                            ) by {
                                if pred(store@.leets.subrange(0, t as int)[k]) {
                                    assert(leet_in_month(store@.leets[k], g, m, y));
                                }
                            }
                            lemma_filter_all_false(store@.leets.subrange(0, t as int), pred);
                        }
                        agg.push(LeaderboardEntry { user_id: l.user_id.clone(), count: 1 });
                        proof {
                            assert(agg@ == prev.push(agg@[prev.len() as int]));
                            assert(agg@[prev.len() as int]@.user_id
                                == store@.leets[t as int].user_id);
                            assert forall|i: int| 0 <= i < agg@.len() implies (
                            #[trigger] agg@[i])@.count == user_month_count(
                                store@.leets.subrange(0, (t + 1) as int),
                                g,
                                agg@[i]@.user_id,
                                m,
                                y,
                            ) by {
                                lemma_count_extend(store@.leets, t as int, g, agg@[i]@.user_id, m, y);
                            }
                            let u = store@.leets[t as int].user_id;
                            lemma_first_seen(store@.leets, g, u, m, y);
                            let fs = first_seen_at(store@.leets, g, u, m, y);
                            if fs < t {
                                assert(store@.leets.subrange(0, t as int)[fs] == store@.leets[fs]);
                                assert(false);
                            }
                            if fs > t {
                                assert(!(leet_in_month(store@.leets[t as int], g, m, y)
                                    && store@.leets[t as int].user_id == u));
                                assert(false);
                            }
                            assert(fs == t);
                            assert forall|i: int| 0 <= i < agg@.len() implies first_seen_at(
                                store@.leets,
                                g,
                                (#[trigger] agg@[i])@.user_id,
                                m,
                                y,
                            ) < t + 1 by {
                                if i < prev.len() {
                                    assert(agg@[i] == prev[i]);
                                }
                            }
                        }
                    },
                }
                assert(exists|i: int|
                    0 <= i < agg@.len() && (#[trigger] agg@[i])@.user_id
                        == store@.leets[t as int].user_id);
            } else {
                proof {
                    assert forall|i: int| 0 <= i < agg@.len() implies (#[trigger] agg@[i])@.count
                        == user_month_count(
                        store@.leets.subrange(0, (t + 1) as int),
                        g,
                        agg@[i]@.user_id,
                        m,
                        y,
                    ) by {
                        lemma_count_extend(store@.leets, t as int, g, agg@[i]@.user_id, m, y);
                    }
                }
            }
            proof {
                assert forall|k: int|
                    0 <= k < t + 1 && leet_in_month(#[trigger] store@.leets[k], g, m, y)
                        implies exists|i: int|
                    0 <= i < agg@.len() && (#[trigger] agg@[i])@.user_id
                        == store@.leets[k].user_id by {
                    if k < t {
                        let i = choose|i: int|
                            0 <= i < prev.len() && prev[i]@.user_id == store@.leets[k].user_id;
                        assert(agg@[i]@.user_id == store@.leets[k].user_id);
                    }
                }
            }
            t += 1;
        }
        proof {
            assert(store@.leets.subrange(0, n as int) =~= store@.leets);
        }
        // sort by count, descending; equal counts keep first-seen order
        let mut r: Vec<LeaderboardEntry> = Vec::new();
        let mut q: usize = 0;
        while q < agg.len()
            invariant
                q <= agg@.len(),
                r@.len() == q,
                g == self@,
                m == month as int,
                y == year as int,
                forall|i: int, j: int|
                    0 <= i < j < agg@.len() ==> first_seen_at(
                        store@.leets,
                        g,
                        (#[trigger] agg@[i])@.user_id,
                        m,
                        y,
                    ) < first_seen_at(store@.leets, g, (#[trigger] agg@[j])@.user_id, m, y),
                forall|i: int, j: int|
                    0 <= i < j < r@.len() && (#[trigger] r@[i])@.count == (
                    #[trigger] r@[j])@.count ==> first_seen_at(
                        store@.leets,
                        g,
                        r@[i]@.user_id,
                        m,
                        y,
                    ) < first_seen_at(store@.leets, g, r@[j]@.user_id, m, y),
                forall|i: int, j: int|
                    0 <= i <= j < r@.len() ==> (#[trigger] r@[i])@.count >= (
                    #[trigger] r@[j])@.count,
                forall|i: int|
                    0 <= i < r@.len() ==> exists|j: int| 0 <= j < q && agg@[j] == #[trigger] r@[i],
                forall|j: int| 0 <= j < q ==> r@.contains(#[trigger] agg@[j]),
                forall|i: int, j: int|
                    0 <= i < j < r@.len() ==> (#[trigger] r@[i])@.user_id != (
                    #[trigger] r@[j])@.user_id,
                forall|i: int, j: int|
                    0 <= i < j < agg@.len() ==> (#[trigger] agg@[i])@.user_id != (
                    #[trigger] agg@[j])@.user_id,
            decreases agg@.len() - q,
        {
            let e = LeaderboardEntry { user_id: agg[q].user_id.clone(), count: agg[q].count };
            assert(e == agg@[q as int]);
            let len = r.len();
            let mut p: usize = 0;
            while p < len && r[p].count >= e.count
                invariant
                    len == r@.len(),
                    p <= len,
                    e == agg@[q as int],
                    forall|i: int| 0 <= i < p ==> (#[trigger] r@[i])@.count >= e@.count,
                decreases len - p,
            {
                p += 1;
            }
            assert(p < len ==> r@[p as int]@.count < e@.count);
            let ghost before = r@;
            r.insert(p, e);
            proof {
                before.insert_ensures(p as int, e);
                assert forall|x: LeaderboardEntry| r@.contains(x) <==> (before.contains(x) || x
                    == e) by {
                    lemma_insert_contains(before, p as int, e, x);
                }
                assert(r@.contains(e));
                assert forall|j: int| 0 <= j < q + 1 implies r@.contains(#[trigger] agg@[j]) by {
                    if j < q {
                        assert(before.contains(agg@[j]));
                    } else {
                        assert(agg@[j] == e);
                    }
                }
                // the new element sits between the counts around it
                assert forall|i: int, j: int| 0 <= i <= j < r@.len() implies (
                #[trigger] r@[i])@.count >= (#[trigger] r@[j])@.count by {
                    if i < p && j > p {
                        assert(r@[i] == before[i]);
                        assert(r@[j] == before[j - 1]);
                    } else if i == p && j > p {
                        assert(r@[j] == before[j - 1]);
                        assert(before[j - 1]@.count <= before[p as int]@.count);
                    }
                }
                // every element of the result is some aggregated entry
                assert forall|i: int| 0 <= i < r@.len() implies exists|j: int|
                    0 <= j < q + 1 && agg@[j] == #[trigger] r@[i] by {
                    if i < p {
                        assert(r@[i] == before[i]);
                    } else if i == p {
                        assert(r@[i] == agg@[q as int]);
                    } else {
                        assert(r@[i] == before[i - 1]);
                    }
                }
                // equal counts keep first-seen order through the insertion
                assert forall|i: int, j: int|
                    0 <= i < j < r@.len() && (#[trigger] r@[i])@.count == (
                #[trigger] r@[j])@.count implies first_seen_at(
                    store@.leets,
                    g,
                    r@[i]@.user_id,
                    m,
                    y,
                ) < first_seen_at(store@.leets, g, r@[j]@.user_id, m, y) by {
                    if i == p as int {
                        // everything after the insertion point has a strictly
                        // smaller count than the inserted entry
                        assert(r@[j] == before[j - 1]);
                        assert(before[j - 1]@.count <= before[p as int]@.count);
                        assert(false);
                    } else if j == p as int {
                        assert(r@[i] == before[i]);
                        let ii = choose|ii: int| 0 <= ii < q && agg@[ii] == before[i];
                        assert(agg@[ii]@.user_id == r@[i]@.user_id);
                        assert(r@[j] == agg@[q as int]);
                    } else {
                        let a: int = if i < p as int { i } else { i - 1 };
                        let b: int = if j < p as int { j } else { j - 1 };
                        assert(r@[i] == before[a]);
                        assert(r@[j] == before[b]);
                    }
                }
                // users stay pairwise distinct
                assert forall|i: int, j: int| 0 <= i < j < r@.len() implies (
                #[trigger] r@[i])@.user_id != (#[trigger] r@[j])@.user_id by {
                    let a: int = if i < p { i } else { i - 1 };
                    let b: int = if j < p { j } else { j - 1 };
                    if i == p {
                        assert(r@[j] == before[b]);
                        let jj = choose|jj: int| 0 <= jj < q && agg@[jj] == before[b];
                        assert(agg@[jj]@.user_id != agg@[q as int]@.user_id);
                    } else if j == p {
                        assert(r@[i] == before[a]);
                        let ii = choose|ii: int| 0 <= ii < q && agg@[ii] == before[a];
                        assert(agg@[ii]@.user_id != agg@[q as int]@.user_id);
                    } else {
                        assert(r@[i] == before[a]);
                        assert(r@[j] == before[b]);
                    }
                }
            }
            q += 1;
        }
        proof {
            let es = entries_view(r@);
            assert(es.len() == r@.len());
            assert(forall|i: int| 0 <= i < es.len() ==> es[i] == (#[trigger] r@[i])@);
        }
        r
    }
}

/// At most one achievement record exists per (guild, user, day, month,
/// year) tuple: in a well-formed store, two records with the same
/// identity tuple are one and the same record.
pub proof fn lemma_at_most_one_record(st: Store, i: int, j: int)
    requires
        st.wf(),
        0 <= i < st@.leets.len(),
        0 <= j < st@.leets.len(),
        leet_key(st@.leets[i]) == leet_key(st@.leets[j]),
    ensures
        i == j,
{
}

/// The total count a leaderboard reports: the sum of its entries' counts.
pub open spec fn sum_counts(entries: Seq<SpecEntry>) -> int
    decreases entries.len(),
{
    if entries.len() == 0 {
        0
    } else {
        sum_counts(entries.drop_last()) + entries.last().count
    }
}

/// No entry of `entries` carries the user `u`.
pub open spec fn user_absent(entries: Seq<SpecEntry>, u: Seq<char>) -> bool {
    forall|i: int| 0 <= i < entries.len() ==> (#[trigger] entries[i]).user_id != u
}

/// A filter's length splits along any second predicate.
proof fn lemma_filter_split<A>(s: Seq<A>, p: spec_fn(A) -> bool, q: spec_fn(A) -> bool)
    ensures
        s.filter(p).len() == s.filter(|x: A| p(x) && q(x)).len() + s.filter(
            |x: A| p(x) && !q(x),
        ).len(),
    decreases s.len(),
{
    reveal(Seq::filter);
    if s.len() > 0 {
        lemma_filter_split(s.drop_last(), p, q);
    }
}

/// A predicate no two distinct positions satisfy filters to at most one
/// element.
proof fn lemma_filter_at_most_one<A>(s: Seq<A>, p: spec_fn(A) -> bool)
    requires
        forall|i: int, j: int|
            0 <= i < j < s.len() ==> !(p(#[trigger] s[i]) && p(#[trigger] s[j])),
    ensures
        s.filter(p).len() <= 1,
    decreases s.len(),
{
    reveal(Seq::filter);
    if s.len() > 0 {
        if p(s.last()) {
            assert forall|i: int| 0 <= i < s.drop_last().len() implies !p(
                #[trigger] s.drop_last()[i],
            ) by {
                assert(s.drop_last()[i] == s[i]);
            }
            lemma_filter_all_false(s.drop_last(), p);
        } else {
            lemma_filter_at_most_one(s.drop_last(), p);
        }
    }
}

/// Entries with correct per-user counts and pairwise distinct users
/// account for every record except those of users no entry carries.
proof fn lemma_sum_remaining(
    leets: Seq<SpecLeet>,
    entries: Seq<SpecEntry>,
    g: Seq<char>,
    m: int,
    y: int,
)
    requires
        forall|i: int|
            0 <= i < entries.len() ==> (#[trigger] entries[i]).count == user_month_count(
                leets,
                g,
                entries[i].user_id,
                m,
                y,
            ),
        forall|i: int, j: int|
            0 <= i < j < entries.len() ==> (#[trigger] entries[i]).user_id != (
            #[trigger] entries[j]).user_id,
    ensures
        leets.filter(|l: SpecLeet| leet_in_month(l, g, m, y)).len() == sum_counts(entries)
            + leets.filter(
            |l: SpecLeet| leet_in_month(l, g, m, y) && user_absent(entries, l.user_id),
        ).len(),
    decreases entries.len(),
{
    let month_pred = |l: SpecLeet| leet_in_month(l, g, m, y);
    if entries.len() == 0 {
        let p2 = |l: SpecLeet| leet_in_month(l, g, m, y) && user_absent(entries, l.user_id);
        assert(month_pred =~= p2);
    } else {
        let es = entries.drop_last();
        let e = entries.last();
        lemma_sum_remaining(leets, es, g, m, y);
        let rem_es = |l: SpecLeet| leet_in_month(l, g, m, y) && user_absent(es, l.user_id);
        let is_e = |l: SpecLeet| l.user_id == e.user_id;
        lemma_filter_split(leets, rem_es, is_e);
        // the part with e's user is exactly e's count
        let count_e = |l: SpecLeet| leet_in_month(l, g, m, y) && l.user_id == e.user_id;
        assert forall|l: SpecLeet| #[trigger] count_e(l) == (rem_es(l) && is_e(l)) by {
            if leet_in_month(l, g, m, y) && l.user_id == e.user_id {
                assert forall|i: int| 0 <= i < es.len() implies (#[trigger] es[i]).user_id
                    != l.user_id by {
                    assert(es[i] == entries[i]);
                    assert(entries[i].user_id != e.user_id);
                }
            }
        }
        assert((|l: SpecLeet| rem_es(l) && is_e(l)) =~= count_e);
        // the remainder is what no entry of the whole list carries
        let rem_all = |l: SpecLeet| leet_in_month(l, g, m, y) && user_absent(entries, l.user_id);
        assert forall|l: SpecLeet| #[trigger] rem_all(l) == (rem_es(l) && !is_e(l)) by {
            if leet_in_month(l, g, m, y) {
                if user_absent(entries, l.user_id) {
                    assert forall|i: int| 0 <= i < es.len() implies (#[trigger] es[i]).user_id
                        != l.user_id by {
                        assert(es[i] == entries[i]);
                    }
                    assert(entries[entries.len() - 1].user_id != l.user_id);
                } else if user_absent(es, l.user_id) && l.user_id != e.user_id {
                    assert forall|i: int| 0 <= i < entries.len() implies (
                    #[trigger] entries[i]).user_id != l.user_id by {
                        if i < entries.len() - 1 {
                            assert(entries[i] == es[i]);
                        }
                    }
                }
            }
        }
        assert((|l: SpecLeet| rem_es(l) && !is_e(l)) =~= rem_all);
        assert(e.count == leets.filter(count_e).len());
    }
}

/// Round trip from records to leaderboard: a monthly leaderboard's counts
/// sum to exactly the number of achievement records the guild has in that
/// month — every record is counted once and nothing else is counted.
pub proof fn lemma_leaderboard_total(
    leets: Seq<SpecLeet>,
    g: Seq<char>,
    m: int,
    y: int,
    entries: Seq<SpecEntry>,
)
    requires
        is_monthly_leaderboard(leets, g, m, y, entries),
    ensures
        sum_counts(entries) == leets.filter(|l: SpecLeet| leet_in_month(l, g, m, y)).len(),
{
    lemma_sum_remaining(leets, entries, g, m, y);
    let rem = |l: SpecLeet| leet_in_month(l, g, m, y) && user_absent(entries, l.user_id);
    assert forall|k: int| 0 <= k < leets.len() implies !rem(#[trigger] leets[k]) by {
        if leet_in_month(leets[k], g, m, y) {
            let i = choose|i: int|
                0 <= i < entries.len() && (#[trigger] entries[i]).user_id == leets[k].user_id;
            assert(!user_absent(entries, leets[k].user_id));
        }
    }
    lemma_filter_all_false(leets, rem);
}

/// The sum of a sequence of all-one counts is its length.
proof fn lemma_sum_ones(entries: Seq<SpecEntry>)
    requires
        forall|i: int| 0 <= i < entries.len() ==> (#[trigger] entries[i]).count == 1,
    ensures
        sum_counts(entries) == entries.len(),
    decreases entries.len(),
{
    if entries.len() > 0 {
        lemma_sum_ones(entries.drop_last());
    }
}

/// Round trip for the one-record-per-user fixture: where every record of
/// the month belongs to a different user, the monthly leaderboard has
/// exactly one entry per record, each with count one.
pub proof fn lemma_leaderboard_one_each(
    leets: Seq<SpecLeet>,
    g: Seq<char>,
    m: int,
    y: int,
    entries: Seq<SpecEntry>,
)
    requires
        is_monthly_leaderboard(leets, g, m, y, entries),
        forall|i: int, j: int|
            0 <= i < j < leets.len() && leet_in_month(#[trigger] leets[i], g, m, y)
                && leet_in_month(#[trigger] leets[j], g, m, y) ==> leets[i].user_id
                != leets[j].user_id,
    ensures
        forall|i: int| 0 <= i < entries.len() ==> (#[trigger] entries[i]).count == 1,
        entries.len() == leets.filter(|l: SpecLeet| leet_in_month(l, g, m, y)).len(),
{
    assert forall|i: int| 0 <= i < entries.len() implies (#[trigger] entries[i]).count == 1 by {
        let u = entries[i].user_id;
        let p = |l: SpecLeet| leet_in_month(l, g, m, y) && l.user_id == u;
        assert forall|a: int, b: int| 0 <= a < b < leets.len() implies !(p(#[trigger] leets[a])
            && p(#[trigger] leets[b])) by {}
        lemma_filter_at_most_one(leets, p);
        assert(entries[i].count == user_month_count(leets, g, u, m, y));
        assert(entries[i].count > 0);
    }
    lemma_leaderboard_total(leets, g, m, y, entries);
    lemma_sum_ones(entries);
}

/// A field-for-field copy of a configuration row.
fn clone_setup(s: &LeetSetup) -> (r: LeetSetup)
    ensures
        r@ == s@,
{
    LeetSetup {
        guild_id: s.guild_id.clone(),
        timezone: s.timezone.clone(),
        leaderboard_channel: s.leaderboard_channel.clone(),
        leaderboard_count: s.leaderboard_count,
        accept_emoji: s.accept_emoji.clone(),
        deny_emoji: s.deny_emoji.clone(),
        repeat_emoji: s.repeat_emoji.clone(),
    }
}

/// String equality against a string slice.
fn string_eq_str(a: &String, b: &str) -> (r: bool)
    ensures
        r == (a@ == b@),
{
    *a == b.to_owned()
}

/// An owned copy of a string slice.
fn string_from_str(s: &str) -> (r: String)
    ensures
        r@ == s@,
{
    s.to_owned()
}

} // verus!
