//! Properties that hold across the operations of the two stores.
use vstd::prelude::*;

use crate::counts::{
    add_at, floor_hour, lemma_empty, lemma_in_hour_aligned, lemma_oldest_is_least, lemma_view_at,
    merged, rows_valid, stats_at, stats_view, KeystrokesStats, StoreError,
};
use crate::hub::{
    create_user_done, generate_token_done, hub_commit_done, initiate_done, terminate_done,
    upsert_done, HubStore, KeyrHubstorageError, MaybeUserId, Token,
};
use crate::local::{commit_done, revert_replayed, upsert_hour_done, LocalStore};
use crate::types::Summary;

verus! {

/// Adding two deltas to one hour, in either order, leaves the same counts as
/// adding their sum once. Both stores merge a delta this way.
pub proof fn merge_commutes(m: Map<int, nat>, h: int, a: nat, b: nat)
    ensures
        add_at(add_at(m, h, a), h, b) == add_at(add_at(m, h, b), h, a),
        add_at(add_at(m, h, a), h, b) == add_at(m, h, a + b),
{
    assert(add_at(add_at(m, h, a), h, b) =~= add_at(add_at(m, h, b), h, a));
    assert(add_at(add_at(m, h, a), h, b) =~= add_at(m, h, a + b));
}

/// Staging deltas `a` then `b` for one hour, `b` then `a`, or `a + b` at
/// once, leaves the same staging area, and the last call returns the same
/// count, where that count fits its integer types.
pub proof fn staged_deltas_commute(
    s0: LocalStore,
    a1: LocalStore,
    a2: LocalStore,
    b1: LocalStore,
    b2: LocalStore,
    c1: LocalStore,
    hour: i64,
    a: u32,
    b: u32,
    ab: u32,
    ra1: Result<u32, StoreError>,
    ra2: Result<u32, StoreError>,
    rb1: Result<u32, StoreError>,
    rb2: Result<u32, StoreError>,
    rc: Result<u32, StoreError>,
)
    requires
        s0.wf(),
        a > 0,
        b > 0,
        ab == a + b,
        floor_hour(hour as int) >= i64::MIN,
        s0.fits_after_add(floor_hour(hour as int), ab as nat),
        upsert_hour_done(s0, a1, hour, a, ra1),
        upsert_hour_done(a1, a2, hour, b, ra2),
        upsert_hour_done(s0, b1, hour, b, rb1),
        upsert_hour_done(b1, b2, hour, a, rb2),
        upsert_hour_done(s0, c1, hour, ab, rc),
    ensures
        ra2 is Ok && rb2 is Ok && rc is Ok,
        ra2 == rb2 && rb2 == rc,
        rc == Ok::<u32, StoreError>((stats_at(s0.staging_rows(), floor_hour(hour as int)) + ab) as u32),
        a2.staged() == b2.staged(),
        a2.staged() == c1.staged(),
        a2.global_count_spec() == c1.global_count_spec(),
{
    let h = floor_hour(hour as int);
    lemma_view_at(s0.staging_rows(), h);
    lemma_view_at(a1.staging_rows(), h);
    lemma_view_at(b1.staging_rows(), h);
    assert(ra1 is Ok && rb1 is Ok);
    assert(a1.fits_after_add(h, b as nat));
    assert(b1.fits_after_add(h, a as nat));
    merge_commutes(s0.staged(), h, a as nat, b as nat);
}

/// Merging deltas `a` then `b` into one hour of a user's ledger, `b` then
/// `a`, or `a + b` at once, leaves the same ledger, where the counts fit
/// their integer types.
pub proof fn ledger_deltas_commute(
    h0: HubStore,
    a1: HubStore,
    a2: HubStore,
    b1: HubStore,
    b2: HubStore,
    c1: HubStore,
    u: int,
    date: i64,
    a: u32,
    b: u32,
    ab: u32,
    ra1: Result<(), KeyrHubstorageError>,
    ra2: Result<(), KeyrHubstorageError>,
    rb1: Result<(), KeyrHubstorageError>,
    rb2: Result<(), KeyrHubstorageError>,
    rc: Result<(), KeyrHubstorageError>,
)
    requires
        h0.wf(),
        h0.has_user(u),
        !h0.frozen_of(u),
        a > 0,
        b > 0,
        ab == a + b,
        floor_hour(date as int) >= i64::MIN,
        stats_at(h0.rows_of(u), floor_hour(date as int)) + ab <= u32::MAX,
        h0.global_count_of(u) + ab <= u64::MAX,
        upsert_done(h0, a1, u, date, a, ra1),
        upsert_done(a1, a2, u, date, b, ra2),
        upsert_done(h0, b1, u, date, b, rb1),
        upsert_done(b1, b2, u, date, a, rb2),
        upsert_done(h0, c1, u, date, ab, rc),
    ensures
        ra2 is Ok && rb2 is Ok && rc is Ok,
        a2.ledger(u) == b2.ledger(u),
        a2.ledger(u) == c1.ledger(u),
        a2.ledger(u) == add_at(h0.ledger(u), floor_hour(date as int), ab as nat),
{
    let h = floor_hour(date as int);
    lemma_view_at(h0.rows_of(u), h);
    assert(ra1 is Ok && rb1 is Ok);
    lemma_view_at(a1.rows_of(u), h);
    lemma_view_at(b1.rows_of(u), h);
    merge_commutes(h0.ledger(u), h, a as nat, b as nat);
}

/// Two staging areas with the same hourly counts, merged into the same
/// ledger, leave the same ledger: how the staged deltas were ordered does
/// not reach the hub.
pub proof fn equal_staging_merges_equal(
    ledger: Seq<(i64, u32)>,
    sa1: Seq<(i64, u32)>,
    sa2: Seq<(i64, u32)>,
    after1: Seq<(i64, u32)>,
    after2: Seq<(i64, u32)>,
)
    requires
        rows_valid(sa1),
        rows_valid(sa2),
        stats_view(sa1) == stats_view(sa2),
        merged(ledger, sa1, after1),
        merged(ledger, sa2, after2),
    ensures
        stats_view(after1) == stats_view(after2),
{
    lemma_in_hour_aligned(sa1);
    lemma_in_hour_aligned(sa2);
    assert forall|h: int| #[trigger] stats_at(sa1, h) == stats_at(sa2, h) by {
        if stats_at(sa1, h) > 0 {
            assert(stats_view(sa1).dom().contains(h));
            assert(stats_view(sa2).dom().contains(h));
            assert(stats_view(sa1)[h] == stats_at(sa1, h));
            assert(stats_view(sa2)[h] == stats_at(sa2, h));
        } else if stats_at(sa2, h) > 0 {
            assert(stats_view(sa2).dom().contains(h));
            assert(stats_view(sa1).dom().contains(h));
        }
    }
    assert forall|h: int| #[trigger] stats_at(after1, h) == stats_at(after2, h) by {
        assert(stats_at(after1, h) == stats_at(ledger, h) + stats_at(sa1, h));
        assert(stats_at(after2, h) == stats_at(ledger, h) + stats_at(sa2, h));
    }
    assert(stats_view(after1) =~= stats_view(after2));
}

/// A commit whose network step failed leaves every count of the agent as it
/// was: the staging area, the global count and each day's count.
pub proof fn failed_commit_keeps_counts<E>(before: LocalStore, after: LocalStore, error: E)
    requires
        commit_done(before, after, Err::<Summary, E>(error)),
    ensures
        after.staged() == before.staged(),
        after.global_count_spec() == before.global_count_spec(),
        forall|today: int| #[trigger] after.today_count_spec(today) == before.today_count_spec(today),
{
}

/// Once a revert has been initiated for user `u`, the user stays frozen
/// through any run of operations that keep freezes, as writes, commits,
/// registrations, new tokens and further reverts do (the lemmas below);
/// only `terminate_revert`, `cancel_revert` and `unfreeze_user` unfreeze.
pub proof fn freeze_exclusion(
    before: HubStore,
    trail: Seq<HubStore>,
    u: int,
    r: Result<KeystrokesStats, KeyrHubstorageError>,
)
    requires
        trail.len() > 0,
        initiate_done(before, trail[0], u, r),
        r is Ok,
        forall|i: int| 0 <= i < trail.len() - 1 ==> #[trigger] trail[i].keeps_freezes(trail[i + 1]),
    ensures
        forall|i: int| #![trigger trail[i]] 0 <= i < trail.len() ==> trail[i].has_user(u) && trail[i].frozen_of(u),
{
    assert(trail[0].user_count() == before.user_count());
    assert(trail[0].has_user(u) && trail[0].frozen_of(u));
    assert forall|i: int| #![trigger trail[i]] 0 <= i < trail.len() implies trail[i].has_user(u)
        && trail[i].frozen_of(u) by {
        lemma_trail_frozen(trail, u, i);
    }
}

proof fn lemma_trail_frozen(trail: Seq<HubStore>, u: int, i: int)
    requires
        0 <= i < trail.len(),
        trail[0].has_user(u) && trail[0].frozen_of(u),
        forall|k: int| 0 <= k < trail.len() - 1 ==> #[trigger] trail[k].keeps_freezes(trail[k + 1]),
    ensures
        trail[i].has_user(u) && trail[i].frozen_of(u),
    decreases i,
{
    if i > 0 {
        lemma_trail_frozen(trail, u, i - 1);
        let k = i - 1;
        assert(trail[k].keeps_freezes(trail[k + 1]));
        assert(k + 1 == i);
    }
}

/// A write to a frozen user's ledger fails with `FrozenUser` and changes
/// nothing.
pub proof fn frozen_rejects_upsert(
    before: HubStore,
    after: HubStore,
    u: int,
    date: i64,
    count: u32,
    r: Result<(), KeyrHubstorageError>,
)
    requires
        before.has_user(u),
        before.frozen_of(u),
        upsert_done(before, after, u, date, count, r),
    ensures
        r matches Err(KeyrHubstorageError::FrozenUser),
        after.same_state(before),
{
}

/// A commit of a non-empty staging area for a frozen user fails with
/// `FrozenUser` and changes nothing.
pub proof fn frozen_rejects_commit(
    before: HubStore,
    after: HubStore,
    u: int,
    today: i64,
    sa: Seq<(i64, u32)>,
    r: Result<Summary, KeyrHubstorageError>,
)
    requires
        before.has_user(u),
        before.frozen_of(u),
        sa.len() > 0,
        hub_commit_done(before, after, u, today, sa, r),
    ensures
        r matches Err(KeyrHubstorageError::FrozenUser),
        after.same_state(before),
{
}

/// Writes keep freezes.
pub proof fn upsert_keeps_freezes(
    before: HubStore,
    after: HubStore,
    u: int,
    date: i64,
    count: u32,
    r: Result<(), KeyrHubstorageError>,
)
    requires
        upsert_done(before, after, u, date, count, r),
    ensures
        before.keeps_freezes(after),
{
    if r is Ok {
        HubStore::lemma_confined_keeps_freezes(before, after, u);
    } else {
        HubStore::lemma_same_keeps_freezes(before, after);
    }
}

/// Commits keep freezes.
pub proof fn commit_keeps_freezes(
    before: HubStore,
    after: HubStore,
    u: int,
    today: i64,
    sa: Seq<(i64, u32)>,
    r: Result<Summary, KeyrHubstorageError>,
)
    requires
        hub_commit_done(before, after, u, today, sa, r),
    ensures
        before.keeps_freezes(after),
{
    if r is Ok {
        HubStore::lemma_confined_keeps_freezes(before, after, u);
    } else {
        HubStore::lemma_same_keeps_freezes(before, after);
    }
}

/// Registrations keep freezes.
pub proof fn create_user_keeps_freezes(
    before: HubStore,
    after: HubStore,
    name: Seq<char>,
    r: Result<MaybeUserId, KeyrHubstorageError>,
)
    requires
        create_user_done(before, after, name, r),
    ensures
        before.keeps_freezes(after),
{
    if r is Ok {
        assert forall|j: int| 1 <= j <= before.user_count() && before.frozen_of(j) implies #[trigger] after.frozen_of(j) by {
            assert(after.frozen_of(j) == before.frozen_of(j));
        }
    } else {
        HubStore::lemma_same_keeps_freezes(before, after);
    }
}

/// Issuing a token keeps freezes.
pub proof fn token_keeps_freezes(
    before: HubStore,
    after: HubStore,
    u: int,
    r: Result<Token, KeyrHubstorageError>,
)
    requires
        generate_token_done(before, after, u, r),
    ensures
        before.keeps_freezes(after),
{
    assert forall|j: int| 1 <= j <= before.user_count() && before.frozen_of(j) implies #[trigger] after.frozen_of(j) by {
        assert(after.frozen_of(j) == before.frozen_of(j));
    }
}

proof fn lemma_token_rows_kept(
    before: HubStore,
    after: HubStore,
    v: int,
    r: Result<Token, KeyrHubstorageError>,
)
    requires
        generate_token_done(before, after, v, r),
    ensures
        after.token_count() >= before.token_count(),
        forall|i: int| 0 <= i < before.token_count() ==> #[trigger] after.token_at(i) == before.token_at(i),
{
    if r is Err {
        assert(after.same_tokens(before));
    }
}

proof fn lemma_rows_kept_keep_user(before: HubStore, after: HubStore, tok: Seq<char>, u: int)
    requires
        before.token_user(tok) == Some(u),
        after.token_count() >= before.token_count(),
        forall|i: int| 0 <= i < before.token_count() ==> #[trigger] after.token_at(i) == before.token_at(i),
    ensures
        after.token_user(tok) == Some(u),
{
    let k = choose|c: int| #[trigger] before.first_holder(tok, c);
    assert(after.token_at(k) == before.token_at(k));
    assert forall|j: int| 0 <= j < k implies #[trigger] after.token_at(j).0 != tok by {
        assert(after.token_at(j) == before.token_at(j));
        assert(before.token_at(j).0 != tok);
    }
    assert(after.first_holder(tok, k));
    after.lemma_token_user_is_first(tok, k);
}

/// A token that names user `u` still names `u` after any further token is
/// issued, for any user: tokens are never taken back, and a new one differs
/// from every stored one. With `generate_token`'s own contract, a token it
/// returned identifies its user from then on.
pub proof fn tokens_keep_their_user(
    before: HubStore,
    after: HubStore,
    v: int,
    r: Result<Token, KeyrHubstorageError>,
    tok: Seq<char>,
    u: int,
)
    requires
        before.token_user(tok) == Some(u),
        generate_token_done(before, after, v, r),
    ensures
        after.token_user(tok) == Some(u),
{
    lemma_token_rows_kept(before, after, v, r);
    lemma_rows_kept_keep_user(before, after, tok, u);
}

/// Initiating a revert keeps freezes.
pub proof fn initiate_keeps_freezes(
    before: HubStore,
    after: HubStore,
    u: int,
    r: Result<KeystrokesStats, KeyrHubstorageError>,
)
    requires
        initiate_done(before, after, u, r),
    ensures
        before.keeps_freezes(after),
{
    if r is Ok {
        HubStore::lemma_confined_keeps_freezes(before, after, u);
    } else {
        HubStore::lemma_same_keeps_freezes(before, after);
    }
}

/// After the full revert sequence (initiate on the hub, replay on an agent
/// with nothing staged, terminate on the hub) the agent's staging area holds
/// the hub's former ledger, its global count is the hub's former global
/// count, and the hub's ledger for the user is empty.
pub proof fn revert_restores_counts(
    hub0: HubStore,
    hub1: HubStore,
    hub2: HubStore,
    local0: LocalStore,
    local1: LocalStore,
    u: int,
    export: Result<KeystrokesStats, KeyrHubstorageError>,
    ended: Result<(), KeyrHubstorageError>,
)
    requires
        hub0.wf(),
        local0.staging_rows().len() == 0,
        initiate_done(hub0, hub1, u, export),
        export is Ok,
        revert_replayed(local0, local1, export->Ok_0@),
        terminate_done(hub1, hub2, u, ended),
    ensures
        local1.global_count_spec() == hub0.global_count_of(u),
        local1.staged() == hub0.ledger(u),
        hub2.ledger(u) == Map::<int, nat>::empty(),
        hub2.global_count_of(u) == 0,
{
    let v = export->Ok_0@;
    lemma_empty(local0.staging_rows());
    lemma_in_hour_aligned(v);
    assert forall|h: int| #[trigger] stats_at(local1.staging_rows(), h) == stats_at(v, h) by {}
    assert(local1.staged() =~= hub0.ledger(u));
}

/// The summary that a hub commit returns dates its oldest timestamp at the
/// earliest hour of the user's ledger after the merge, or at `today` where
/// that ledger is empty.
pub proof fn summary_oldest_is_earliest_hour(
    before: HubStore,
    after: HubStore,
    u: int,
    today: i64,
    sa: Seq<(i64, u32)>,
    r: Result<Summary, KeyrHubstorageError>,
)
    requires
        hub_commit_done(before, after, u, today, sa, r),
        r is Ok,
    ensures
        (forall|h: int| !#[trigger] after.ledger(u).dom().contains(h)) ==> r->Ok_0.oldest_timestamp
            == today,
        (exists|h: int| #[trigger] after.ledger(u).dom().contains(h)) ==> {
            let o = r->Ok_0.oldest_timestamp as int;
            &&& after.ledger(u).dom().contains(o)
            &&& forall|h: int| #[trigger] after.ledger(u).dom().contains(h) ==> o <= h
        },
{
    let rows = after.rows_of(u);
    lemma_oldest_is_least(rows);
    match crate::counts::stats_oldest(rows) {
        None => {},
        Some(o) => {
            assert(after.ledger(u).dom().contains(o));
            assert(r->Ok_0.oldest_timestamp as int == o);
            assert forall|h: int| #[trigger] after.ledger(u).dom().contains(h) implies o <= h by {
                if h < o {
                    assert(stats_at(rows, h) == 0);
                }
            }
        },
    }
}

/// Of two registrations of one free name, the first succeeds and the second
/// fails with `AlreadyUsedNickname`.
pub proof fn name_uniqueness(
    h0: HubStore,
    h1: HubStore,
    h2: HubStore,
    name: Seq<char>,
    r1: Result<MaybeUserId, KeyrHubstorageError>,
    r2: Result<MaybeUserId, KeyrHubstorageError>,
)
    requires
        h0.wf(),
        !h0.name_taken(name),
        h0.user_count() < i32::MAX,
        create_user_done(h0, h1, name, r1),
        create_user_done(h1, h2, name, r2),
    ensures
        r1 is Ok,
        r2 matches Err(KeyrHubstorageError::AlreadyUsedNickname(n)) && n@ == name,
{
}

} // verus!
