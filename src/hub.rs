//! The hub's store: users, their bearer tokens, and one ledger of hourly
//! counts per user.
//!
//! User ids are handed out in order from 1. Each method that changes the
//! store is one transaction: it either does all that its contract says or,
//! where it returns an error, leaves the store as it was.
use vstd::prelude::*;

use crate::counts::{
    add_at, add_to_hour, copy_rows, floor_hour, hour_floor, merge_fits, merge_rows, merged,
    oldest_hour, stats_at, stats_oldest, stats_since, stats_total, stats_view, sum_counts,
    sum_since, lemma_empty, lemma_parts_le_total, well_formed_rows, KeystrokesStats, StoreError, Timestamp,
};
use crate::types::Summary;

verus! {

/// The id of a user known to exist.
#[derive(Clone, Copy, Debug, PartialEq, Eq, Structural)]
pub struct UserId(pub i32);

/// An id that may name a user; `validate` tells.
#[derive(Clone, Copy, Debug, PartialEq, Eq, Structural)]
pub struct MaybeUserId(pub i32);

/// An opaque bearer credential.
#[derive(Clone, Debug)]
pub struct Token(pub String);

/// Why the hub refused an operation.
#[derive(Clone, Debug)]
pub enum KeyrHubstorageError {
    /// No token row matches.
    InvalidToken,
    /// No user has that id (or name).
    UnknownUser,
    /// Another user already has that name.
    AlreadyUsedNickname(String),
    /// The user is frozen by a revert in progress.
    FrozenUser,
    /// The start of an hour lies below the range of a timestamp.
    InvalidTimestamp,
    /// A count would no longer fit its integer type.
    CountOverflow,
    /// Every user id is taken.
    TooManyUsers,
    /// Every fresh token drawn was already stored.
    TokenCollision,
}

/// How many fresh tokens `generate_token` draws before it gives up.
pub const TOKEN_DRAWS: u32 = 8;

struct UserRecord {
    name: String,
    frozen: bool,
    visible: bool,
}

/// The hub's users, tokens and ledgers.
pub struct HubStore {
    users: Vec<UserRecord>,
    ledgers: Vec<Vec<(Timestamp, u32)>>,
    tokens: Vec<(String, i32)>,
}

/// The summary of a user's ledger `rows` as seen from day `today`.
pub open spec fn summary_of(rows: Seq<(i64, u32)>, today: i64) -> Summary {
    Summary {
        oldest_timestamp: match stats_oldest(rows) {
            Some(o) => o as i64,
            None => today,
        },
        global_count: stats_total(rows) as u64,
        today_timestamp: today,
        today_count: stats_since(rows, today as int) as u64,
    }
}

fn map_store_error(e: StoreError) -> (r: KeyrHubstorageError)
    ensures
        e == StoreError::InvalidTimestamp ==> r is InvalidTimestamp,
        e != StoreError::InvalidTimestamp ==> r is CountOverflow,
{
    match e {
        StoreError::InvalidTimestamp => KeyrHubstorageError::InvalidTimestamp,
        _ => KeyrHubstorageError::CountOverflow,
    }
}

/// Relies on `uuid::Uuid::new_v4` and its simple rendering: a random token
/// of 32 lowercase hexadecimal digits. `new_v4` panics only where the
/// operating system gives no random bytes.
#[verifier::external_body]
fn fresh_token() -> (r: String)
    ensures
        r@.len() == 32,
{
    uuid::Uuid::new_v4().to_simple().to_string()
}

impl HubStore {
    /// Number of users; their ids are `1..=user_count()`.
    pub closed spec fn user_count(&self) -> nat {
        self.users@.len()
    }

    pub closed spec fn name_of(&self, id: int) -> Seq<char> {
        self.users@[id - 1].name@
    }

    pub closed spec fn frozen_of(&self, id: int) -> bool {
        self.users@[id - 1].frozen
    }

    pub closed spec fn visible_of(&self, id: int) -> bool {
        self.users@[id - 1].visible
    }

    /// The ledger rows of user `id`.
    pub closed spec fn rows_of(&self, id: int) -> Seq<(i64, u32)> {
        self.ledgers@[id - 1]@
    }

    pub closed spec fn token_count(&self) -> nat {
        self.tokens@.len()
    }

    /// The `i`-th token row: the token and the id of its user.
    pub closed spec fn token_at(&self, i: int) -> (Seq<char>, int) {
        (self.tokens@[i].0@, self.tokens@[i].1 as int)
    }

    pub closed spec fn shape_ok(&self) -> bool {
        self.users@.len() == self.ledgers@.len()
    }

    pub open spec fn has_user(&self, id: int) -> bool {
        1 <= id <= self.user_count()
    }

    /// The ledger of user `id` as a map from hour to count.
    pub open spec fn ledger(&self, id: int) -> Map<int, nat> {
        stats_view(self.rows_of(id))
    }

    /// Sum of every count of user `id`'s ledger.
    pub open spec fn global_count_of(&self, id: int) -> nat {
        stats_total(self.rows_of(id))
    }

    pub open spec fn name_taken(&self, name: Seq<char>) -> bool {
        exists|id: int| self.has_user(id) && #[trigger] self.name_of(id) == name
    }

    pub open spec fn wf(&self) -> bool {
        &&& self.shape_ok()
        &&& self.user_count() <= i32::MAX
        &&& forall|id: int|
            1 <= id <= self.user_count() ==> well_formed_rows(#[trigger] self.rows_of(id))
                && stats_total(self.rows_of(id)) <= u64::MAX
        &&& forall|a: int, b: int|
            1 <= a <= self.user_count() && 1 <= b <= self.user_count() && a != b ==> #[trigger]
            self.name_of(a) != #[trigger] self.name_of(b)
        &&& forall|i: int| 0 <= i < self.token_count() ==> self.has_user(#[trigger] self.token_at(i).1)
    }

    /// User `id` has the same name, flags and ledger in both stores.
    pub open spec fn same_user(&self, other: HubStore, id: int) -> bool {
        &&& self.name_of(id) == other.name_of(id)
        &&& self.frozen_of(id) == other.frozen_of(id)
        &&& self.visible_of(id) == other.visible_of(id)
        &&& self.rows_of(id) == other.rows_of(id)
    }

    pub open spec fn same_tokens(&self, other: HubStore) -> bool {
        &&& self.token_count() == other.token_count()
        &&& forall|i: int| 0 <= i < self.token_count() ==> #[trigger] self.token_at(i) == other.token_at(i)
    }

    /// Both stores agree on each of the users `1..=n` but `id`.
    pub open spec fn agree_except(&self, other: HubStore, n: int, id: int) -> bool {
        &&& forall|j: int| 1 <= j <= n && j != id ==> #[trigger] self.name_of(j) == other.name_of(j)
        &&& forall|j: int| 1 <= j <= n && j != id ==> #[trigger] self.frozen_of(j) == other.frozen_of(j)
        &&& forall|j: int| 1 <= j <= n && j != id ==> #[trigger] self.visible_of(j) == other.visible_of(j)
        &&& forall|j: int| 1 <= j <= n && j != id ==> #[trigger] self.rows_of(j) == other.rows_of(j)
    }

    /// Both stores agree on everything but user `id`.
    pub open spec fn others_unchanged(&self, other: HubStore, id: int) -> bool {
        &&& self.user_count() == other.user_count()
        &&& self.same_tokens(other)
        &&& self.agree_except(other, self.user_count() as int, id)
    }

    /// Both stores agree on everything.
    pub open spec fn same_state(&self, other: HubStore) -> bool {
        &&& self.user_count() == other.user_count()
        &&& self.same_tokens(other)
        &&& self.agree_except(other, self.user_count() as int, 0)
    }

    /// Every user of `self` is still there in `other`, and each one frozen
    /// in `self` is still frozen.
    pub open spec fn keeps_freezes(&self, other: HubStore) -> bool {
        &&& self.user_count() <= other.user_count()
        &&& forall|j: int| 1 <= j <= self.user_count() && self.frozen_of(j) ==> #[trigger] other.frozen_of(j)
    }

    /// The user that token `tok` authenticates: the one of the first token
    /// row that holds it.
    pub open spec fn token_user(&self, tok: Seq<char>) -> Option<int> {
        if exists|k: int| #[trigger] self.first_holder(tok, k) {
            let k = choose|k: int| #[trigger] self.first_holder(tok, k);
            Some(self.token_at(k).1)
        } else {
            None
        }
    }

    /// Token row `k` holds `tok`, and no row before it does.
    pub open spec fn first_holder(&self, tok: Seq<char>, k: int) -> bool {
        &&& 0 <= k < self.token_count()
        &&& self.token_at(k).0 == tok
        &&& forall|j: int| 0 <= j < k ==> #[trigger] self.token_at(j).0 != tok
    }

    /// Where row `k` is the first to hold `tok`, `tok` names that row's user.
    pub proof fn lemma_token_user_is_first(&self, tok: Seq<char>, k: int)
        requires
            self.first_holder(tok, k),
        ensures
            self.token_user(tok) == Some(self.token_at(k).1),
    {
        let c = choose|c: int| #[trigger] self.first_holder(tok, c);
        assert(c == k) by {
            if c < k {
                assert(self.token_at(c).0 != tok);
            }
            if k < c {
                assert(self.token_at(k).0 != tok);
            }
        }
    }

    /// Where no row holds `tok`, it names no user.
    pub proof fn lemma_token_user_absent(&self, tok: Seq<char>)
        requires
            forall|k: int| 0 <= k < self.token_count() ==> #[trigger] self.token_at(k).0 != tok,
        ensures
            self.token_user(tok) is None,
    {
        if exists|k: int| #[trigger] self.first_holder(tok, k) {
            let k = choose|k: int| #[trigger] self.first_holder(tok, k);
            assert(self.token_at(k).0 != tok);
        }
    }

    /// A hub without users.
    pub fn new() -> (r: HubStore)
        ensures
            r.wf(),
            r.user_count() == 0,
            r.token_count() == 0,
    {
        HubStore { users: Vec::new(), ledgers: Vec::new(), tokens: Vec::new() }
    }

    proof fn lemma_user_rows(&self, id: int)
        requires
            self.wf(),
            self.has_user(id),
        ensures
            well_formed_rows(self.rows_of(id)),
            stats_total(self.rows_of(id)) <= u64::MAX,
            self.rows_of(id) == self.ledgers@[id - 1]@,
    {
    }

    /// A change confined to user `id` that keeps its flag keeps every freeze.
    pub proof fn lemma_confined_keeps_freezes(before: HubStore, after: HubStore, id: int)
        requires
            after.others_unchanged(before, id),
            before.frozen_of(id) ==> after.frozen_of(id),
        ensures
            before.keeps_freezes(after),
    {
        assert forall|j: int| 1 <= j <= before.user_count() && before.frozen_of(j) implies #[trigger] after.frozen_of(j) by {
            if j != id {
                assert(after.same_user(before, j));
            }
        }
    }

    proof fn lemma_others_trans(a: HubStore, b: HubStore, c: HubStore, id: int)
        requires
            b.others_unchanged(a, id),
            c.others_unchanged(b, id),
        ensures
            c.others_unchanged(a, id),
    {
        assert forall|j: int| 1 <= j <= c.user_count() && j != id implies #[trigger] c.same_user(a, j) by {
            assert(c.same_user(b, j));
            assert(b.same_user(a, j));
        }
        assert forall|j: int| 1 <= j <= c.user_count() && j != id implies #[trigger] c.rows_of(j) == a.rows_of(j) by {
            assert(c.same_user(a, j));
        }
        assert forall|i: int| 0 <= i < c.token_count() implies #[trigger] c.token_at(i) == a.token_at(i) by {
            assert(c.token_at(i) == b.token_at(i));
            assert(b.token_at(i) == a.token_at(i));
        }
    }

    /// An unchanged store keeps every freeze.
    pub proof fn lemma_same_keeps_freezes(before: HubStore, after: HubStore)
        requires
            after.same_state(before),
        ensures
            before.keeps_freezes(after),
    {
        assert forall|j: int| 1 <= j <= before.user_count() && before.frozen_of(j) implies #[trigger] after.frozen_of(j) by {
            assert(after.same_user(before, j));
        }
    }

    fn set_flags(&mut self, i: usize, frozen: bool, visible: bool)
        requires
            old(self).wf(),
            i < old(self).user_count(),
        ensures
            final(self).wf(),
            final(self).others_unchanged(*old(self), i + 1),
            final(self).name_of(i + 1) == old(self).name_of(i + 1),
            final(self).rows_of(i + 1) == old(self).rows_of(i + 1),
            final(self).frozen_of(i + 1) == frozen,
            final(self).visible_of(i + 1) == visible,
    {
        let rec = UserRecord { name: self.users[i].name.clone(), frozen, visible };
        self.users.set(i, rec);
        proof {
            assert forall|a: int, b: int|
                1 <= a <= self.user_count() && 1 <= b <= self.user_count() && a != b implies #[trigger]
                self.name_of(a) != #[trigger] self.name_of(b) by {
                assert(self.name_of(a) == old(self).name_of(a));
                assert(self.name_of(b) == old(self).name_of(b));
            }
            assert forall|id: int| 1 <= id <= self.user_count() implies well_formed_rows(
                #[trigger] self.rows_of(id),
            ) && stats_total(self.rows_of(id)) <= u64::MAX by {
                assert(self.rows_of(id) == old(self).rows_of(id));
            }
            assert forall|k: int| 0 <= k < self.token_count() implies self.has_user(
                #[trigger] self.token_at(k).1,
            ) by {
                assert(self.token_at(k) == old(self).token_at(k));
            }
        }
    }

    fn set_rows(&mut self, i: usize, rows: Vec<(Timestamp, u32)>)
        requires
            old(self).wf(),
            i < old(self).user_count(),
            well_formed_rows(rows@),
            stats_total(rows@) <= u64::MAX,
        ensures
            final(self).wf(),
            final(self).others_unchanged(*old(self), i + 1),
            final(self).name_of(i + 1) == old(self).name_of(i + 1),
            final(self).frozen_of(i + 1) == old(self).frozen_of(i + 1),
            final(self).visible_of(i + 1) == old(self).visible_of(i + 1),
            final(self).rows_of(i + 1) == rows@,
    {
        self.ledgers.set(i, rows);
        proof {
            assert forall|a: int, b: int|
                1 <= a <= self.user_count() && 1 <= b <= self.user_count() && a != b implies #[trigger]
                self.name_of(a) != #[trigger] self.name_of(b) by {
                assert(self.name_of(a) == old(self).name_of(a));
                assert(self.name_of(b) == old(self).name_of(b));
            }
            assert forall|id: int| 1 <= id <= self.user_count() implies well_formed_rows(
                #[trigger] self.rows_of(id),
            ) && stats_total(self.rows_of(id)) <= u64::MAX by {
                if id != i + 1 {
                    assert(self.rows_of(id) == old(self).rows_of(id));
                }
            }
            assert forall|k: int| 0 <= k < self.token_count() implies self.has_user(
                #[trigger] self.token_at(k).1,
            ) by {
                assert(self.token_at(k) == old(self).token_at(k));
            }
        }
    }

    /// Registers a user named `name`, not frozen and not visible, with an
    /// empty ledger. Fails where the name is taken.
    pub fn create_user(&mut self, name: String) -> (r: Result<MaybeUserId, KeyrHubstorageError>)
        requires
            old(self).wf(),
        ensures
            create_user_done(*old(self), *final(self), name@, r),
    {
        let mut i: usize = 0;
        while i < self.users.len()
            invariant
                self.wf(),
                i <= self.user_count(),
                forall|j: int| 1 <= j <= i ==> #[trigger] self.name_of(j) != name@,
            decreases self.user_count() - i,
        {
            if self.users[i].name == name {
                assert(self.name_of(i + 1) == name@);
                return Err(KeyrHubstorageError::AlreadyUsedNickname(name));
            }
            i = i + 1;
        }
        if self.users.len() >= 2147483647 {
            return Err(KeyrHubstorageError::TooManyUsers);
        }
        let ghost before = *self;
        self.users.push(UserRecord { name, frozen: false, visible: false });
        self.ledgers.push(Vec::new());
        let id = self.users.len() as i32;
        proof {
            assert(self.rows_of(id as int) =~= Seq::<(i64, u32)>::empty());
            assert forall|j: int| 1 <= j < id implies #[trigger] self.same_user(before, j) by {
                assert(self.users@[j - 1] == before.users@[j - 1]);
                assert(self.ledgers@[j - 1] == before.ledgers@[j - 1]);
            }
            assert(self.agree_except(before, before.user_count() as int, 0)) by {
                assert forall|j: int| 1 <= j <= before.user_count() implies #[trigger] self.name_of(j) == before.name_of(j) by {
                    assert(self.same_user(before, j));
                }
                assert forall|j: int| 1 <= j <= before.user_count() implies #[trigger] self.frozen_of(j) == before.frozen_of(j) by {
                    assert(self.same_user(before, j));
                }
                assert forall|j: int| 1 <= j <= before.user_count() implies #[trigger] self.visible_of(j) == before.visible_of(j) by {
                    assert(self.same_user(before, j));
                }
                assert forall|j: int| 1 <= j <= before.user_count() implies #[trigger] self.rows_of(j) == before.rows_of(j) by {
                    assert(self.same_user(before, j));
                }
            }
            assert forall|a: int, b: int|
                1 <= a <= self.user_count() && 1 <= b <= self.user_count() && a != b implies #[trigger]
                self.name_of(a) != #[trigger] self.name_of(b) by {
                if a != id {
                    assert(self.same_user(before, a));
                }
                if b != id {
                    assert(self.same_user(before, b));
                }
            }
            assert forall|jd: int| 1 <= jd <= self.user_count() implies well_formed_rows(
                #[trigger] self.rows_of(jd),
            ) && stats_total(self.rows_of(jd)) <= u64::MAX by {
                if jd != id {
                    assert(self.same_user(before, jd));
                }
            }
            assert forall|k: int| 0 <= k < self.token_count() implies self.has_user(
                #[trigger] self.token_at(k).1,
            ) by {
                assert(self.token_at(k) == before.token_at(k));
            }
        }
        Ok(MaybeUserId(id))
    }

    fn user_index(&self, mid: MaybeUserId) -> (r: Result<usize, KeyrHubstorageError>)
        requires
            self.wf(),
        ensures
            r matches Ok(i) ==> i + 1 == mid.0 && self.has_user(mid.0 as int),
            r is Err ==> !self.has_user(mid.0 as int) && r matches Err(
                KeyrHubstorageError::UnknownUser,
            ),
    {
        if mid.0 >= 1 && (mid.0 as usize) <= self.users.len() {
            Ok((mid.0 - 1) as usize)
        } else {
            Err(KeyrHubstorageError::UnknownUser)
        }
    }

    /// Whether some token row holds `tok`.
    fn token_taken(&self, tok: &String) -> (r: bool)
        ensures
            r == exists|k: int| 0 <= k < self.token_count() && #[trigger] self.token_at(k).0 == tok@,
    {
        let mut k: usize = 0;
        while k < self.tokens.len()
            invariant
                k <= self.token_count(),
                forall|j: int| 0 <= j < k ==> #[trigger] self.token_at(j).0 != tok@,
            decreases self.token_count() - k,
        {
            if self.tokens[k].0 == *tok {
                assert(self.token_at(k as int).0 == tok@);
                return true;
            }
            k = k + 1;
        }
        false
    }

    /// Creates and stores a new random token for user `user`, drawn again
    /// while it equals a stored one; earlier tokens stay valid. Fails with
    /// `TokenCollision` only where every one of `TOKEN_DRAWS` draws was taken.
    pub fn generate_token(&mut self, user: MaybeUserId) -> (r: Result<Token, KeyrHubstorageError>)
        requires
            old(self).wf(),
        ensures
            generate_token_done(*old(self), *final(self), user.0 as int, r),
    {
        let i = match self.user_index(user) {
            Ok(i) => i,
            Err(e) => return Err(e),
        };
        let mut found: Option<String> = None;
        let mut draws: u32 = 0;
        while draws < TOKEN_DRAWS && found.is_none()
            invariant
                found matches Some(t) ==> t@.len() == 32 && forall|k: int|
                    0 <= k < self.token_count() ==> #[trigger] self.token_at(k).0 != t@,
            decreases TOKEN_DRAWS - draws,
        {
            let tok = fresh_token();
            if !self.token_taken(&tok) {
                found = Some(tok);
            }
            draws = draws + 1;
        }
        let tok = match found {
            Some(t) => t,
            None => return Err(KeyrHubstorageError::TokenCollision),
        };
        let ghost before = *self;
        self.tokens.push((tok.clone(), user.0));
        proof {
            assert forall|k: int| 0 <= k < before.token_count() implies #[trigger] self.token_at(k)
                == before.token_at(k) by {
                assert(self.tokens@[k] == before.tokens@[k]);
            }
            assert forall|k: int| 0 <= k < self.token_count() implies self.has_user(
                #[trigger] self.token_at(k).1,
            ) by {
                if k < before.token_count() {
                    assert(self.token_at(k) == before.token_at(k));
                } else {
                    assert(self.token_at(k).1 == user.0 as int);
                }
            }
            assert forall|id: int| 1 <= id <= self.user_count() implies well_formed_rows(
                #[trigger] self.rows_of(id),
            ) && stats_total(self.rows_of(id)) <= u64::MAX by {
                before.lemma_user_rows(id);
            }
            assert(self.agree_except(before, self.user_count() as int, 0));
            assert forall|a: int, b: int|
                1 <= a <= self.user_count() && 1 <= b <= self.user_count() && a != b implies #[trigger]
                self.name_of(a) != #[trigger] self.name_of(b) by {
                assert(self.name_of(a) == before.name_of(a));
                assert(self.name_of(b) == before.name_of(b));
            }
            let n = before.token_count() as int;
            assert(self.token_at(n) == (tok@, user.0 as int));
            assert forall|k: int| 0 <= k < n implies #[trigger] self.token_at(k).0 != tok@ by {
                assert(self.token_at(k) == before.token_at(k));
                assert(before.token_at(k).0 != tok@);
            }
            assert(self.first_holder(tok@, n));
            self.lemma_token_user_is_first(tok@, n);
        }
        Ok(Token(tok))
    }

    /// The user that `token` authenticates: the one of the first token row
    /// that holds it.
    pub fn identify_user_by_token(&self, token: &Token) -> (r: Result<
        MaybeUserId,
        KeyrHubstorageError,
    >)
        requires
            self.wf(),
        ensures
            r is Err <==> self.token_user(token.0@) is None,
            r is Err ==> r matches Err(KeyrHubstorageError::InvalidToken),
            r matches Ok(u) ==> self.token_user(token.0@) == Some(u.0 as int) && self.has_user(
                u.0 as int,
            ),
    {
        let mut k: usize = 0;
        while k < self.tokens.len()
            invariant
                self.wf(),
                k <= self.token_count(),
                forall|j: int| 0 <= j < k ==> #[trigger] self.token_at(j).0 != token.0@,
            decreases self.token_count() - k,
        {
            if self.tokens[k].0 == token.0 {
                assert(self.token_at(k as int) == (token.0@, self.tokens@[k as int].1 as int));
                assert(self.token_at(k as int).0 == token.0@);
                assert(self.has_user(self.token_at(k as int).1));
                proof {
                    assert(self.first_holder(token.0@, k as int));
                    self.lemma_token_user_is_first(token.0@, k as int);
                }
                return Ok(MaybeUserId(self.tokens[k].1));
            }
            k = k + 1;
        }
        proof {
            self.lemma_token_user_absent(token.0@);
        }
        Err(KeyrHubstorageError::InvalidToken)
    }

    /// The id of the user named `name`.
    pub fn find_user_by_name(&self, name: &String) -> (r: Result<UserId, KeyrHubstorageError>)
        requires
            self.wf(),
        ensures
            r is Err <==> !self.name_taken(name@),
            r is Err ==> r matches Err(KeyrHubstorageError::UnknownUser),
            r matches Ok(u) ==> self.has_user(u.0 as int) && self.name_of(u.0 as int) == name@,
    {
        let mut i: usize = 0;
        while i < self.users.len()
            invariant
                self.wf(),
                i <= self.user_count(),
                forall|j: int| 1 <= j <= i ==> #[trigger] self.name_of(j) != name@,
            decreases self.user_count() - i,
        {
            if self.users[i].name == *name {
                assert(self.name_of(i + 1) == name@);
                return Ok(UserId((i + 1) as i32));
            }
            i = i + 1;
        }
        Err(KeyrHubstorageError::UnknownUser)
    }

    /// Whether user `id` is frozen.
    pub fn is_frozen(&self, id: MaybeUserId) -> (r: Result<bool, KeyrHubstorageError>)
        requires
            self.wf(),
        ensures
            r is Ok <==> self.has_user(id.0 as int),
            r is Err ==> r matches Err(KeyrHubstorageError::UnknownUser),
            r matches Ok(b) ==> b == self.frozen_of(id.0 as int),
    {
        let i = match self.user_index(id) {
            Ok(i) => i,
            Err(e) => return Err(e),
        };
        Ok(self.users[i].frozen)
    }

    /// Whether user `id`'s counts may be viewed by anyone.
    pub fn is_visible(&self, id: UserId) -> (r: bool)
        requires
            self.wf(),
            self.has_user(id.0 as int),
        ensures
            r == self.visible_of(id.0 as int),
    {
        self.users[(id.0 - 1) as usize].visible
    }

    /// Makes user `id`'s counts public or private.
    pub fn set_visible(&mut self, id: MaybeUserId, visible: bool) -> (r: Result<
        (),
        KeyrHubstorageError,
    >)
        requires
            old(self).wf(),
        ensures
            final(self).wf(),
            old(self).keeps_freezes(*final(self)),
            r is Ok <==> old(self).has_user(id.0 as int),
            r is Err ==> final(self).same_state(*old(self)) && r matches Err(
                KeyrHubstorageError::UnknownUser,
            ),
            r is Ok ==> final(self).visible_of(id.0 as int) == visible
                && final(self).rows_of(id.0 as int) == old(self).rows_of(id.0 as int)
                && final(self).others_unchanged(*old(self), id.0 as int),
    {
        let i = match self.user_index(id) {
            Ok(i) => i,
            Err(e) => return Err(e),
        };
        let frozen = self.users[i].frozen;
        self.set_flags(i, frozen, visible);
        proof {
            HubStore::lemma_confined_keeps_freezes(*old(self), *self, i + 1);
        }
        Ok(())
    }

    /// Freezes user `id`: its ledger takes no more writes.
    pub fn freeze_user(&mut self, id: MaybeUserId) -> (r: Result<(), KeyrHubstorageError>)
        requires
            old(self).wf(),
        ensures
            final(self).wf(),
            r is Ok <==> old(self).has_user(id.0 as int),
            r is Err ==> final(self).same_state(*old(self)) && r matches Err(
                KeyrHubstorageError::UnknownUser,
            ),
            r is Ok ==> final(self).frozen_of(id.0 as int) && final(self).rows_of(id.0 as int)
                == old(self).rows_of(id.0 as int) && final(self).others_unchanged(
                *old(self),
                id.0 as int,
            ),
    {
        let i = match self.user_index(id) {
            Ok(i) => i,
            Err(e) => return Err(e),
        };
        let visible = self.users[i].visible;
        self.set_flags(i, true, visible);
        Ok(())
    }

    /// Unfreezes user `id`, deleting nothing.
    pub fn unfreeze_user(&mut self, id: MaybeUserId) -> (r: Result<(), KeyrHubstorageError>)
        requires
            old(self).wf(),
        ensures
            final(self).wf(),
            r is Ok <==> old(self).has_user(id.0 as int),
            r is Err ==> final(self).same_state(*old(self)) && r matches Err(
                KeyrHubstorageError::UnknownUser,
            ),
            r is Ok ==> !final(self).frozen_of(id.0 as int) && final(self).rows_of(id.0 as int)
                == old(self).rows_of(id.0 as int) && final(self).others_unchanged(
                *old(self),
                id.0 as int,
            ),
    {
        let i = match self.user_index(id) {
            Ok(i) => i,
            Err(e) => return Err(e),
        };
        let visible = self.users[i].visible;
        self.set_flags(i, false, visible);
        Ok(())
    }

    /// Adds `count` keystrokes to the hour that holds `date` in user `mid`'s
    /// ledger. Fails on a frozen user, whatever the count.
    pub fn upsert_keystrokes_count(&mut self, mid: MaybeUserId, date: Timestamp, count: u32) -> (r:
        Result<(), KeyrHubstorageError>)
        requires
            old(self).wf(),
        ensures
            upsert_done(*old(self), *final(self), mid.0 as int, date, count, r),
    {
        let i = match self.user_index(mid) {
            Ok(i) => i,
            Err(e) => return Err(e),
        };
        proof {
            self.lemma_user_rows(mid.0 as int);
        }
        if self.users[i].frozen {
            return Err(KeyrHubstorageError::FrozenUser);
        }
        if count == 0 {
            assert(self.ledger(mid.0 as int) == add_at(self.ledger(mid.0 as int), floor_hour(date as int), 0));
            return Ok(());
        }
        let h = match hour_floor(date) {
            Some(h) => h,
            None => return Err(KeyrHubstorageError::InvalidTimestamp),
        };
        let total = sum_counts(&self.ledgers[i]);
        if total > u64::MAX - count as u64 {
            return Err(KeyrHubstorageError::CountOverflow);
        }
        let mut rows = copy_rows(&self.ledgers[i]);
        match add_to_hour(&mut rows, h, count) {
            Some(_) => {
                self.set_rows(i, rows);
                Ok(())
            },
            None => Err(KeyrHubstorageError::CountOverflow),
        }
    }

    /// The summary of user `id`'s ledger as seen from day `today`.
    pub fn get_summary(&self, id: UserId, today: Timestamp) -> (r: Summary)
        requires
            self.wf(),
            self.has_user(id.0 as int),
        ensures
            r == summary_of(self.rows_of(id.0 as int), today),
    {
        let rows = &self.ledgers[(id.0 - 1) as usize];
        proof {
            self.lemma_user_rows(id.0 as int);
            lemma_parts_le_total(rows@, today as int);
        }
        let oldest = match oldest_hour(rows) {
            Some(o) => o,
            None => today,
        };
        Summary {
            oldest_timestamp: oldest,
            global_count: sum_counts(rows),
            today_timestamp: today,
            today_count: sum_since(rows, today),
        }
    }

    /// Every row of user `id`'s ledger.
    pub fn get_keystrokes_stats(&self, id: UserId) -> (r: KeystrokesStats)
        requires
            self.wf(),
            self.has_user(id.0 as int),
        ensures
            r@ == self.rows_of(id.0 as int),
    {
        copy_rows(&self.ledgers[(id.0 - 1) as usize])
    }

    /// Merges a staging area into user `mid`'s ledger and returns the
    /// summary of the ledger that results, all in one step: where any row
    /// cannot be merged, nothing is.
    pub fn commit(&mut self, mid: MaybeUserId, today: Timestamp, sa: &KeystrokesStats) -> (r:
        Result<Summary, KeyrHubstorageError>)
        requires
            old(self).wf(),
        ensures
            hub_commit_done(*old(self), *final(self), mid.0 as int, today, sa@, r),
    {
        let i = match self.user_index(mid) {
            Ok(i) => i,
            Err(e) => return Err(e),
        };
        proof {
            self.lemma_user_rows(mid.0 as int);
        }
        if self.users[i].frozen && sa.len() > 0 {
            return Err(KeyrHubstorageError::FrozenUser);
        }
        let rows = match merge_rows(&self.ledgers[i], sa) {
            Ok(rows) => rows,
            Err(e) => return Err(map_store_error(e)),
        };
        self.set_rows(i, rows);
        Ok(self.get_summary(UserId(mid.0), today))
    }

    /// Freezes user `mid` and hands out every row of its ledger.
    pub fn initiate_revert(&mut self, mid: MaybeUserId) -> (r: Result<
        KeystrokesStats,
        KeyrHubstorageError,
    >)
        requires
            old(self).wf(),
        ensures
            initiate_done(*old(self), *final(self), mid.0 as int, r),
    {
        let i = match self.user_index(mid) {
            Ok(i) => i,
            Err(e) => return Err(e),
        };
        proof {
            self.lemma_user_rows(mid.0 as int);
        }
        let visible = self.users[i].visible;
        self.set_flags(i, true, visible);
        Ok(copy_rows(&self.ledgers[i]))
    }

    /// Deletes every row of user `mid`'s ledger, then unfreezes it.
    pub fn terminate_revert(&mut self, mid: MaybeUserId) -> (r: Result<(), KeyrHubstorageError>)
        requires
            old(self).wf(),
        ensures
            terminate_done(*old(self), *final(self), mid.0 as int, r),
    {
        let i = match self.user_index(mid) {
            Ok(i) => i,
            Err(e) => return Err(e),
        };
        let ghost before = *self;
        self.set_rows(i, Vec::new());
        let ghost middle = *self;
        let visible = self.users[i].visible;
        self.set_flags(i, false, visible);
        proof {
            lemma_empty(self.rows_of(mid.0 as int));
            HubStore::lemma_others_trans(before, middle, *self, mid.0 as int);
        }
        Ok(())
    }

    /// Abandons a revert: unfreezes user `mid`, deleting nothing.
    pub fn cancel_revert(&mut self, mid: MaybeUserId) -> (r: Result<(), KeyrHubstorageError>)
        requires
            old(self).wf(),
        ensures
            final(self).wf(),
            r is Ok <==> old(self).has_user(mid.0 as int),
            r is Err ==> final(self).same_state(*old(self)) && r matches Err(
                KeyrHubstorageError::UnknownUser,
            ),
            r is Ok ==> !final(self).frozen_of(mid.0 as int) && final(self).rows_of(mid.0 as int)
                == old(self).rows_of(mid.0 as int) && final(self).others_unchanged(
                *old(self),
                mid.0 as int,
            ),
    {
        self.unfreeze_user(mid)
    }
}

impl MaybeUserId {
    /// This id, where a user has it.
    pub fn validate(&self, hub: &HubStore) -> (r: Result<UserId, KeyrHubstorageError>)
        requires
            hub.wf(),
        ensures
            r is Ok <==> hub.has_user(self.0 as int),
            r matches Ok(u) ==> u.0 == self.0,
            r is Err ==> r matches Err(KeyrHubstorageError::UnknownUser),
    {
        match hub.user_index(*self) {
            Ok(_) => Ok(UserId(self.0)),
            Err(e) => Err(e),
        }
    }
}

/// What `create_user(name)` on `before` that returned `r` leaves.
pub open spec fn create_user_done(
    before: HubStore,
    after: HubStore,
    name: Seq<char>,
    r: Result<MaybeUserId, KeyrHubstorageError>,
) -> bool {
    &&& after.wf()
    &&& r is Ok <==> !before.name_taken(name) && before.user_count() < i32::MAX
    &&& before.name_taken(name) ==> (r matches Err(KeyrHubstorageError::AlreadyUsedNickname(n)) && n@ == name)
    &&& !before.name_taken(name) && r is Err ==> (r matches Err(KeyrHubstorageError::TooManyUsers))
    &&& r is Err ==> after.same_state(before)
    &&& r matches Ok(u) ==> {
        &&& u.0 == before.user_count() + 1
        &&& after.user_count() == before.user_count() + 1
        &&& after.name_of(u.0 as int) == name
        &&& !after.frozen_of(u.0 as int)
        &&& !after.visible_of(u.0 as int)
        &&& after.rows_of(u.0 as int).len() == 0
        &&& after.name_taken(name)
        &&& after.same_tokens(before)
        &&& after.agree_except(before, before.user_count() as int, 0)
    }
}

/// What `generate_token(user)` on `before` that returned `r` leaves.
pub open spec fn generate_token_done(
    before: HubStore,
    after: HubStore,
    user: int,
    r: Result<Token, KeyrHubstorageError>,
) -> bool {
    &&& after.wf()
    &&& !before.has_user(user) <==> (r matches Err(KeyrHubstorageError::UnknownUser))
    &&& before.has_user(user) ==> r is Ok || (r matches Err(KeyrHubstorageError::TokenCollision))
    &&& r is Err ==> after.same_state(before)
    &&& r matches Ok(t) ==> {
        &&& t.0@.len() == 32
        &&& forall|k: int| 0 <= k < before.token_count() ==> #[trigger] before.token_at(k).0 != t.0@
        &&& after.user_count() == before.user_count()
        &&& after.agree_except(before, after.user_count() as int, 0)
        &&& after.token_count() == before.token_count() + 1
        &&& forall|k: int|
            0 <= k < before.token_count() ==> #[trigger] after.token_at(k) == before.token_at(k)
        &&& after.token_at(before.token_count() as int) == (t.0@, user)
        &&& after.token_user(t.0@) == Some(user)
    }
}

/// What `upsert_keystrokes_count(id, date, count)` on `before` that
/// returned `r` leaves.
pub open spec fn upsert_done(
    before: HubStore,
    after: HubStore,
    id: int,
    date: i64,
    count: u32,
    r: Result<(), KeyrHubstorageError>,
) -> bool {
    let h = floor_hour(date as int);
    &&& after.wf()
    &&& !before.has_user(id) ==> (r matches Err(KeyrHubstorageError::UnknownUser))
    &&& before.has_user(id) && before.frozen_of(id) ==> (r matches Err(KeyrHubstorageError::FrozenUser))
    &&& before.has_user(id) && !before.frozen_of(id) && count > 0 && h < i64::MIN ==> (r matches Err(KeyrHubstorageError::InvalidTimestamp))
    &&& before.has_user(id) && !before.frozen_of(id) && count > 0 && h >= i64::MIN ==> ((r matches Err(KeyrHubstorageError::CountOverflow)) <==> stats_at(before.rows_of(id), h) + count > u32::MAX || before.global_count_of(id) + count
        > u64::MAX)
    &&& r is Ok <==> before.has_user(id) && !before.frozen_of(id) && (count == 0 || (h >= i64::MIN
        && stats_at(before.rows_of(id), h) + count <= u32::MAX && before.global_count_of(id)
        + count <= u64::MAX))
    &&& r is Err ==> after.same_state(before)
    &&& r is Ok ==> {
        &&& after.ledger(id) == add_at(before.ledger(id), h, count as nat)
        &&& after.global_count_of(id) == before.global_count_of(id) + count
        &&& after.frozen_of(id) == before.frozen_of(id)
        &&& after.name_of(id) == before.name_of(id)
        &&& after.visible_of(id) == before.visible_of(id)
        &&& after.others_unchanged(before, id)
    }
}

/// What the hub's `commit(id, today, sa)` on `before` that returned `r`
/// leaves.
pub open spec fn hub_commit_done(
    before: HubStore,
    after: HubStore,
    id: int,
    today: i64,
    sa: Seq<(i64, u32)>,
    r: Result<Summary, KeyrHubstorageError>,
) -> bool {
    &&& after.wf()
    &&& r is Ok <==> before.has_user(id) && !(before.frozen_of(id) && sa.len() > 0) && merge_fits(
        before.rows_of(id),
        sa,
    )
    &&& !before.has_user(id) ==> (r matches Err(KeyrHubstorageError::UnknownUser))
    &&& before.has_user(id) && before.frozen_of(id) && sa.len() > 0 ==> (r matches Err(KeyrHubstorageError::FrozenUser))
    &&& r is Err ==> after.same_state(before)
    &&& r matches Ok(s) ==> {
        &&& merged(before.rows_of(id), sa, after.rows_of(id))
        &&& s == summary_of(after.rows_of(id), today)
        &&& after.frozen_of(id) == before.frozen_of(id)
        &&& after.name_of(id) == before.name_of(id)
        &&& after.visible_of(id) == before.visible_of(id)
        &&& after.others_unchanged(before, id)
    }
}

/// What `initiate_revert(id)` on `before` that returned `r` leaves.
pub open spec fn initiate_done(
    before: HubStore,
    after: HubStore,
    id: int,
    r: Result<KeystrokesStats, KeyrHubstorageError>,
) -> bool {
    &&& after.wf()
    &&& r is Ok <==> before.has_user(id)
    &&& r is Err ==> after.same_state(before) && (r matches Err(KeyrHubstorageError::UnknownUser))
    &&& r matches Ok(v) ==> {
        &&& v@ == before.rows_of(id)
        &&& well_formed_rows(v@)
        &&& stats_total(v@) == before.global_count_of(id)
        &&& stats_total(v@) <= u64::MAX
        &&& after.frozen_of(id)
        &&& after.rows_of(id) == before.rows_of(id)
        &&& after.name_of(id) == before.name_of(id)
        &&& after.visible_of(id) == before.visible_of(id)
        &&& after.others_unchanged(before, id)
    }
}

/// What `terminate_revert(id)` on `before` that returned `r` leaves.
pub open spec fn terminate_done(
    before: HubStore,
    after: HubStore,
    id: int,
    r: Result<(), KeyrHubstorageError>,
) -> bool {
    &&& after.wf()
    &&& r is Ok <==> before.has_user(id)
    &&& r is Err ==> after.same_state(before) && (r matches Err(KeyrHubstorageError::UnknownUser))
    &&& r is Ok ==> {
        &&& after.rows_of(id).len() == 0
        &&& after.ledger(id) == Map::<int, nat>::empty()
        &&& after.global_count_of(id) == 0
        &&& !after.frozen_of(id)
        &&& after.name_of(id) == before.name_of(id)
        &&& after.visible_of(id) == before.visible_of(id)
        &&& after.others_unchanged(before, id)
    }
}

} // verus!
