//! Per-owner dated predictions, gated on a one-time registration, with a
//! running count and sum of the ratings attached to them.
use vstd::prelude::*;
use crate::bytes::{all_zero, bytes_equal, is_zero, Address, Bytes32};

verus! {

/// Why a ledger operation was refused.
#[derive(Clone, Copy, PartialEq, Eq, Debug)]
pub enum PredictionError {
    InvalidCommitment,
    UserAlreadyRegistered,
    UserNotRegistered,
    InvalidPredictionHash,
    PredictionAlreadyExists,
    InvalidRating,
    PredictionNotFound,
}

/// A registered owner: the commitment it registered with and its statistics.
#[derive(Clone, Copy, Debug)]
pub struct UserRecord {
    pub user: Address,
    pub commitment: Bytes32,
    pub prediction_count: usize,
    pub rating_count: u64,
    pub rating_sum: u128,
}

/// The mathematical value of a registered owner.
pub struct UserView {
    pub user: Seq<u8>,
    pub commitment: Seq<u8>,
    pub prediction_count: nat,
    pub rating_count: nat,
    pub rating_sum: nat,
}

impl View for UserRecord {
    type V = UserView;

    open spec fn view(&self) -> UserView {
        UserView {
            user: self.user@,
            commitment: self.commitment@,
            prediction_count: self.prediction_count as nat,
            rating_count: self.rating_count as nat,
            rating_sum: self.rating_sum as nat,
        }
    }
}

/// A prediction of one owner for one date, with its current rating.
#[derive(Clone, Copy, Debug)]
pub struct PredictionRecord {
    pub user: Address,
    pub date: u64,
    pub prediction_hash: Bytes32,
    pub rating: u8,
}

/// The mathematical value of a prediction.
pub struct PredictionView {
    pub user: Seq<u8>,
    pub date: u64,
    pub prediction_hash: Seq<u8>,
    pub rating: u8,
}

impl View for PredictionRecord {
    type V = PredictionView;

    open spec fn view(&self) -> PredictionView {
        PredictionView {
            user: self.user@,
            date: self.date,
            prediction_hash: self.prediction_hash@,
            rating: self.rating,
        }
    }
}

/// `u` has registered.
pub open spec fn is_registered(users: Seq<UserView>, u: Seq<u8>) -> bool {
    exists|i: int| 0 <= i < users.len() && (#[trigger] users[i]).user == u
}

/// The position of `u`'s registration (meaningful where `is_registered` holds).
pub open spec fn user_index(users: Seq<UserView>, u: Seq<u8>) -> int {
    choose|i: int| 0 <= i < users.len() && (#[trigger] users[i]).user == u
}

/// A prediction of `u` for `date` exists.
pub open spec fn has_pred(preds: Seq<PredictionView>, u: Seq<u8>, date: u64) -> bool {
    exists|i: int| 0 <= i < preds.len() && (#[trigger] preds[i]).user == u && preds[i].date == date
}

/// The position of `u`'s prediction for `date` (meaningful where `has_pred` holds).
pub open spec fn pred_index(preds: Seq<PredictionView>, u: Seq<u8>, date: u64) -> int {
    choose|i: int| 0 <= i < preds.len() && (#[trigger] preds[i]).user == u && preds[i].date == date
}

/// The sum of the current ratings of `u`'s predictions.
pub open spec fn rating_total(preds: Seq<PredictionView>, u: Seq<u8>) -> nat
    decreases preds.len(),
{
    if preds.len() == 0 {
        0
    } else {
        rating_total(preds.drop_last(), u) + if preds.last().user == u {
            preds.last().rating as nat
        } else {
            0
        }
    }
}

/// No owner is registered twice.
pub open spec fn users_unique(users: Seq<UserView>) -> bool {
    forall|i: int, j: int|
        0 <= i < j < users.len() ==> (#[trigger] users[i]).user != (#[trigger] users[j]).user
}

/// No owner has two predictions for one date.
pub open spec fn preds_unique(preds: Seq<PredictionView>) -> bool {
    forall|i: int, j: int|
        0 <= i < j < preds.len() ==> (#[trigger] preds[i]).user != (#[trigger] preds[j]).user
            || preds[i].date != preds[j].date
}

/// The ledger's invariant: one registration per owner, one prediction per
/// owner and date, predictions only of registered owners, ratings at most 5,
/// each owner's rating sum equal to the sum of its current ratings, and each
/// prediction count within the number of predictions.
pub open spec fn ledger_valid(users: Seq<UserView>, preds: Seq<PredictionView>) -> bool {
    &&& users_unique(users)
    &&& preds_unique(preds)
    &&& forall|i: int|
        0 <= i < preds.len() ==> is_registered(users, (#[trigger] preds[i]).user) && preds[i].rating
            <= 5
    &&& forall|i: int|
        0 <= i < users.len() ==> (#[trigger] users[i]).rating_sum == rating_total(
            preds,
            users[i].user,
        ) && users[i].prediction_count <= preds.len()
}

/// The outcome of registering `caller` with `commitment`.
pub open spec fn register_user_result(users: Seq<UserView>, caller: Seq<u8>, commitment: Seq<u8>) -> Result<
    (),
    PredictionError,
> {
    if all_zero(commitment) {
        Err(PredictionError::InvalidCommitment)
    } else if is_registered(users, caller) {
        Err(PredictionError::UserAlreadyRegistered)
    } else {
        Ok(())
    }
}

/// The registrations after `caller` registers with `commitment`.
pub open spec fn after_register_user(users: Seq<UserView>, caller: Seq<u8>, commitment: Seq<u8>) -> Seq<
    UserView,
> {
    if register_user_result(users, caller, commitment) is Ok {
        users.push(
            UserView {
                user: caller,
                commitment,
                prediction_count: 0,
                rating_count: 0,
                rating_sum: 0,
            },
        )
    } else {
        users
    }
}

/// The outcome of `caller` storing `hash` for `date`.
pub open spec fn store_result(
    users: Seq<UserView>,
    preds: Seq<PredictionView>,
    caller: Seq<u8>,
    date: u64,
    hash: Seq<u8>,
) -> Result<(), PredictionError> {
    if !is_registered(users, caller) {
        Err(PredictionError::UserNotRegistered)
    } else if all_zero(hash) {
        Err(PredictionError::InvalidPredictionHash)
    } else if has_pred(preds, caller, date) {
        Err(PredictionError::PredictionAlreadyExists)
    } else {
        Ok(())
    }
}

/// The predictions after `caller` stores `hash` for `date`.
pub open spec fn after_store_preds(
    users: Seq<UserView>,
    preds: Seq<PredictionView>,
    caller: Seq<u8>,
    date: u64,
    hash: Seq<u8>,
) -> Seq<PredictionView> {
    if store_result(users, preds, caller, date, hash) is Ok {
        preds.push(PredictionView { user: caller, date, prediction_hash: hash, rating: 0 })
    } else {
        preds
    }
}

/// The registrations after `caller` stores a prediction: its count grows by one.
pub open spec fn after_store_users(
    users: Seq<UserView>,
    preds: Seq<PredictionView>,
    caller: Seq<u8>,
    date: u64,
    hash: Seq<u8>,
) -> Seq<UserView> {
    if store_result(users, preds, caller, date, hash) is Ok {
        let i = user_index(users, caller);
        users.update(i, UserView { prediction_count: users[i].prediction_count + 1, ..users[i] })
    } else {
        users
    }
}

/// The outcome of `caller` rating its prediction for `date` with `value`.
pub open spec fn rate_result(preds: Seq<PredictionView>, caller: Seq<u8>, date: u64, value: u8) -> Result<
    (),
    PredictionError,
> {
    if value > 5 {
        Err(PredictionError::InvalidRating)
    } else if !has_pred(preds, caller, date) {
        Err(PredictionError::PredictionNotFound)
    } else {
        Ok(())
    }
}

/// The predictions after a rating: the rated one holds `value`.
pub open spec fn after_rate_preds(preds: Seq<PredictionView>, caller: Seq<u8>, date: u64, value: u8) -> Seq<
    PredictionView,
> {
    if rate_result(preds, caller, date, value) is Ok {
        let i = pred_index(preds, caller, date);
        preds.update(i, PredictionView { rating: value, ..preds[i] })
    } else {
        preds
    }
}

/// The registrations after a rating. A previous rating of 0 reads as none:
/// the count grows by one and `value` is added to the sum. Otherwise the
/// count stays and the sum trades the previous rating for `value`.
pub open spec fn after_rate_users(
    users: Seq<UserView>,
    preds: Seq<PredictionView>,
    caller: Seq<u8>,
    date: u64,
    value: u8,
) -> Seq<UserView> {
    if rate_result(preds, caller, date, value) is Ok {
        let previous = preds[pred_index(preds, caller, date)].rating;
        let i = user_index(users, caller);
        if previous == 0 {
            users.update(
                i,
                UserView {
                    rating_count: users[i].rating_count + 1,
                    rating_sum: users[i].rating_sum + value as nat,
                    ..users[i]
                },
            )
        } else {
            users.update(
                i,
                UserView {
                    rating_sum: (users[i].rating_sum - previous + value) as nat,
                    ..users[i]
                },
            )
        }
    } else {
        users
    }
}

/// Ten times the mean rating, truncated; 0 where nothing was rated.
pub open spec fn average_x10(rating_sum: nat, rating_count: nat) -> nat {
    if rating_count > 0 {
        (rating_sum * 10) / rating_count
    } else {
        0
    }
}

/// In valid registrations, the position found for an owner is its own.
pub proof fn lemma_user_index_at(users: Seq<UserView>, i: int)
    requires
        users_unique(users),
        0 <= i < users.len(),
    ensures
        is_registered(users, users[i].user),
        user_index(users, users[i].user) == i,
{
    let u = users[i].user;
    assert(users[i].user == u);
    let j = user_index(users, u);
    if j < i {
        assert(users[j].user != users[i].user);
    } else if i < j {
        assert(users[i].user != users[j].user);
    }
}

/// In valid predictions, the position found for an owner and date is its own.
pub proof fn lemma_pred_index_at(preds: Seq<PredictionView>, i: int)
    requires
        preds_unique(preds),
        0 <= i < preds.len(),
    ensures
        has_pred(preds, preds[i].user, preds[i].date),
        pred_index(preds, preds[i].user, preds[i].date) == i,
{
    let u = preds[i].user;
    let d = preds[i].date;
    assert(preds[i].user == u && preds[i].date == d);
    let j = pred_index(preds, u, d);
    if j < i {
        assert(preds[j].user != preds[i].user || preds[j].date != preds[i].date);
    } else if i < j {
        assert(preds[i].user != preds[j].user || preds[i].date != preds[j].date);
    }
}

/// Registrations whose owners stay in place keep every owner registered.
proof fn lemma_registered_kept(users: Seq<UserView>, users2: Seq<UserView>)
    requires
        users2.len() >= users.len(),
        forall|i: int| 0 <= i < users.len() ==> (#[trigger] users2[i]).user == users[i].user,
    ensures
        forall|u: Seq<u8>| is_registered(users, u) ==> is_registered(users2, u),
{
    assert forall|u: Seq<u8>| is_registered(users, u) implies is_registered(users2, u) by {
        let i = user_index(users, u);
        assert(users2[i].user == u);
    }
}

/// Appending a prediction adds its rating to its owner's total.
proof fn lemma_rating_total_push(preds: Seq<PredictionView>, p: PredictionView, u: Seq<u8>)
    ensures
        rating_total(preds.push(p), u) == rating_total(preds, u) + if p.user == u {
            p.rating as nat
        } else {
            0
        },
{
    assert(preds.push(p).drop_last() =~= preds);
}

/// Replacing a prediction by one of the same owner trades its rating in the total.
proof fn lemma_rating_total_update(
    preds: Seq<PredictionView>,
    i: int,
    p: PredictionView,
    u: Seq<u8>,
)
    requires
        0 <= i < preds.len(),
    ensures
        rating_total(preds.update(i, p), u) + (if preds[i].user == u {
            preds[i].rating as int
        } else {
            0
        }) == rating_total(preds, u) + (if p.user == u {
            p.rating as int
        } else {
            0
        }),
    decreases preds.len(),
{
    let q = preds.update(i, p);
    if i == preds.len() - 1 {
        assert(q.drop_last() =~= preds.drop_last());
    } else {
        lemma_rating_total_update(preds.drop_last(), i, p, u);
        assert(q.drop_last() =~= preds.drop_last().update(i, p));
    }
}

/// An owner without predictions has a total of 0.
proof fn lemma_rating_total_absent(preds: Seq<PredictionView>, u: Seq<u8>)
    requires
        forall|i: int| 0 <= i < preds.len() ==> (#[trigger] preds[i]).user != u,
    ensures
        rating_total(preds, u) == 0,
    decreases preds.len(),
{
    if preds.len() > 0 {
        let d = preds.drop_last();
        assert forall|i: int| 0 <= i < d.len() implies (#[trigger] d[i]).user != u by {
            assert(d[i] == preds[i]);
        }
        lemma_rating_total_absent(d, u);
        assert(preds[preds.len() - 1].user != u);
    }
}

/// With ratings at most 5, an owner's total is at most 5 per prediction.
proof fn lemma_rating_total_bound(preds: Seq<PredictionView>, u: Seq<u8>)
    requires
        forall|i: int| 0 <= i < preds.len() ==> (#[trigger] preds[i]).rating <= 5,
    ensures
        rating_total(preds, u) <= 5 * preds.len(),
    decreases preds.len(),
{
    if preds.len() > 0 {
        let d = preds.drop_last();
        assert forall|i: int| 0 <= i < d.len() implies (#[trigger] d[i]).rating <= 5 by {
            assert(d[i] == preds[i]);
        }
        lemma_rating_total_bound(d, u);
        assert(preds[preds.len() - 1].rating <= 5);
    }
}

/// An owner that never registered cannot store a prediction. Once it has
/// registered with a non-zero commitment, its first prediction for a date with
/// a non-zero hash is stored, and a second one for that date fails, with
/// `PredictionAlreadyExists` wherever its hash is non-zero.
pub proof fn lemma_prediction_gating(
    users: Seq<UserView>,
    preds: Seq<PredictionView>,
    caller: Seq<u8>,
    commitment: Seq<u8>,
    date: u64,
    h: Seq<u8>,
    h2: Seq<u8>,
)
    requires
        ledger_valid(users, preds),
        !is_registered(users, caller),
        !all_zero(commitment),
        !all_zero(h),
    ensures
        store_result(users, preds, caller, date, h) == Err::<(), PredictionError>(
            PredictionError::UserNotRegistered,
        ),
        register_user_result(users, caller, commitment) is Ok,
        ({
            let u1 = after_register_user(users, caller, commitment);
            let u2 = after_store_users(u1, preds, caller, date, h);
            let preds2 = after_store_preds(u1, preds, caller, date, h);
            &&& store_result(u1, preds, caller, date, h) is Ok
            &&& preds2 == preds.push(
                PredictionView { user: caller, date, prediction_hash: h, rating: 0 },
            )
            &&& store_result(u2, preds2, caller, date, h2) is Err
            &&& !all_zero(h2) ==> store_result(u2, preds2, caller, date, h2) == Err::<
                (),
                PredictionError,
            >(PredictionError::PredictionAlreadyExists)
        }),
{
    let u1 = after_register_user(users, caller, commitment);
    assert(u1[users.len() as int].user == caller);
    assert(is_registered(u1, caller));
    assert(!has_pred(preds, caller, date)) by {
        if has_pred(preds, caller, date) {
            let i = pred_index(preds, caller, date);
            assert(is_registered(users, preds[i].user));
        }
    }
    let u2 = after_store_users(u1, preds, caller, date, h);
    let preds2 = after_store_preds(u1, preds, caller, date, h);
    let k = user_index(u1, caller);
    assert(u2[k].user == caller);
    assert(is_registered(u2, caller));
    assert(preds2[preds.len() as int].user == caller && preds2[preds.len() as int].date == date);
    assert(has_pred(preds2, caller, date));
}

/// The number of zeros in `vs`.
pub open spec fn count_zeros(vs: Seq<u8>) -> nat
    decreases vs.len(),
{
    if vs.len() == 0 {
        0
    } else {
        count_zeros(vs.drop_last()) + if vs.last() == 0 {
            1nat
        } else {
            0
        }
    }
}

/// The registrations and predictions after `caller` rates its prediction for
/// `date` with each of `vs`, in order.
pub open spec fn rate_all(
    users: Seq<UserView>,
    preds: Seq<PredictionView>,
    caller: Seq<u8>,
    date: u64,
    vs: Seq<u8>,
) -> (Seq<UserView>, Seq<PredictionView>)
    decreases vs.len(),
{
    if vs.len() == 0 {
        (users, preds)
    } else {
        let (u1, preds1) = rate_all(users, preds, caller, date, vs.drop_last());
        (
            after_rate_users(u1, preds1, caller, date, vs.last()),
            after_rate_preds(preds1, caller, date, vs.last()),
        )
    }
}

/// One rating of an existing prediction keeps every position and the keys,
/// stores the value, and counts it as new exactly where the previous rating
/// was 0.
proof fn lemma_rate_step(
    users: Seq<UserView>,
    preds: Seq<PredictionView>,
    caller: Seq<u8>,
    date: u64,
    v: u8,
)
    requires
        users_unique(users),
        preds_unique(preds),
        is_registered(users, caller),
        has_pred(preds, caller, date),
        v <= 5,
    ensures
        ({
            let u2 = after_rate_users(users, preds, caller, date, v);
            let preds2 = after_rate_preds(preds, caller, date, v);
            let ui = user_index(users, caller);
            let pi = pred_index(preds, caller, date);
            let previous = preds[pi].rating;
            &&& users_unique(u2)
            &&& preds_unique(preds2)
            &&& is_registered(u2, caller)
            &&& has_pred(preds2, caller, date)
            &&& user_index(u2, caller) == ui
            &&& pred_index(preds2, caller, date) == pi
            &&& preds2[pi].rating == v
            &&& u2[ui].rating_count == if previous == 0 {
                users[ui].rating_count + 1
            } else {
                users[ui].rating_count
            }
            &&& u2[ui].rating_sum == if previous == 0 {
                (users[ui].rating_sum + v) as nat
            } else {
                (users[ui].rating_sum - previous + v) as nat
            }
        }),
{
    let u2 = after_rate_users(users, preds, caller, date, v);
    let preds2 = after_rate_preds(preds, caller, date, v);
    let ui = user_index(users, caller);
    let pi = pred_index(preds, caller, date);
    assert(users_unique(u2)) by {
        assert forall|a: int, b: int| 0 <= a < b < u2.len() implies (#[trigger] u2[a]).user
            != (#[trigger] u2[b]).user by {
            assert(users[a].user != users[b].user);
        }
    }
    assert(preds_unique(preds2)) by {
        assert forall|a: int, b: int| 0 <= a < b < preds2.len() implies (#[trigger] preds2[a]).user
            != (#[trigger] preds2[b]).user || preds2[a].date != preds2[b].date by {
            assert(preds[a].user != preds[b].user || preds[a].date != preds[b].date);
        }
    }
    assert(u2[ui].user == caller);
    assert(preds2[pi].user == caller && preds2[pi].date == date);
    lemma_user_index_at(u2, ui);
    lemma_pred_index_at(preds2, pi);
}

/// What a run of ratings of one prediction leaves, for a non-empty run
/// of legal values.
proof fn lemma_rate_run(
    users: Seq<UserView>,
    preds: Seq<PredictionView>,
    caller: Seq<u8>,
    date: u64,
    vs: Seq<u8>,
)
    requires
        users_unique(users),
        preds_unique(preds),
        is_registered(users, caller),
        has_pred(preds, caller, date),
        preds[pred_index(preds, caller, date)].rating == 0,
        vs.len() > 0,
        forall|i: int| 0 <= i < vs.len() ==> #[trigger] vs[i] <= 5,
    ensures
        ({
            let (u2, preds2) = rate_all(users, preds, caller, date, vs);
            let ui = user_index(users, caller);
            let pi = pred_index(preds, caller, date);
            &&& users_unique(u2)
            &&& preds_unique(preds2)
            &&& is_registered(u2, caller)
            &&& has_pred(preds2, caller, date)
            &&& user_index(u2, caller) == ui
            &&& pred_index(preds2, caller, date) == pi
            &&& preds2[pi].rating == vs.last()
            &&& u2[ui].rating_count == users[ui].rating_count + 1 + count_zeros(vs.drop_last())
            &&& u2[ui].rating_sum == users[ui].rating_sum + vs.last()
        }),
    decreases vs.len(),
{
    let front = vs.drop_last();
    if vs.len() == 1 {
        assert(front =~= Seq::<u8>::empty());
        lemma_rate_step(users, preds, caller, date, vs.last());
    } else {
        assert forall|i: int| 0 <= i < front.len() implies #[trigger] front[i] <= 5 by {
            assert(front[i] == vs[i]);
        }
        lemma_rate_run(users, preds, caller, date, front);
        let (u1, preds1) = rate_all(users, preds, caller, date, front);
        assert(vs[vs.len() - 1] <= 5);
        lemma_rate_step(u1, preds1, caller, date, vs.last());
        assert(front.drop_last() =~= vs.drop_last().drop_last());
    }
}

/// Rating a fresh prediction with the non-empty run `vs` of legal values
/// leaves the last value stored and adds it to the owner's sum; the owner's
/// count grows by one for the first value and by one more for each later
/// value that follows a 0, since a stored 0 reads as no rating.
pub proof fn lemma_rating_aggregation(
    users: Seq<UserView>,
    preds: Seq<PredictionView>,
    caller: Seq<u8>,
    date: u64,
    vs: Seq<u8>,
)
    requires
        ledger_valid(users, preds),
        has_pred(preds, caller, date),
        preds[pred_index(preds, caller, date)].rating == 0,
        vs.len() > 0,
        forall|i: int| 0 <= i < vs.len() ==> #[trigger] vs[i] <= 5,
    ensures
        ({
            let (u2, preds2) = rate_all(users, preds, caller, date, vs);
            let before = users[user_index(users, caller)];
            let after = u2[user_index(u2, caller)];
            &&& has_pred(preds2, caller, date)
            &&& preds2[pred_index(preds2, caller, date)].rating == vs.last()
            &&& after.rating_count == before.rating_count + 1 + count_zeros(vs.drop_last())
            &&& vs[0] != 0 && count_zeros(vs.drop_last()) == 0 ==> after.rating_count
                == before.rating_count + 1
            &&& after.rating_sum == before.rating_sum + vs.last()
        }),
{
    let pi = pred_index(preds, caller, date);
    assert(is_registered(users, preds[pi].user));
    lemma_rate_run(users, preds, caller, date, vs);
}

/// Ten times `sum / count`, truncated; 0 where `count` is 0.
fn average_rating_x10(sum: u128, count: u64) -> (r: u128)
    requires
        sum < u128::MAX / 10,
    ensures
        r == average_x10(sum as nat, count as nat),
{
    if count > 0 {
        (sum * 10) / (count as u128)
    } else {
        0
    }
}

/// The ledger: registrations in order, and predictions in order of storing.
pub struct FarcasterPredictions {
    users: Vec<UserRecord>,
    predictions: Vec<PredictionRecord>,
}

impl FarcasterPredictions {
    /// The registered owners, in order of registration.
    pub closed spec fn users(&self) -> Seq<UserView> {
        self.users@.map_values(|r: UserRecord| r@)
    }

    /// The predictions, in order of storing.
    pub closed spec fn preds(&self) -> Seq<PredictionView> {
        self.predictions@.map_values(|r: PredictionRecord| r@)
    }

    /// The ledger's invariant holds of its registrations and predictions.
    pub open spec fn wf(&self) -> bool {
        ledger_valid(self.users(), self.preds())
    }

    /// An empty ledger.
    pub fn new() -> (r: Self)
        ensures
            r.wf(),
            r.users() == Seq::<UserView>::empty(),
            r.preds() == Seq::<PredictionView>::empty(),
    {
        let r = FarcasterPredictions { users: Vec::new(), predictions: Vec::new() };
        assert(r.users() =~= Seq::<UserView>::empty());
        assert(r.preds() =~= Seq::<PredictionView>::empty());
        r
    }

    /// The position of `user`'s registration, if any.
    fn find_user(&self, user: &Address) -> (r: Option<usize>)
        requires
            self.wf(),
        ensures
            r is None ==> !is_registered(self.users(), user@),
            r matches Some(i) ==> i < self.users().len() && self.users()[i as int].user == user@
                && user_index(self.users(), user@) == i,
    {
        let mut i: usize = 0;
        while i < self.users.len()
            invariant
                i <= self.users@.len(),
                self.wf(),
                self.users().len() == self.users@.len(),
                forall|k: int| 0 <= k < i ==> (#[trigger] self.users()[k]).user != user@,
            decreases self.users@.len() - i,
        {
            if bytes_equal(self.users[i].user.as_slice(), user.as_slice()) {
                assert(self.users()[i as int].user == user@);
                proof {
                    lemma_user_index_at(self.users(), i as int);
                }
                return Some(i);
            }
            i = i + 1;
        }
        None
    }

    /// The position of `user`'s prediction for `date`, if any.
    fn find_prediction(&self, user: &Address, date: u64) -> (r: Option<usize>)
        requires
            self.wf(),
        ensures
            r is None ==> !has_pred(self.preds(), user@, date),
            r matches Some(i) ==> i < self.preds().len() && self.preds()[i as int].user == user@
                && self.preds()[i as int].date == date && pred_index(self.preds(), user@, date)
                == i,
    {
        let mut i: usize = 0;
        while i < self.predictions.len()
            invariant
                i <= self.predictions@.len(),
                self.wf(),
                self.preds().len() == self.predictions@.len(),
                forall|k: int|
                    0 <= k < i ==> (#[trigger] self.preds()[k]).user != user@ || self.preds()[k].date
                        != date,
            decreases self.predictions@.len() - i,
        {
            let p = &self.predictions[i];
            if p.date == date && bytes_equal(p.user.as_slice(), user.as_slice()) {
                assert(self.preds()[i as int].user == user@);
                proof {
                    lemma_pred_index_at(self.preds(), i as int);
                }
                return Some(i);
            }
            i = i + 1;
        }
        None
    }

    /// Registers `caller` with a commitment to its data, once. Fails where the
    /// commitment is zero or `caller` has registered, in that order, and then
    /// changes nothing.
    pub fn register_user(&mut self, caller: Address, commitment: Bytes32) -> (r: Result<
        (),
        PredictionError,
    >)
        requires
            old(self).wf(),
        ensures
            final(self).wf(),
            r == register_user_result(old(self).users(), caller@, commitment@),
            final(self).users() == after_register_user(old(self).users(), caller@, commitment@),
            final(self).preds() == old(self).preds(),
    {
        if is_zero(commitment.as_slice()) {
            return Err(PredictionError::InvalidCommitment);
        }
        if self.find_user(&caller).is_some() {
            return Err(PredictionError::UserAlreadyRegistered);
        }
        let record = UserRecord {
            user: caller,
            commitment,
            prediction_count: 0,
            rating_count: 0,
            rating_sum: 0,
        };
        let ghost old_users = self.users();
        self.users.push(record);
        assert(self.users() =~= old_users.push(record@));
        proof {
            lemma_registered_kept(old_users, old_users.push(record@));
            assert forall|i: int| 0 <= i < self.preds().len() implies (#[trigger] self.preds()[i]).user
                != caller@ by {
                assert(is_registered(old_users, self.preds()[i].user));
            }
            lemma_rating_total_absent(self.preds(), caller@);
        }
        Ok(())
    }

    /// Stores `caller`'s prediction hash for `date` and counts it. Fails where
    /// `caller` has not registered, the hash is zero, or a prediction for the
    /// date exists, in that order, and then changes nothing.
    pub fn store_prediction(&mut self, caller: Address, date: u64, prediction_hash: Bytes32) -> (r:
        Result<(), PredictionError>)
        requires
            old(self).wf(),
        ensures
            final(self).wf(),
            r == store_result(old(self).users(), old(self).preds(), caller@, date, prediction_hash@),
            final(self).preds() == after_store_preds(
                old(self).users(),
                old(self).preds(),
                caller@,
                date,
                prediction_hash@,
            ),
            final(self).users() == after_store_users(
                old(self).users(),
                old(self).preds(),
                caller@,
                date,
                prediction_hash@,
            ),
    {
        let ui = match self.find_user(&caller) {
            Some(ui) => ui,
            None => {
                return Err(PredictionError::UserNotRegistered);
            },
        };
        if is_zero(prediction_hash.as_slice()) {
            return Err(PredictionError::InvalidPredictionHash);
        }
        if self.find_prediction(&caller, date).is_some() {
            return Err(PredictionError::PredictionAlreadyExists);
        }
        let ghost old_users = self.users();
        let ghost old_preds = self.preds();
        let record = PredictionRecord { user: caller, date, prediction_hash, rating: 0 };
        self.predictions.push(record);
        let n = self.predictions.len();
        assert(self.preds() =~= old_preds.push(record@));
        let mut u = self.users[ui];
        assert(u.prediction_count <= old_preds.len());
        u.prediction_count = u.prediction_count + 1;
        self.users.set(ui, u);
        assert(self.users() =~= old_users.update(ui as int, u@));
        proof {
            lemma_registered_kept(old_users, self.users());
            assert forall|k: int| 0 <= k < self.users().len() implies (#[trigger] self.users()[k]).rating_sum
                == rating_total(self.preds(), self.users()[k].user) by {
                lemma_rating_total_push(old_preds, record@, self.users()[k].user);
            }
            assert(self.users()[ui as int].user == caller@);
        }
        Ok(())
    }

    /// Rates `caller`'s prediction for `date` with `rating` (0 to 5) and updates
    /// the owner's rating count and sum; a stored rating of 0 reads as no
    /// rating. Fails where the rating is over 5 or no such prediction exists,
    /// in that order, and then changes nothing.
    pub fn rate_prediction(&mut self, caller: Address, date: u64, rating: u8) -> (r: Result<
        (),
        PredictionError,
    >)
        requires
            old(self).wf(),
            is_registered(old(self).users(), caller@) ==> old(self).users()[user_index(
                old(self).users(),
                caller@,
            )].rating_count < u64::MAX,
        ensures
            final(self).wf(),
            r == rate_result(old(self).preds(), caller@, date, rating),
            final(self).preds() == after_rate_preds(old(self).preds(), caller@, date, rating),
            final(self).users() == after_rate_users(
                old(self).users(),
                old(self).preds(),
                caller@,
                date,
                rating,
            ),
    {
        if rating > 5 {
            return Err(PredictionError::InvalidRating);
        }
        let pi = match self.find_prediction(&caller, date) {
            Some(pi) => pi,
            None => {
                return Err(PredictionError::PredictionNotFound);
            },
        };
        assert(is_registered(self.users(), self.preds()[pi as int].user));
        let ui = match self.find_user(&caller) {
            Some(ui) => ui,
            None => {
                return Err(PredictionError::PredictionNotFound);
            },
        };
        let ghost old_users = self.users();
        let ghost old_preds = self.preds();
        let mut p = self.predictions[pi];
        let existing = p.rating;
        p.rating = rating;
        self.predictions.set(pi, p);
        assert(self.preds() =~= old_preds.update(pi as int, p@));
        proof {
            lemma_rating_total_update(old_preds, pi as int, p@, caller@);
            lemma_rating_total_update(
                old_preds,
                pi as int,
                PredictionView { rating: 0, ..old_preds[pi as int] },
                caller@,
            );
            assert forall|i: int| 0 <= i < self.preds().len() implies (#[trigger] self.preds()[i]).rating
                <= 5 by {
                if i != pi {
                    assert(self.preds()[i] == old_preds[i]);
                }
            }
            lemma_rating_total_bound(self.preds(), caller@);
        }
        let n = self.predictions.len();
        let mut u = self.users[ui];
        assert(u.rating_sum == rating_total(old_preds, caller@));
        assert(rating_total(self.preds(), caller@) <= 5 * n);
        assert(5 * n < u128::MAX);
        if existing == 0 {
            u.rating_count = u.rating_count + 1;
            u.rating_sum = u.rating_sum + rating as u128;
        } else {
            u.rating_sum = u.rating_sum - existing as u128 + rating as u128;
        }
        self.users.set(ui, u);
        assert(self.users() =~= old_users.update(ui as int, u@));
        proof {
            lemma_registered_kept(old_users, self.users());
            assert forall|k: int| 0 <= k < self.users().len() implies (#[trigger] self.users()[k]).rating_sum
                == rating_total(self.preds(), self.users()[k].user) by {
                lemma_rating_total_update(old_preds, pi as int, p@, self.users()[k].user);
                if k != ui {
                    assert(old_users[k].user != old_users[ui as int].user || k == ui);
                    if k < ui {
                        assert(old_users[k].user != old_users[ui as int].user);
                    } else {
                        assert(old_users[ui as int].user != old_users[k].user);
                    }
                }
            }
            assert forall|i: int| 0 <= i < self.preds().len() implies is_registered(
                self.users(),
                (#[trigger] self.preds()[i]).user,
            ) by {
                assert(is_registered(old_users, old_preds[i].user));
            }
        }
        Ok(())
    }

    /// The commitment `user` registered with; zero where it has not registered.
    pub fn get_user_commitment(&self, user: Address) -> (r: Bytes32)
        requires
            self.wf(),
        ensures
            is_registered(self.users(), user@) ==> r@ == self.users()[user_index(
                self.users(),
                user@,
            )].commitment,
            !is_registered(self.users(), user@) ==> all_zero(r@),
    {
        match self.find_user(&user) {
            Some(i) => self.users[i].commitment,
            None => [0u8; 32],
        }
    }

    /// Whether `user` has registered.
    pub fn is_user_registered(&self, user: Address) -> (r: bool)
        requires
            self.wf(),
        ensures
            r == is_registered(self.users(), user@),
    {
        self.find_user(&user).is_some()
    }

    /// The hash of `user`'s prediction for `date`; zero where there is none.
    pub fn get_prediction(&self, user: Address, date: u64) -> (r: Bytes32)
        requires
            self.wf(),
        ensures
            has_pred(self.preds(), user@, date) ==> r@ == self.preds()[pred_index(
                self.preds(),
                user@,
                date,
            )].prediction_hash,
            !has_pred(self.preds(), user@, date) ==> all_zero(r@),
    {
        match self.find_prediction(&user, date) {
            Some(i) => self.predictions[i].prediction_hash,
            None => [0u8; 32],
        }
    }

    /// Whether `user` has a prediction for `date`.
    pub fn has_prediction(&self, user: Address, date: u64) -> (r: bool)
        requires
            self.wf(),
        ensures
            r == has_pred(self.preds(), user@, date),
    {
        self.find_prediction(&user, date).is_some()
    }

    /// The current rating of `user`'s prediction for `date`; 0 where there is none.
    pub fn get_rating(&self, user: Address, date: u64) -> (r: u8)
        requires
            self.wf(),
        ensures
            r == if has_pred(self.preds(), user@, date) {
                self.preds()[pred_index(self.preds(), user@, date)].rating
            } else {
                0
            },
    {
        match self.find_prediction(&user, date) {
            Some(i) => self.predictions[i].rating,
            None => 0,
        }
    }

    /// `user`'s (prediction count, rating count, ten times the mean rating
    /// truncated); all zero where it has not registered.
    pub fn get_user_stats(&self, user: Address) -> (r: (usize, u64, u128))
        requires
            self.wf(),
        ensures
            is_registered(self.users(), user@) ==> ({
                let v = self.users()[user_index(self.users(), user@)];
                r.0 == v.prediction_count && r.1 == v.rating_count && r.2 == average_x10(
                    v.rating_sum,
                    v.rating_count,
                )
            }),
            !is_registered(self.users(), user@) ==> r == (0usize, 0u64, 0u128),
    {
        match self.find_user(&user) {
            Some(i) => {
                let u = self.users[i];
                let n = self.predictions.len();
                proof {
                    lemma_rating_total_bound(self.preds(), user@);
                }
                assert(u.rating_sum <= 5 * n);
                assert(5 * n < u128::MAX / 10);
                (u.prediction_count, u.rating_count, average_rating_x10(u.rating_sum, u.rating_count))
            },
            None => (0, 0, 0),
        }
    }

    /// (registered owners, predictions stored), over all owners.
    pub fn get_global_stats(&self) -> (r: (usize, usize))
        ensures
            r.0 == self.users().len(),
            r.1 == self.preds().len(),
    {
        (self.users.len(), self.predictions.len())
    }
}

} // verus!
