//! A store of chart commitments keyed by a unique id, with a reverse index
//! from owner to ids and an append-only log of events.
use vstd::prelude::*;
use crate::bytes::{all_zero, bytes_equal, is_zero, Address, Bytes32};

verus! {

/// Why a registry operation was refused.
#[derive(Clone, Copy, PartialEq, Eq, Debug)]
pub enum ChartRegistryError {
    ChartAlreadyExists,
    InvalidChartHash,
    InvalidUserAddress,
    ChartDoesNotExist,
}

/// One commitment: a data hash bound to an owner under a unique id.
#[derive(Debug)]
pub struct ChartCommitment {
    pub chart_hash: Bytes32,
    pub user: Address,
    pub timestamp: u64,
    pub zk_verified: bool,
    pub chart_id: String,
}

/// The mathematical value of a commitment.
pub struct ChartView {
    pub chart_hash: Seq<u8>,
    pub user: Seq<u8>,
    pub timestamp: u64,
    pub zk_verified: bool,
    pub chart_id: Seq<char>,
}

impl View for ChartCommitment {
    type V = ChartView;

    open spec fn view(&self) -> ChartView {
        ChartView {
            chart_hash: self.chart_hash@,
            user: self.user@,
            timestamp: self.timestamp,
            zk_verified: self.zk_verified,
            chart_id: self.chart_id@,
        }
    }
}

/// What the registry reports to the outside log.
#[derive(Debug)]
pub enum ChartEvent {
    ChartCreated {
        chart_id: String,
        chart_hash: Bytes32,
        user: Address,
        timestamp: u64,
        zk_verified: bool,
    },
    ChartVerified { chart_id: String, chart_hash: Bytes32 },
}

/// The mathematical value of an event.
pub enum ChartEventView {
    Created(ChartView),
    Verified { chart_id: Seq<char>, chart_hash: Seq<u8> },
}

impl View for ChartEvent {
    type V = ChartEventView;

    open spec fn view(&self) -> ChartEventView {
        match self {
            ChartEvent::ChartCreated { chart_id, chart_hash, user, timestamp, zk_verified } =>
                ChartEventView::Created(
                ChartView {
                    chart_hash: chart_hash@,
                    user: user@,
                    timestamp: *timestamp,
                    zk_verified: *zk_verified,
                    chart_id: chart_id@,
                },
            ),
            ChartEvent::ChartVerified { chart_id, chart_hash } => ChartEventView::Verified {
                chart_id: chart_id@,
                chart_hash: chart_hash@,
            },
        }
    }
}

/// Some record of `recs` has id `id`.
pub open spec fn has_chart(recs: Seq<ChartView>, id: Seq<char>) -> bool {
    exists|i: int| 0 <= i < recs.len() && (#[trigger] recs[i]).chart_id == id
}

/// The record of `recs` with id `id` (meaningful where `has_chart` holds).
pub open spec fn chart_of(recs: Seq<ChartView>, id: Seq<char>) -> ChartView {
    recs[choose|i: int| 0 <= i < recs.len() && (#[trigger] recs[i]).chart_id == id]
}

/// No two records share an id, and every record has a non-zero hash and owner.
pub open spec fn records_valid(recs: Seq<ChartView>) -> bool {
    &&& forall|i: int, j: int|
        0 <= i < j < recs.len() ==> (#[trigger] recs[i]).chart_id != (#[trigger] recs[j]).chart_id
    &&& forall|i: int|
        0 <= i < recs.len() ==> !all_zero((#[trigger] recs[i]).chart_hash) && !all_zero(
            recs[i].user,
        )
}

/// In valid records, the record found under an id is the one that holds it.
pub proof fn lemma_chart_of_at(recs: Seq<ChartView>, i: int)
    requires
        records_valid(recs),
        0 <= i < recs.len(),
    ensures
        has_chart(recs, recs[i].chart_id),
        chart_of(recs, recs[i].chart_id) == recs[i],
{
    let id = recs[i].chart_id;
    assert(recs[i].chart_id == id);
    let j = choose|j: int| 0 <= j < recs.len() && (#[trigger] recs[j]).chart_id == id;
    if j < i {
        assert(recs[j].chart_id != recs[i].chart_id);
    } else if i < j {
        assert(recs[i].chart_id != recs[j].chart_id);
    }
}

/// The outcome of registering `id` with hash `h` for owner `u`.
pub open spec fn register_result(
    recs: Seq<ChartView>,
    id: Seq<char>,
    h: Seq<u8>,
    u: Seq<u8>,
) -> Result<(), ChartRegistryError> {
    if has_chart(recs, id) {
        Err(ChartRegistryError::ChartAlreadyExists)
    } else if all_zero(h) {
        Err(ChartRegistryError::InvalidChartHash)
    } else if all_zero(u) {
        Err(ChartRegistryError::InvalidUserAddress)
    } else {
        Ok(())
    }
}

/// The records after a registration: unchanged where it fails, else one new
/// record at the end.
pub open spec fn after_register(
    recs: Seq<ChartView>,
    id: Seq<char>,
    h: Seq<u8>,
    u: Seq<u8>,
    verified: bool,
    timestamp: u64,
) -> Seq<ChartView> {
    if register_result(recs, id, h, u) is Ok {
        recs.push(ChartView { chart_hash: h, user: u, timestamp, zk_verified: verified, chart_id: id })
    } else {
        recs
    }
}

/// The records after marking `id` verified: unchanged where `id` is unknown.
pub open spec fn after_mark_verified(recs: Seq<ChartView>, id: Seq<char>) -> Seq<ChartView> {
    if has_chart(recs, id) {
        let i = choose|i: int| 0 <= i < recs.len() && (#[trigger] recs[i]).chart_id == id;
        recs.update(i, ChartView { zk_verified: true, ..recs[i] })
    } else {
        recs
    }
}

/// Whether `h` matches the stored hash of `id`; an unknown id reads as an
/// all-zero record.
pub open spec fn chart_matches(recs: Seq<ChartView>, id: Seq<char>, h: Seq<u8>) -> bool {
    if has_chart(recs, id) {
        chart_of(recs, id).chart_hash == h
    } else {
        all_zero(h)
    }
}

/// The ids of the records owned by `user`, in order of registration.
pub open spec fn ids_owned_by(recs: Seq<ChartView>, user: Seq<u8>) -> Seq<Seq<char>>
    decreases recs.len(),
{
    if recs.len() == 0 {
        Seq::empty()
    } else {
        let prev = ids_owned_by(recs.drop_last(), user);
        if recs.last().user == user {
            prev.push(recs.last().chart_id)
        } else {
            prev
        }
    }
}

/// A first registration of an unused id with a non-zero hash and owner
/// succeeds; any second registration of that id fails with
/// `ChartAlreadyExists` and leaves the first record as it was.
pub proof fn lemma_register_unique(
    recs: Seq<ChartView>,
    id: Seq<char>,
    h: Seq<u8>,
    u: Seq<u8>,
    v: bool,
    t: u64,
    h2: Seq<u8>,
    u2: Seq<u8>,
    v2: bool,
    t2: u64,
)
    requires
        records_valid(recs),
        !has_chart(recs, id),
        !all_zero(h),
        !all_zero(u),
    ensures
        register_result(recs, id, h, u) is Ok,
        register_result(after_register(recs, id, h, u, v, t), id, h2, u2) == Err::<
            (),
            ChartRegistryError,
        >(ChartRegistryError::ChartAlreadyExists),
        after_register(after_register(recs, id, h, u, v, t), id, h2, u2, v2, t2)
            == after_register(recs, id, h, u, v, t),
        chart_of(after_register(recs, id, h, u, v, t), id) == (ChartView {
            chart_hash: h,
            user: u,
            timestamp: t,
            zk_verified: v,
            chart_id: id,
        }),
{
    let r1 = after_register(recs, id, h, u, v, t);
    assert(records_valid(r1));
    lemma_chart_of_at(r1, recs.len() as int);
}

/// Registering an unused id with a zero hash, or with a zero owner, fails and
/// creates no record.
pub proof fn lemma_register_rejects_zero(
    recs: Seq<ChartView>,
    id: Seq<char>,
    h: Seq<u8>,
    u: Seq<u8>,
    v: bool,
    t: u64,
)
    requires
        records_valid(recs),
        !has_chart(recs, id),
        all_zero(h) || all_zero(u),
    ensures
        register_result(recs, id, h, u) is Err,
        after_register(recs, id, h, u, v, t) == recs,
        !has_chart(after_register(recs, id, h, u, v, t), id),
{
}

/// A registered id matches its own hash and no other.
pub proof fn lemma_verify_chart_exact(recs: Seq<ChartView>, id: Seq<char>, h: Seq<u8>, other: Seq<u8>)
    requires
        records_valid(recs),
        has_chart(recs, id),
        h == chart_of(recs, id).chart_hash,
        other != h,
    ensures
        chart_matches(recs, id, h),
        !chart_matches(recs, id, other),
{
}

/// Marking an unknown id fails; marking a known id sets its flag, and
/// marking it again still succeeds and keeps the flag set.
pub proof fn lemma_mark_verified_monotonic(recs: Seq<ChartView>, id: Seq<char>)
    requires
        records_valid(recs),
    ensures
        !has_chart(recs, id) ==> after_mark_verified(recs, id) == recs,
        has_chart(recs, id) ==> ({
            let once = after_mark_verified(recs, id);
            &&& records_valid(once)
            &&& has_chart(once, id)
            &&& chart_of(once, id).zk_verified
            &&& chart_of(once, id) == (ChartView { zk_verified: true, ..chart_of(recs, id) })
            &&& has_chart(after_mark_verified(once, id), id)
            &&& chart_of(after_mark_verified(once, id), id).zk_verified
        }),
{
    if has_chart(recs, id) {
        let i = choose|i: int| 0 <= i < recs.len() && (#[trigger] recs[i]).chart_id == id;
        lemma_chart_of_at(recs, i);
        let once = after_mark_verified(recs, id);
        assert(once[i].chart_id == recs[i].chart_id);
        assert(records_valid(once)) by {
            assert forall|a: int, b: int| 0 <= a < b < once.len() implies (#[trigger] once[a]).chart_id
                != (#[trigger] once[b]).chart_id by {
                assert(recs[a].chart_id != recs[b].chart_id);
            }
            assert forall|a: int| 0 <= a < once.len() implies !all_zero(
                (#[trigger] once[a]).chart_hash,
            ) && !all_zero(once[a].user) by {
                assert(!all_zero(recs[a].chart_hash) && !all_zero(recs[a].user));
            }
        }
        lemma_chart_of_at(once, i);
        let j = choose|j: int| 0 <= j < once.len() && (#[trigger] once[j]).chart_id == id;
        lemma_chart_of_at(once, j);
        let twice = after_mark_verified(once, id);
        assert(twice[j].chart_id == id);
        assert(records_valid(twice)) by {
            assert forall|a: int, b: int| 0 <= a < b < twice.len() implies (#[trigger] twice[a]).chart_id
                != (#[trigger] twice[b]).chart_id by {
                assert(once[a].chart_id != once[b].chart_id);
            }
            assert forall|a: int| 0 <= a < twice.len() implies !all_zero(
                (#[trigger] twice[a]).chart_hash,
            ) && !all_zero(twice[a].user) by {
                assert(!all_zero(once[a].chart_hash) && !all_zero(once[a].user));
            }
        }
        lemma_chart_of_at(twice, j);
    }
}

/// The registry: commitments in order of registration, and the events emitted.
pub struct ChartRegistry {
    charts: Vec<ChartCommitment>,
    events: Vec<ChartEvent>,
}

impl ChartRegistry {
    /// The commitments, in order of registration.
    pub closed spec fn records(&self) -> Seq<ChartView> {
        self.charts@.map_values(|c: ChartCommitment| c@)
    }

    /// The events emitted so far, oldest first.
    pub closed spec fn event_log(&self) -> Seq<ChartEventView> {
        self.events@.map_values(|e: ChartEvent| e@)
    }

    /// The registry's invariant: its records are valid.
    pub open spec fn wf(&self) -> bool {
        records_valid(self.records())
    }

    /// An empty registry.
    pub fn init() -> (r: Self)
        ensures
            r.wf(),
            r.records() == Seq::<ChartView>::empty(),
            r.event_log() == Seq::<ChartEventView>::empty(),
    {
        let r = ChartRegistry { charts: Vec::new(), events: Vec::new() };
        assert(r.records() =~= Seq::<ChartView>::empty());
        assert(r.event_log() =~= Seq::<ChartEventView>::empty());
        r
    }

    /// The position of the commitment with id `id`, if any.
    fn find(&self, id: &String) -> (r: Option<usize>)
        requires
            self.wf(),
        ensures
            r is None ==> !has_chart(self.records(), id@),
            r matches Some(i) ==> i < self.records().len() && self.records()[i as int].chart_id
                == id@ && chart_of(self.records(), id@) == self.records()[i as int],
    {
        let mut i: usize = 0;
        while i < self.charts.len()
            invariant
                i <= self.charts@.len(),
                self.wf(),
                self.records().len() == self.charts@.len(),
                forall|k: int| 0 <= k < i ==> (#[trigger] self.records()[k]).chart_id != id@,
            decreases self.charts@.len() - i,
        {
            if self.charts[i].chart_id == *id {
                assert(self.records()[i as int].chart_id == id@);
                proof {
                    lemma_chart_of_at(self.records(), i as int);
                }
                return Some(i);
            }
            i = i + 1;
        }
        None
    }

    /// Registers a new commitment stamped with `timestamp`, indexes it under its
    /// owner and emits a creation event. Fails where the id is taken, the hash
    /// is zero or the owner is zero, in that order, and then changes nothing.
    pub fn register_chart(
        &mut self,
        chart_id: String,
        chart_hash: Bytes32,
        user: Address,
        zk_verified: bool,
        timestamp: u64,
    ) -> (r: Result<(), ChartRegistryError>)
        requires
            old(self).wf(),
        ensures
            final(self).wf(),
            r == register_result(old(self).records(), chart_id@, chart_hash@, user@),
            final(self).records() == after_register(
                old(self).records(),
                chart_id@,
                chart_hash@,
                user@,
                zk_verified,
                timestamp,
            ),
            r is Ok ==> final(self).event_log() == old(self).event_log().push(
                ChartEventView::Created(
                    ChartView {
                        chart_hash: chart_hash@,
                        user: user@,
                        timestamp,
                        zk_verified,
                        chart_id: chart_id@,
                    },
                ),
            ),
            r is Err ==> final(self).event_log() == old(self).event_log(),
    {
        if self.find(&chart_id).is_some() {
            return Err(ChartRegistryError::ChartAlreadyExists);
        }
        if is_zero(chart_hash.as_slice()) {
            return Err(ChartRegistryError::InvalidChartHash);
        }
        if is_zero(user.as_slice()) {
            return Err(ChartRegistryError::InvalidUserAddress);
        }
        let record = ChartCommitment {
            chart_hash,
            user,
            timestamp,
            zk_verified,
            chart_id: chart_id.clone(),
        };
        let ghost old_records = self.records();
        let ghost old_log = self.event_log();
        self.charts.push(record);
        self.events.push(
            ChartEvent::ChartCreated { chart_id, chart_hash, user, timestamp, zk_verified },
        );
        assert(self.records() =~= old_records.push(record@));
        assert(self.event_log() =~= old_log.push(
            ChartEvent::ChartCreated { chart_id, chart_hash, user, timestamp, zk_verified }@,
        ));
        Ok(())
    }

    /// Whether `chart_hash` matches the hash stored under `chart_id`.
    pub fn verify_chart(&self, chart_id: String, chart_hash: Bytes32) -> (r: bool)
        requires
            self.wf(),
        ensures
            r == chart_matches(self.records(), chart_id@, chart_hash@),
    {
        match self.find(&chart_id) {
            Some(i) => bytes_equal(self.charts[i].chart_hash.as_slice(), chart_hash.as_slice()),
            None => is_zero(chart_hash.as_slice()),
        }
    }

    /// The fields of the commitment under `chart_id`, as (hash, owner,
    /// timestamp, verified, id); an unknown id reads as an all-zero record.
    pub fn get_chart(&self, chart_id: String) -> (r: (Bytes32, Address, u64, bool, String))
        requires
            self.wf(),
        ensures
            has_chart(self.records(), chart_id@) ==> ({
                let c = chart_of(self.records(), chart_id@);
                r.0@ == c.chart_hash && r.1@ == c.user && r.2 == c.timestamp && r.3
                    == c.zk_verified
            }),
            !has_chart(self.records(), chart_id@) ==> all_zero(r.0@) && all_zero(r.1@) && r.2
                == 0 && !r.3,
            r.4@ == chart_id@,
    {
        match self.find(&chart_id) {
            Some(i) => {
                let c = &self.charts[i];
                (c.chart_hash, c.user, c.timestamp, c.zk_verified, chart_id)
            },
            None => ([0u8; 32], [0u8; 20], 0, false, chart_id),
        }
    }

    /// The ids registered for `user`, in order of registration.
    pub fn get_user_charts(&self, user: Address) -> (r: Vec<String>)
        requires
            self.wf(),
        ensures
            r@.map_values(|s: String| s@) == ids_owned_by(self.records(), user@),
    {
        let mut out: Vec<String> = Vec::new();
        let mut i: usize = 0;
        while i < self.charts.len()
            invariant
                i <= self.charts@.len(),
                self.records().len() == self.charts@.len(),
                out@.map_values(|s: String| s@) == ids_owned_by(
                    self.records().subrange(0, i as int),
                    user@,
                ),
            decreases self.charts@.len() - i,
        {
            let ghost before = out@;
            let c = &self.charts[i];
            assert(self.records().subrange(0, i + 1).drop_last() =~= self.records().subrange(
                0,
                i as int,
            ));
            assert(self.records().subrange(0, i + 1).last() == c@);
            if bytes_equal(c.user.as_slice(), user.as_slice()) {
                out.push(c.chart_id.clone());
                assert(out@.map_values(|s: String| s@) =~= before.map_values(|s: String| s@).push(
                    c.chart_id@,
                ));
            }
            i = i + 1;
        }
        assert(self.records().subrange(0, self.charts@.len() as int) =~= self.records());
        out
    }

    /// Sets the verified flag of the commitment under `chart_id` and emits a
    /// verification event, on every call; fails where the id is unknown, and
    /// then changes nothing.
    pub fn mark_as_verified(&mut self, chart_id: String) -> (r: Result<(), ChartRegistryError>)
        requires
            old(self).wf(),
        ensures
            final(self).wf(),
            r is Ok <==> has_chart(old(self).records(), chart_id@),
            r is Err ==> r == Err::<(), ChartRegistryError>(ChartRegistryError::ChartDoesNotExist),
            final(self).records() == after_mark_verified(old(self).records(), chart_id@),
            r is Ok ==> final(self).event_log() == old(self).event_log().push(
                ChartEventView::Verified {
                    chart_id: chart_id@,
                    chart_hash: chart_of(old(self).records(), chart_id@).chart_hash,
                },
            ),
            r is Err ==> final(self).event_log() == old(self).event_log(),
    {
        match self.find(&chart_id) {
            None => Err(ChartRegistryError::ChartDoesNotExist),
            Some(i) => {
                let ghost old_records = self.records();
                let ghost old_log = self.event_log();
                proof {
                    lemma_chart_of_at(old_records, i as int);
                    let j = choose|j: int|
                        0 <= j < old_records.len() && (#[trigger] old_records[j]).chart_id
                            == chart_id@;
                    if j != i {
                        if j < i {
                            assert(old_records[j].chart_id != old_records[i as int].chart_id);
                        } else {
                            assert(old_records[i as int].chart_id != old_records[j].chart_id);
                        }
                    }
                }
                let chart_hash = self.charts[i].chart_hash;
                let updated = ChartCommitment {
                    chart_hash,
                    user: self.charts[i].user,
                    timestamp: self.charts[i].timestamp,
                    zk_verified: true,
                    chart_id: self.charts[i].chart_id.clone(),
                };
                self.charts.set(i, updated);
                let ghost new_record = ChartView { zk_verified: true, ..old_records[i as int] };
                assert(self.records() =~= old_records.update(i as int, new_record));
                self.events.push(ChartEvent::ChartVerified { chart_id, chart_hash });
                assert(self.event_log() =~= old_log.push(
                    ChartEvent::ChartVerified { chart_id, chart_hash }@,
                ));
                Ok(())
            },
        }
    }

    /// The number of commitments registered.
    pub fn total_charts(&self) -> (r: usize)
        ensures
            r == self.records().len(),
    {
        self.charts.len()
    }

    /// Whether the commitment under `chart_id` is marked verified; false for
    /// an unknown id.
    pub fn is_zk_verified(&self, chart_id: String) -> (r: bool)
        requires
            self.wf(),
        ensures
            r == (has_chart(self.records(), chart_id@) && chart_of(
                self.records(),
                chart_id@,
            ).zk_verified),
    {
        match self.find(&chart_id) {
            Some(i) => self.charts[i].zk_verified,
            None => false,
        }
    }

    /// The events emitted so far, oldest first.
    pub fn events(&self) -> (r: &Vec<ChartEvent>)
        ensures
            r@.map_values(|e: ChartEvent| e@) == self.event_log(),
    {
        &self.events
    }
}

} // verus!
