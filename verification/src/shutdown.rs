//! Graceful shutdown bookkeeping for active uploads and downloads.
//!
//! `ShutdownState` holds the draining flag, the in-flight transfers keyed by
//! their 128-bit transfer ids, and the lifetime counters of completed and
//! aborted transfers. Callers that share it between tasks hold it behind a
//! lock and wake waiters when an operation reports a change.

use std::collections::BTreeMap;

use vstd::prelude::*;
use vstd::std_specs::btree::spec_keys_iter;
use vstd::std_specs::iter::IteratorSpec;

verus! {

#[verifier::external_type_specification]
#[verifier::external_body]
pub struct ExJsonValue(serde_json::Value);

/// Network transfer categories tracked during graceful shutdown.
#[derive(Clone, Copy, PartialEq, Eq, Structural, Debug)]
pub enum TransferKind {
    Download,
    Upload,
}

impl TransferKind {
    /// The lower-case name of the kind: `download` or `upload`.
    pub fn as_str(self) -> (r: &'static str)
        ensures
            r@ == match self {
                TransferKind::Download => "download"@,
                TransferKind::Upload => "upload"@,
            },
    {
        match self {
            TransferKind::Download => "download",
            TransferKind::Upload => "upload",
        }
    }
}

/// Metadata that identifies and audits one in-flight transfer.
pub struct ActiveTransfer {
    pub transfer_id: u128,
    pub request_id: String,
    pub kind: TransferKind,
    pub fields: BTreeMap<String, serde_json::Value>,
    forced: bool,
}

/// The plain content of an `ActiveTransfer`.
pub struct TransferView {
    pub transfer_id: u128,
    pub request_id: Seq<char>,
    pub kind: TransferKind,
    pub fields: Map<String, serde_json::Value>,
    pub forced: bool,
}

impl View for ActiveTransfer {
    type V = TransferView;

    closed spec fn view(&self) -> TransferView {
        TransferView {
            transfer_id: self.transfer_id,
            request_id: self.request_id@,
            kind: self.kind,
            fields: self.fields@,
            forced: self.forced,
        }
    }
}

impl ActiveTransfer {
    /// The id of the transfer.
    pub fn transfer_id(&self) -> (r: u128)
        ensures
            r == self@.transfer_id,
    {
        self.transfer_id
    }

    /// Whether shutdown forced this transfer: it counts as aborted when it ends.
    pub fn is_forced(&self) -> (r: bool)
        ensures
            r == self@.forced,
    {
        self.forced
    }

    /// A copy of the transfer with the same content.
    pub fn duplicate(&self) -> (r: ActiveTransfer)
        ensures
            r@ == self@,
    {
        ActiveTransfer {
            transfer_id: self.transfer_id,
            request_id: self.request_id.clone(),
            kind: self.kind,
            fields: self.fields.clone(),
            forced: self.forced,
        }
    }
}

/// Inserts or replaces one audit field.
///
/// Trusted: `BTreeMap::insert` maps `key` to `value` and keeps every other
/// entry; `String` keys are ordered by their content, so equal keys are the
/// same entry.
#[verifier::external_body]
fn insert_field(fields: &mut BTreeMap<String, serde_json::Value>, key: String, value: serde_json::Value)
    ensures
        final(fields)@ == old(fields)@.insert(key, value),
{
    fields.insert(key, value);
}

/// A fresh random transfer id: the 128 bits of a version-4 UUID.
///
/// Trusted: `uuid::Uuid::new_v4`, read as a number by `Uuid::as_u128`. The
/// value is random; what is stated of it is what the source fixes of every
/// outcome: the version nibble is 4 and the two variant bits are `10`.
#[verifier::external_body]
fn random_transfer_id() -> (id: u128)
    ensures
        (id >> 76u128) & 0xfu128 == 4u128,
        (id >> 62u128) & 0x3u128 == 2u128,
{
    uuid::Uuid::new_v4().as_u128()
}

/// Lifetime counters of transfers that ended.
#[derive(Clone, Copy, Debug)]
pub struct TransferTotals {
    pub completed: u64,
    pub aborted: u64,
}

/// Listener draining and in-flight transfer bookkeeping.
pub struct ShutdownState {
    draining: bool,
    active: BTreeMap<u128, ActiveTransfer>,
    completed: u64,
    aborted: u64,
}

/// The plain content of a `ShutdownState`.
pub struct ShutdownView {
    pub draining: bool,
    pub active: Map<u128, TransferView>,
    pub completed: u64,
    pub aborted: u64,
}

impl View for ShutdownState {
    type V = ShutdownView;

    closed spec fn view(&self) -> ShutdownView {
        ShutdownView {
            draining: self.draining,
            active: self.active@.map_values(|t: ActiveTransfer| t@),
            completed: self.completed,
            aborted: self.aborted,
        }
    }
}

/// `n + 1`, wrapping to 0 past `u64::MAX` (`AtomicU64::fetch_add`).
pub open spec fn counter_next(n: u64) -> u64 {
    if n == u64::MAX {
        0
    } else {
        (n + 1) as u64
    }
}

/// The keys of a `BTreeMap` of ids come out in increasing order.
proof fn lemma_keys_increase(ks: Seq<&u128>)
    requires
        vstd::std_specs::btree::increasing_seq(ks),
    ensures
        forall|i: int, j: int| 0 <= i < j < ks.len() ==> *ks[i] < *ks[j],
{
    broadcast use vstd::laws_cmp::group_laws_cmp;
    broadcast use vstd::std_specs::btree::axiom_increasing_seq_meaning;

    assert forall|i: int, j: int| 0 <= i < j < ks.len() implies *ks[i] < *ks[j] by {
        assert(vstd::std_specs::cmp::OrdSpec::cmp_spec(&ks[i], &ks[j]) is Less);
    }
}

/// What `begin_draining` answers and leaves: whether this call started
/// draining, and the state, now draining.
pub open spec fn spec_begin_draining(s: ShutdownView) -> (bool, ShutdownView) {
    (!s.draining, ShutdownView { draining: true, ..s })
}

/// The answers of `n` calls of `begin_draining` made one after another.
pub open spec fn drain_answers(s: ShutdownView, n: nat) -> Seq<bool>
    decreases n,
{
    if n == 0 {
        seq![]
    } else {
        seq![spec_begin_draining(s).0] + drain_answers(spec_begin_draining(s).1, (n - 1) as nat)
    }
}

/// The state after transfer `id` starts.
pub open spec fn spec_start(s: ShutdownView, id: u128, request_id: Seq<char>, kind: TransferKind, fields: Map<String, serde_json::Value>) -> ShutdownView {
    ShutdownView {
        active: s.active.insert(
            id,
            TransferView { transfer_id: id, request_id, kind, fields, forced: false },
        ),
        ..s
    }
}

/// The state after transfer `id` ends: it leaves the active set and counts
/// as aborted if shutdown forced it, else as completed. An unknown id changes
/// nothing.
pub open spec fn spec_finish(s: ShutdownView, id: u128) -> ShutdownView {
    if s.active.contains_key(id) {
        if s.active[id].forced {
            ShutdownView { active: s.active.remove(id), aborted: counter_next(s.aborted), ..s }
        } else {
            ShutdownView { active: s.active.remove(id), completed: counter_next(s.completed), ..s }
        }
    } else {
        s
    }
}

/// The state after shutdown forces every active transfer.
pub open spec fn spec_mark_forced(s: ShutdownView) -> ShutdownView {
    ShutdownView {
        active: s.active.map_values(|t: TransferView| TransferView { forced: true, ..t }),
        ..s
    }
}

/// The transfers ever started that the state accounts for.
pub open spec fn accounted(s: ShutdownView) -> int {
    s.completed + s.aborted + s.active.dom().len()
}

impl ShutdownState {
    /// Every active transfer is stored under its own id.
    pub closed spec fn wf(&self) -> bool {
        &&& forall|k: u128| #[trigger]
            self.active@.contains_key(k) ==> self.active@[k].transfer_id == k
        &&& self.active@.dom().finite()
    }

    /// No draining, no transfers, zero totals.
    pub fn new() -> (r: Self)
        ensures
            r.wf(),
            r@.draining == false,
            r@.active == Map::<u128, TransferView>::empty(),
            r@.completed == 0,
            r@.aborted == 0,
    {
        let r = ShutdownState { draining: false, active: BTreeMap::new(), completed: 0, aborted: 0 };
        assert(r@.active =~= Map::<u128, TransferView>::empty());
        r
    }

    /// Starts draining; true only for the call that started it.
    pub fn begin_draining(&mut self) -> (first: bool)
        ensures
            (first, final(self)@) == spec_begin_draining(old(self)@),
            first == !old(self)@.draining,
            final(self)@ == (ShutdownView { draining: true, ..old(self)@ }),
            old(self).wf() ==> final(self).wf(),
    {
        let first = !self.draining;
        self.draining = true;
        first
    }

    /// Whether draining has started.
    pub fn is_draining(&self) -> (r: bool)
        ensures
            r == self@.draining,
    {
        self.draining
    }

    /// Registers a new transfer under a fresh random id and returns the id.
    pub fn start_transfer(
        &mut self,
        kind: TransferKind,
        request_id: String,
        fields: BTreeMap<String, serde_json::Value>,
    ) -> (transfer_id: u128)
        requires
            old(self).wf(),
        ensures
            final(self).wf(),
            final(self)@ == spec_start(old(self)@, transfer_id, request_id@, kind, fields@),
    {
        let transfer_id = random_transfer_id();
        self.register_transfer(transfer_id, kind, request_id, fields);
        transfer_id
    }

    /// Registers a new transfer under `transfer_id`.
    pub fn register_transfer(
        &mut self,
        transfer_id: u128,
        kind: TransferKind,
        request_id: String,
        fields: BTreeMap<String, serde_json::Value>,
    )
        requires
            old(self).wf(),
        ensures
            final(self).wf(),
            final(self)@ == spec_start(old(self)@, transfer_id, request_id@, kind, fields@),
    {
        let ghost req = request_id@;
        let ghost f = fields@;
        let transfer = ActiveTransfer { transfer_id, request_id, kind, fields, forced: false };
        self.active.insert(transfer_id, transfer);
        assert(self@.active =~= spec_start(old(self)@, transfer_id, req, kind, f).active);
    }

    /// The number of transfers in flight.
    pub fn active_count(&self) -> (r: usize)
        requires
            self.wf(),
        ensures
            r == self@.active.dom().len(),
    {
        assert(self@.active.dom() =~= self.active@.dom());
        self.active.len()
    }

    /// The completed and aborted totals.
    pub fn totals(&self) -> (r: TransferTotals)
        ensures
            r.completed == self@.completed,
            r.aborted == self@.aborted,
    {
        TransferTotals { completed: self.completed, aborted: self.aborted }
    }

    /// Sets an audit field of transfer `transfer_id`, if it is still active.
    pub fn set_field(&mut self, transfer_id: u128, key: String, value: serde_json::Value)
        requires
            old(self).wf(),
        ensures
            final(self).wf(),
            final(self)@ == if old(self)@.active.contains_key(transfer_id) {
                ShutdownView {
                    active: old(self)@.active.insert(
                        transfer_id,
                        TransferView {
                            fields: old(self)@.active[transfer_id].fields.insert(key, value),
                            ..old(self)@.active[transfer_id]
                        },
                    ),
                    ..old(self)@
                }
            } else {
                old(self)@
            },
    {
        match self.active.remove(&transfer_id) {
            Some(mut transfer) => {
                insert_field(&mut transfer.fields, key, value);
                self.active.insert(transfer_id, transfer);
                assert(self@.active =~= old(self)@.active.insert(
                    transfer_id,
                    TransferView {
                        fields: old(self)@.active[transfer_id].fields.insert(key, value),
                        ..old(self)@.active[transfer_id]
                    },
                ));
            },
            None => {
                assert(self.active@ =~= old(self).active@);
            },
        }
    }

    /// Marks every active transfer as forced, so that it counts as aborted
    /// when it ends, and returns them in the order of their ids.
    pub fn mark_active_forced(&mut self) -> (r: Vec<ActiveTransfer>)
        requires
            old(self).wf(),
        ensures
            final(self).wf(),
            final(self)@ == spec_mark_forced(old(self)@),
            r.len() == final(self)@.active.dom().len(),
            forall|i: int|
                #![trigger r@[i]]
                0 <= i < r.len() ==> final(self)@.active.contains_key(r@[i]@.transfer_id)
                    && r@[i]@ == final(self)@.active[r@[i]@.transfer_id],
            forall|i: int, j: int|
                #![trigger r@[i], r@[j]]
                0 <= i < j < r.len() ==> r@[i]@.transfer_id < r@[j]@.transfer_id,
    {
        let ghost old_active = self@.active;
        let mut ids: Vec<u128> = Vec::new();
        let keys = self.active.keys();
        let ghost ks: Seq<&u128> = IteratorSpec::remaining(&keys);
        proof {
            assert(ks == spec_keys_iter(&self.active).remaining());
            assert(ks.unref().to_set() == self.active@.dom());
            assert(ks.no_duplicates());
            lemma_keys_increase(ks);
        }
        for id in it: keys
            invariant
                it.seq() == ks,
                ids@ == it.seq().take(it.index() as int).map_values(|k: &u128| *k),
        {
            ids.push(*id);
            proof {
                assert(it.seq().take(it.index() as int + 1).map_values(|k: &u128| *k)
                    =~= it.seq().take(it.index() as int).map_values(|k: &u128| *k).push(*id));
            }
        }
        assert(ks.take(ks.len() as int) =~= ks);
        assert(ids@ =~= ks.unref());
        assert(ids@.to_set() =~= old_active.dom());
        assert(ids@.no_duplicates());
        assert(forall|a: int, b: int| 0 <= a < b < ids.len() ==> ids@[a] < ids@[b]);

        let mut r: Vec<ActiveTransfer> = Vec::new();
        let mut i: usize = 0;
        while i < ids.len()
            invariant
                self.wf(),
                ids@.no_duplicates(),
                ids@.to_set() == old_active.dom(),
                i <= ids.len(),
                r.len() == i,
                self@.active.dom() == old_active.dom(),
                self@.draining == old(self)@.draining,
                self@.completed == old(self)@.completed,
                self@.aborted == old(self)@.aborted,
                forall|j: int| #![trigger ids@[j]] 0 <= j < i ==> self@.active[ids@[j]] == (TransferView { forced: true, ..old_active[ids@[j]] }),
                forall|j: int| #![trigger ids@[j]] i <= j < ids.len() ==> self@.active[ids@[j]] == old_active[ids@[j]],
                forall|j: int| #![trigger r@[j]] 0 <= j < i ==> r@[j]@ == self@.active[ids@[j]] && r@[j]@.transfer_id == ids@[j],
            decreases ids.len() - i,
        {
            let id = ids[i];
            assert(ids@.to_set().contains(id));
            match self.active.remove(&id) {
                Some(mut transfer) => {
                    transfer.forced = true;
                    let copy = transfer.duplicate();
                    self.active.insert(id, transfer);
                    r.push(copy);
                    assert(self@.active.dom() =~= old_active.dom());
                },
                None => {
                    assert(false);
                },
            }
            i = i + 1;
        }
        assert(self@.active =~= spec_mark_forced(old(self)@).active);
        assert forall|a: int, b: int| #![trigger r@[a], r@[b]] 0 <= a < b < r.len() implies r@[a]@.transfer_id < r@[b]@.transfer_id by {
            assert(ids@[a] < ids@[b]);
        }
        assert forall|a: int| #![trigger r@[a]] 0 <= a < r.len() implies self@.active.contains_key(r@[a]@.transfer_id) && r@[a]@ == self@.active[r@[a]@.transfer_id] by {
            assert(ids@.to_set().contains(ids@[a]));
        }
        proof {
            ids@.unique_seq_to_set();
        }
        r
    }

    /// Ends transfer `transfer_id`; returns whether it was active.
    pub fn finish(&mut self, transfer_id: u128) -> (changed: bool)
        requires
            old(self).wf(),
        ensures
            final(self).wf(),
            changed == old(self)@.active.contains_key(transfer_id),
            final(self)@ == spec_finish(old(self)@, transfer_id),
    {
        match self.active.remove(&transfer_id) {
            Some(transfer) => {
                if transfer.forced {
                    self.aborted = self.aborted.wrapping_add(1);
                } else {
                    self.completed = self.completed.wrapping_add(1);
                }
                assert(self@.active =~= old(self)@.active.remove(transfer_id));
                true
            },
            None => {
                assert(self.active@ =~= old(self).active@);
                false
            },
        }
    }
}

} // verus!

verus! {

/// Of calls of `begin_draining` made one after another (as callers that
/// share the state behind a lock make them), only the first can answer
/// true, and it does exactly when draining had not started.
pub proof fn lemma_only_first_drain_call_starts(s: ShutdownView, n: nat)
    ensures
        drain_answers(s, n).len() == n,
        forall|i: int| 0 <= i < n ==> #[trigger] drain_answers(s, n)[i] == (i == 0 && !s.draining),
    decreases n,
{
    if n > 0 {
        let next = spec_begin_draining(s).1;
        lemma_only_first_drain_call_starts(next, (n - 1) as nat);
        let rest = drain_answers(next, (n - 1) as nat);
        assert forall|i: int| 0 <= i < n implies #[trigger] drain_answers(s, n)[i] == (i == 0
            && !s.draining) by {
            if i > 0 {
                assert(drain_answers(s, n)[i] == rest[i - 1]);
            }
        }
    }
}

/// Starting a transfer under a fresh id makes the state account for one more
/// transfer.
pub proof fn lemma_start_accounts_one_more(
    s: ShutdownView,
    id: u128,
    request_id: Seq<char>,
    kind: TransferKind,
    fields: Map<String, serde_json::Value>,
)
    requires
        s.active.dom().finite(),
        !s.active.contains_key(id),
    ensures
        accounted(spec_start(s, id, request_id, kind, fields)) == accounted(s) + 1,
{
}

/// Ending a transfer moves it from the active set to exactly one of the two
/// totals, so the number of accounted transfers stays the same (while the
/// totals are below `u64::MAX`).
pub proof fn lemma_finish_keeps_accounting(s: ShutdownView, id: u128)
    requires
        s.active.dom().finite(),
        s.completed < u64::MAX,
        s.aborted < u64::MAX,
    ensures
        accounted(spec_finish(s, id)) == accounted(s),
{
}

/// A transfer that shutdown forced ends as aborted, never as completed; one
/// that was not forced ends as completed.
pub proof fn lemma_finish_counts_by_force(s: ShutdownView, id: u128)
    requires
        s.active.contains_key(id),
    ensures
        spec_finish(spec_mark_forced(s), id).aborted == counter_next(s.aborted),
        spec_finish(spec_mark_forced(s), id).completed == s.completed,
        !s.active[id].forced ==> spec_finish(s, id).completed == counter_next(s.completed)
            && spec_finish(s, id).aborted == s.aborted,
        !spec_finish(s, id).active.contains_key(id),
{
}

/// A started transfer is active under its id with the kind, request and
/// audit fields it was started with, not forced; every other transfer is
/// left as it was. Forcing keeps each transfer's id, kind, request and
/// fields and only marks it forced, so a transfer started with kind `k`
/// is reported by `mark_active_forced` with kind `k`.
pub proof fn lemma_started_transfer_keeps_what_it_was_given(
    s: ShutdownView,
    id: u128,
    request_id: Seq<char>,
    kind: TransferKind,
    fields: Map<String, serde_json::Value>,
    other: u128,
)
    ensures
        ({
            let t = spec_start(s, id, request_id, kind, fields);
            &&& t.active.contains_key(id)
            &&& t.active[id].transfer_id == id
            &&& t.active[id].kind == kind
            &&& t.active[id].request_id == request_id
            &&& t.active[id].fields == fields
            &&& !t.active[id].forced
            &&& t.draining == s.draining && t.completed == s.completed && t.aborted == s.aborted
            &&& other != id ==> (t.active.contains_key(other) == s.active.contains_key(other))
            &&& other != id && s.active.contains_key(other) ==> t.active[other] == s.active[other]
            &&& spec_mark_forced(t).active.contains_key(id)
            &&& spec_mark_forced(t).active[id].kind == kind
            &&& spec_mark_forced(t).active[id].transfer_id == id
            &&& spec_mark_forced(t).active[id].request_id == request_id
            &&& spec_mark_forced(t).active[id].fields == fields
            &&& spec_mark_forced(t).active[id].forced
        }),
{
}

} // verus!
