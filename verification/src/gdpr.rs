use vstd::prelude::*;
use crate::env::{AccountId, CallContext};
use crate::gdpr_types::{
    purpose_key_of, ConsentExpired, ConsentGranted, ConsentRecord, ConsentRecordView,
    ConsentStatus, ConsentWithdrawn, DataAccessFulfilled, DataAccessRequest, DataAccessRequested,
    DataRetentionPolicy, Error, GdprEvent, GdprEventView, ProcessingPurpose, PurposeView,
    RetentionPolicyUpdated, RetentionPolicyView,
};

verus! {

/// A stored retention policy together with the key it is stored under.
pub struct PolicyEntry {
    pub key: u32,
    pub policy: DataRetentionPolicy,
}

/// The retention policies held in `entries`, by key.
pub open spec fn policy_map(entries: Seq<PolicyEntry>) -> Map<u32, RetentionPolicyView> {
    Map::new(
        |k: u32| exists|i: int| 0 <= i < entries.len() && entries[i].key == k,
        |k: u32| entries[choose|i: int| 0 <= i < entries.len() && entries[i].key == k].policy@,
    )
}

/// No key occurs twice among `entries`.
pub open spec fn keys_distinct(entries: Seq<PolicyEntry>) -> bool {
    forall|i: int, j: int|
        0 <= i < entries.len() && 0 <= j < entries.len() && i != j ==> entries[i].key
            != entries[j].key
}

/// Whether a consent belongs to `subject`.
pub open spec fn consent_of(subject: AccountId) -> spec_fn(ConsentRecordView) -> bool {
    |c: ConsentRecordView| c.data_subject == subject
}

/// Whether a data access request was made by `subject`.
pub open spec fn request_of(subject: AccountId) -> spec_fn(DataAccessRequest) -> bool {
    |r: DataAccessRequest| r.data_subject == subject
}

/// The values of a sequence of consent records.
pub open spec fn consent_views(records: Seq<ConsentRecord>) -> Seq<ConsentRecordView> {
    records.map_values(|c: ConsentRecord| c@)
}

/// The values of a sequence of events.
pub open spec fn event_views(events: Seq<GdprEvent>) -> Seq<GdprEventView> {
    events.map_values(|e: GdprEvent| e@)
}

/// Filtering a prefix one element longer adds that element when it passes.
pub proof fn lemma_filter_take_step<A>(s: Seq<A>, i: int, pred: spec_fn(A) -> bool)
    requires
        0 <= i < s.len(),
    ensures
        s.take(i + 1).filter(pred) == (if pred(s[i]) {
            s.take(i).filter(pred).push(s[i])
        } else {
            s.take(i).filter(pred)
        }),
{
    reveal_with_fuel(Seq::<_>::filter, 1);
    assert(s.take(i + 1).drop_last() =~= s.take(i));
}

/// The mathematical state of a consent ledger.
pub struct GdprState {
    pub admin: AccountId,
    /// Every consent, in the order it was granted; ids rise along it.
    pub consents: Seq<ConsentRecordView>,
    pub policies: Map<u32, RetentionPolicyView>,
    /// The request with id `i + 1` is `requests[i]`.
    pub requests: Seq<DataAccessRequest>,
    pub next_consent_id: u64,
    pub next_request_id: u64,
    /// Every event emitted so far, oldest first.
    pub events: Seq<GdprEventView>,
}

/// Whether `record` is a consent of `subject` for `purpose` that is granted
/// and has not lapsed at time `now`.
pub open spec fn is_active(
    record: ConsentRecordView,
    subject: AccountId,
    purpose: PurposeView,
    now: u64,
) -> bool {
    &&& record.data_subject == subject
    &&& record.purpose == purpose
    &&& record.status == ConsentStatus::Granted
    &&& record.expires_at > now
}

impl GdprState {
    /// The invariant that every reachable ledger keeps.
    pub open spec fn wf(self) -> bool {
        &&& self.next_consent_id >= 1
        &&& self.next_request_id == self.requests.len() + 1
        &&& forall|i: int, j: int|
            #![trigger self.consents[i], self.consents[j]]
            0 <= i < j < self.consents.len() ==> self.consents[i].consent_id
                < self.consents[j].consent_id
        &&& forall|i: int| 0 <= i < self.consents.len() ==> {
            let c = #[trigger] self.consents[i];
            &&& 1 <= c.consent_id < self.next_consent_id
            &&& c.processor == self.admin
            &&& c.granted_at < c.expires_at
            &&& (c.status == ConsentStatus::Withdrawn) == (c.withdrawn_at is Some)
        }
        &&& forall|i: int| 0 <= i < self.requests.len() ==> {
            let r = #[trigger] self.requests[i];
            &&& r.request_id == i + 1
            &&& r.fulfilled == (r.fulfilled_at is Some)
        }
        &&& forall|k: u32| #[trigger]
            self.policies.contains_key(k) ==> purpose_key_of(self.policies[k].purpose) == k
    }

    /// Whether a consent with the given id is stored.
    pub open spec fn has_consent(self, consent_id: u64) -> bool {
        exists|i: int| 0 <= i < self.consents.len() && #[trigger] self.consents[i].consent_id == consent_id
    }

    /// Where the consent with the given id is stored.
    pub open spec fn consent_index(self, consent_id: u64) -> int {
        choose|i: int| 0 <= i < self.consents.len() && #[trigger] self.consents[i].consent_id == consent_id
    }

    /// The consent with the given id, if there is one.
    pub open spec fn consent(self, consent_id: u64) -> Option<ConsentRecordView> {
        if self.has_consent(consent_id) {
            Some(self.consents[self.consent_index(consent_id)])
        } else {
            None
        }
    }

    /// The data access request with the given id, if there is one.
    pub open spec fn request(self, request_id: u64) -> Option<DataAccessRequest> {
        if 1 <= request_id <= self.requests.len() {
            Some(self.requests[request_id - 1])
        } else {
            None
        }
    }

    /// The consents of `subject`, in the order they were granted.
    pub open spec fn subject_consents(self, subject: AccountId) -> Seq<ConsentRecordView> {
        self.consents.filter(consent_of(subject))
    }

    /// The data access requests of `subject`, in the order they were made.
    pub open spec fn subject_requests(self, subject: AccountId) -> Seq<DataAccessRequest> {
        self.requests.filter(request_of(subject))
    }

    /// Whether `subject` holds a granted, unlapsed consent for `purpose` at `now`.
    pub open spec fn has_active_consent(
        self,
        subject: AccountId,
        purpose: PurposeView,
        now: u64,
    ) -> bool {
        exists|i: int| 0 <= i < self.consents.len() && is_active(self.consents[i], subject, purpose, now)
    }

    /// The retention policy stored for the key of `purpose`, if any.
    pub open spec fn retention_policy(self, purpose: PurposeView) -> Option<RetentionPolicyView> {
        let key = purpose_key_of(purpose);
        if self.policies.contains_key(key) {
            Some(self.policies[key])
        } else {
            None
        }
    }

    /// What `grant_consent` answers.
    pub open spec fn grant_outcome(self, now: u64, duration_ms: u64) -> Result<u64, Error> {
        if duration_ms == 0 || self.next_consent_id == u64::MAX || now + duration_ms > u64::MAX {
            Err(Error::InvalidDuration)
        } else {
            Ok(self.next_consent_id)
        }
    }

    /// The ledger after a refused `grant_consent`: when only the expiry time
    /// overflows, the consent counter has already advanced past the id it
    /// took, so that id is never used. (On chain the contract environment
    /// discards every change of a message that returns an error; a direct
    /// call keeps the advanced counter.)
    pub open spec fn grant_refused(self, duration_ms: u64) -> GdprState {
        if duration_ms != 0 && self.next_consent_id != u64::MAX {
            GdprState { next_consent_id: (self.next_consent_id + 1) as u64, ..self }
        } else {
            self
        }
    }

    /// The ledger after a successful `grant_consent`.
    pub open spec fn granted(
        self,
        now: u64,
        subject: AccountId,
        purpose: PurposeView,
        duration_ms: u64,
    ) -> GdprState {
        let id = self.next_consent_id;
        let record = ConsentRecordView {
            consent_id: id,
            data_subject: subject,
            processor: self.admin,
            purpose,
            status: ConsentStatus::Granted,
            granted_at: now,
            expires_at: (now + duration_ms) as u64,
            withdrawn_at: None,
        };
        GdprState {
            consents: self.consents.push(record),
            next_consent_id: (id + 1) as u64,
            events: self.events.push(
                GdprEventView::ConsentGranted { data_subject: subject, consent_id: id, purpose, timestamp: now },
            ),
            ..self
        }
    }

    /// What `withdraw_consent` answers when `caller` asks.
    pub open spec fn withdraw_outcome(self, caller: AccountId, consent_id: u64) -> Result<(), Error> {
        match self.consent(consent_id) {
            None => Err(Error::ConsentNotFound),
            Some(c) => if c.data_subject != caller && caller != self.admin {
                Err(Error::NotAuthorized)
            } else if c.status != ConsentStatus::Granted {
                Err(Error::ConsentNotFound)
            } else {
                Ok(())
            },
        }
    }

    /// The ledger after a successful `withdraw_consent`.
    pub open spec fn withdrawn(self, now: u64, consent_id: u64) -> GdprState {
        let k = self.consent_index(consent_id);
        let c = self.consents[k];
        GdprState {
            consents: self.consents.update(
                k,
                ConsentRecordView { status: ConsentStatus::Withdrawn, withdrawn_at: Some(now), ..c },
            ),
            events: self.events.push(
                GdprEventView::ConsentWithdrawn {
                    data_subject: c.data_subject,
                    consent_id,
                    purpose: c.purpose,
                    timestamp: now,
                },
            ),
            ..self
        }
    }

    /// What `expire_consent` answers when `caller` asks at `now`.
    pub open spec fn expire_outcome(self, caller: AccountId, now: u64, consent_id: u64) -> Result<(), Error> {
        if caller != self.admin {
            Err(Error::NotAuthorized)
        } else {
            match self.consent(consent_id) {
                None => Err(Error::ConsentNotFound),
                Some(c) => if c.status != ConsentStatus::Granted || c.expires_at > now {
                    Err(Error::ConsentNotFound)
                } else {
                    Ok(())
                },
            }
        }
    }

    /// The ledger after a successful `expire_consent`.
    pub open spec fn expired(self, now: u64, consent_id: u64) -> GdprState {
        let k = self.consent_index(consent_id);
        let c = self.consents[k];
        GdprState {
            consents: self.consents.update(
                k,
                ConsentRecordView { status: ConsentStatus::Expired, ..c },
            ),
            events: self.events.push(
                GdprEventView::ConsentExpired { data_subject: c.data_subject, consent_id, timestamp: now },
            ),
            ..self
        }
    }

    /// What a message reserved to the administrator answers before it does
    /// anything else.
    pub open spec fn admin_check(self, caller: AccountId) -> Result<(), Error> {
        if caller != self.admin {
            Err(Error::NotAuthorized)
        } else {
            Ok(())
        }
    }

    /// The ledger after a successful `set_retention_policy`.
    pub open spec fn policy_set(
        self,
        now: u64,
        purpose: PurposeView,
        retention_days: u64,
        auto_delete: bool,
    ) -> GdprState {
        GdprState {
            policies: self.policies.insert(
                purpose_key_of(purpose),
                RetentionPolicyView { purpose, retention_days, auto_delete },
            ),
            events: self.events.push(
                GdprEventView::RetentionPolicyUpdated { purpose, retention_days, timestamp: now },
            ),
            ..self
        }
    }

    /// What `request_data_access` answers.
    pub open spec fn request_outcome(self) -> Result<u64, Error> {
        if self.next_request_id == u64::MAX {
            Err(Error::InvalidDuration)
        } else {
            Ok(self.next_request_id)
        }
    }

    /// The ledger after a successful `request_data_access` by `caller`.
    pub open spec fn requested(self, caller: AccountId, now: u64) -> GdprState {
        let id = self.next_request_id;
        GdprState {
            requests: self.requests.push(
                DataAccessRequest {
                    request_id: id,
                    data_subject: caller,
                    requested_at: now,
                    fulfilled: false,
                    fulfilled_at: None,
                },
            ),
            next_request_id: (id + 1) as u64,
            events: self.events.push(
                GdprEventView::DataAccessRequested { data_subject: caller, request_id: id, timestamp: now },
            ),
            ..self
        }
    }

    /// What `fulfill_data_access` answers when `caller` asks.
    pub open spec fn fulfill_outcome(self, caller: AccountId, request_id: u64) -> Result<(), Error> {
        if caller != self.admin {
            Err(Error::NotAuthorized)
        } else if self.request(request_id) is None {
            Err(Error::DataRequestNotFound)
        } else {
            Ok(())
        }
    }

    /// The ledger after a successful `fulfill_data_access`.
    pub open spec fn fulfilled(self, now: u64, request_id: u64) -> GdprState {
        let r = self.requests[request_id - 1];
        GdprState {
            requests: self.requests.update(
                request_id - 1,
                DataAccessRequest { fulfilled: true, fulfilled_at: Some(now), ..r },
            ),
            events: self.events.push(
                GdprEventView::DataAccessFulfilled {
                    data_subject: r.data_subject,
                    request_id,
                    timestamp: now,
                },
            ),
            ..self
        }
    }
}

/// A stored entry for `key` makes the policy map answer that entry's policy.
proof fn lemma_policy_map_at(entries: Seq<PolicyEntry>, i: int)
    requires
        keys_distinct(entries),
        0 <= i < entries.len(),
    ensures
        policy_map(entries).contains_key(entries[i].key),
        policy_map(entries)[entries[i].key] == entries[i].policy@,
{
    let k = entries[i].key;
    assert(exists|j: int| 0 <= j < entries.len() && entries[j].key == k);
    let j = choose|j: int| 0 <= j < entries.len() && entries[j].key == k;
    assert(j == i);
}

/// Replacing the entry that holds a key updates that key only.
proof fn lemma_policy_map_update(entries: Seq<PolicyEntry>, i: int, e: PolicyEntry)
    requires
        keys_distinct(entries),
        0 <= i < entries.len(),
        entries[i].key == e.key,
    ensures
        keys_distinct(entries.update(i, e)),
        policy_map(entries.update(i, e)) == policy_map(entries).insert(e.key, e.policy@),
{
    let n = entries.update(i, e);
    assert(keys_distinct(n));
    let m1 = policy_map(n);
    let m2 = policy_map(entries).insert(e.key, e.policy@);
    assert forall|k: u32| m1.contains_key(k) <==> m2.contains_key(k) by {
        if m2.contains_key(k) && k != e.key {
            let j = choose|j: int| 0 <= j < entries.len() && entries[j].key == k;
            assert(n[j].key == k);
        }
        if m1.contains_key(k) && k != e.key {
            let j = choose|j: int| 0 <= j < n.len() && n[j].key == k;
            assert(entries[j].key == k);
        }
        if k == e.key {
            assert(n[i].key == k);
        }
    }
    assert forall|k: u32| m1.contains_key(k) implies m1[k] == m2[k] by {
        let j = choose|j: int| 0 <= j < n.len() && n[j].key == k;
        lemma_policy_map_at(n, j);
        if k != e.key {
            assert(j != i);
            lemma_policy_map_at(entries, j);
        }
    }
    assert(m1 =~= m2);
}

/// Appending an entry for a new key adds that key only.
proof fn lemma_policy_map_push(entries: Seq<PolicyEntry>, e: PolicyEntry)
    requires
        keys_distinct(entries),
        forall|j: int| 0 <= j < entries.len() ==> entries[j].key != e.key,
    ensures
        keys_distinct(entries.push(e)),
        policy_map(entries.push(e)) == policy_map(entries).insert(e.key, e.policy@),
{
    let n = entries.push(e);
    assert(keys_distinct(n));
    let m1 = policy_map(n);
    let m2 = policy_map(entries).insert(e.key, e.policy@);
    assert forall|k: u32| m1.contains_key(k) <==> m2.contains_key(k) by {
        if m2.contains_key(k) && k != e.key {
            let j = choose|j: int| 0 <= j < entries.len() && entries[j].key == k;
            assert(n[j].key == k);
        }
        if m1.contains_key(k) && k != e.key {
            let j = choose|j: int| 0 <= j < n.len() && n[j].key == k;
            assert(entries[j].key == k);
        }
        if k == e.key {
            assert(n[entries.len() as int].key == k);
        }
    }
    assert forall|k: u32| m1.contains_key(k) implies m1[k] == m2[k] by {
        let j = choose|j: int| 0 <= j < n.len() && n[j].key == k;
        lemma_policy_map_at(n, j);
        if k != e.key {
            lemma_policy_map_at(entries, j);
        }
    }
    assert(m1 =~= m2);
}

/// A stored consent is the one found for its id.
pub proof fn lemma_consent_at(s: GdprState, i: int)
    requires
        s.wf(),
        0 <= i < s.consents.len(),
    ensures
        s.has_consent(s.consents[i].consent_id),
        s.consent_index(s.consents[i].consent_id) == i,
        s.consent(s.consents[i].consent_id) == Some(s.consents[i]),
{
    let id = s.consents[i].consent_id;
    assert(s.consents[i].consent_id == id);
    let k = s.consent_index(id);
    assert(s.consents[k].consent_id == id);
    if k < i {
        assert(s.consents[k].consent_id < s.consents[i].consent_id);
    } else if i < k {
        assert(s.consents[i].consent_id < s.consents[k].consent_id);
    }
}

/// A successful grant keeps the ledger's invariant.
pub proof fn lemma_granted_wf(
    s: GdprState,
    now: u64,
    subject: AccountId,
    purpose: PurposeView,
    duration_ms: u64,
)
    requires
        s.wf(),
        s.grant_outcome(now, duration_ms) is Ok,
    ensures
        s.granted(now, subject, purpose, duration_ms).wf(),
{
    let t = s.granted(now, subject, purpose, duration_ms);
    let n = s.consents.len() as int;
    assert forall|i: int, j: int|
        #![trigger t.consents[i], t.consents[j]]
        0 <= i < j < t.consents.len() implies t.consents[i].consent_id < t.consents[j].consent_id by {
        assert(t.consents[i] == s.consents[i]);
        if j < n {
            assert(t.consents[j] == s.consents[j]);
        }
    }
    assert forall|i: int| 0 <= i < t.consents.len() implies {
        let c = #[trigger] t.consents[i];
        &&& 1 <= c.consent_id < t.next_consent_id
        &&& c.processor == t.admin
        &&& c.granted_at < c.expires_at
        &&& (c.status == ConsentStatus::Withdrawn) == (c.withdrawn_at is Some)
    } by {
        if i < n {
            assert(t.consents[i] == s.consents[i]);
        }
    }
}

/// A message that changes a consent ledger, with its arguments.
pub enum GdprMessage {
    GrantConsent { data_subject: AccountId, purpose: PurposeView, duration_ms: u64 },
    WithdrawConsent { consent_id: u64 },
    ExpireConsent { consent_id: u64 },
    SetRetentionPolicy { purpose: PurposeView, retention_days: u64, auto_delete: bool },
    RequestDataAccess,
    FulfillDataAccess { request_id: u64 },
}

/// The ledger after `message` is handled in context `ctx`; a refused message
/// leaves it as it was, but for the consent counter of a refused grant (see
/// `grant_refused`).
pub open spec fn step(s: GdprState, ctx: CallContext, message: GdprMessage) -> GdprState {
    let now = ctx.block_timestamp;
    match message {
        GdprMessage::GrantConsent { data_subject, purpose, duration_ms } => if s.grant_outcome(
            now,
            duration_ms,
        ) is Ok {
            s.granted(now, data_subject, purpose, duration_ms)
        } else {
            s.grant_refused(duration_ms)
        },
        GdprMessage::WithdrawConsent { consent_id } => if s.withdraw_outcome(ctx.caller, consent_id) is Ok {
            s.withdrawn(now, consent_id)
        } else {
            s
        },
        GdprMessage::ExpireConsent { consent_id } => if s.expire_outcome(ctx.caller, now, consent_id) is Ok {
            s.expired(now, consent_id)
        } else {
            s
        },
        GdprMessage::SetRetentionPolicy { purpose, retention_days, auto_delete } => if s.admin_check(
            ctx.caller,
        ) is Ok {
            s.policy_set(now, purpose, retention_days, auto_delete)
        } else {
            s
        },
        GdprMessage::RequestDataAccess => if s.request_outcome() is Ok {
            s.requested(ctx.caller, now)
        } else {
            s
        },
        GdprMessage::FulfillDataAccess { request_id } => if s.fulfill_outcome(ctx.caller, request_id) is Ok {
            s.fulfilled(now, request_id)
        } else {
            s
        },
    }
}

/// A ledger of data subjects' consents, retention policies and data access
/// requests, administered by the account that created it.
pub struct GdprConsent {
    admin: AccountId,
    consent_records: Vec<ConsentRecord>,
    retention_policies: Vec<PolicyEntry>,
    data_access_requests: Vec<DataAccessRequest>,
    next_consent_id: u64,
    next_request_id: u64,
    events: Vec<GdprEvent>,
}

impl View for GdprConsent {
    type V = GdprState;

    closed spec fn view(&self) -> GdprState {
        GdprState {
            admin: self.admin,
            consents: consent_views(self.consent_records@),
            policies: policy_map(self.retention_policies@),
            requests: self.data_access_requests@,
            next_consent_id: self.next_consent_id,
            next_request_id: self.next_request_id,
            events: event_views(self.events@),
        }
    }
}

impl GdprConsent {
    /// The ledger's invariant.
    pub closed spec fn wf(&self) -> bool {
        &&& self@.wf()
        &&& keys_distinct(self.retention_policies@)
    }

    /// The ledger's invariant holds of its mathematical state.
    pub proof fn lemma_wf(&self)
        requires
            self.wf(),
        ensures
            self@.wf(),
    {
    }

    /// Creates an empty ledger administered by the caller.
    pub fn new(ctx: &CallContext) -> (r: Self)
        ensures
            r.wf(),
            r@.admin == ctx.caller,
            r@.consents.len() == 0,
            r@.policies.is_empty(),
            r@.requests.len() == 0,
            r@.next_consent_id == 1,
            r@.next_request_id == 1,
            r@.events.len() == 0,
    {
        let r = GdprConsent {
            admin: ctx.caller,
            consent_records: Vec::new(),
            retention_policies: Vec::new(),
            data_access_requests: Vec::new(),
            next_consent_id: 1,
            next_request_id: 1,
            events: Vec::new(),
        };
        assert(r@.policies =~= Map::empty());
        assert(r@.consents =~= Seq::empty());
        assert(r@.events =~= Seq::empty());
        r
    }

    /// Grants `data_subject`'s consent to processing for `purpose` for
    /// `duration_ms` from now, recorded with the administrator as processor.
    pub fn grant_consent(
        &mut self,
        ctx: &CallContext,
        data_subject: AccountId,
        purpose: ProcessingPurpose,
        duration_ms: u64,
    ) -> (r: Result<u64, Error>)
        requires
            old(self).wf(),
        ensures
            final(self).wf(),
            r == old(self)@.grant_outcome(ctx.block_timestamp, duration_ms),
            duration_ms > 0 && old(self)@.next_consent_id < u64::MAX && ctx.block_timestamp
                + duration_ms <= u64::MAX ==> r == Ok::<u64, Error>(old(self)@.next_consent_id),
            r is Err ==> r == Err::<u64, Error>(Error::InvalidDuration),
            r is Ok ==> final(self)@ == old(self)@.granted(
                ctx.block_timestamp,
                data_subject,
                purpose@,
                duration_ms,
            ),
            r is Err ==> final(self)@ == old(self)@.grant_refused(duration_ms),
            final(self)@ == step(
                old(self)@,
                *ctx,
                GdprMessage::GrantConsent { data_subject, purpose: purpose@, duration_ms },
            ),
    {
        if duration_ms == 0 {
            return Err(Error::InvalidDuration);
        }
        let consent_id = self.next_consent_id;
        if consent_id == u64::MAX {
            return Err(Error::InvalidDuration);
        }
        self.next_consent_id = consent_id + 1;
        let now = ctx.block_timestamp;
        let expires_at = match now.checked_add(duration_ms) {
            Some(t) => t,
            None => {
                return Err(Error::InvalidDuration);
            },
        };
        let ghost old_state = GdprState { next_consent_id: consent_id, ..self@ };
        let record = ConsentRecord {
            consent_id,
            data_subject,
            processor: self.admin,
            purpose: purpose.clone(),
            status: ConsentStatus::Granted,
            granted_at: now,
            expires_at,
            withdrawn_at: None,
        };
        self.consent_records.push(record);
        self.events.push(
            GdprEvent::ConsentGranted(ConsentGranted { data_subject, consent_id, purpose, timestamp: now }),
        );
        proof {
            let new_state = old_state.granted(now, data_subject, purpose@, duration_ms);
            assert(self@.consents =~= new_state.consents);
            assert(self@.events =~= new_state.events);
            lemma_granted_wf(old_state, now, data_subject, purpose@, duration_ms);
        }
        Ok(consent_id)
    }

    /// The consent with the given id, if there is one.
    pub fn get_consent(&self, consent_id: u64) -> (r: Option<ConsentRecord>)
        requires
            self.wf(),
        ensures
            match r {
                Some(c) => self@.consent(consent_id) == Some(c@),
                None => self@.consent(consent_id) is None,
            },
    {
        match self.find_consent(consent_id) {
            Some(k) => Some(self.consent_records[k].clone()),
            None => None,
        }
    }

    /// Where the consent with the given id is stored, if it is.
    fn find_consent(&self, consent_id: u64) -> (r: Option<usize>)
        requires
            self.wf(),
        ensures
            match r {
                Some(k) => k < self@.consents.len() && self@.has_consent(consent_id)
                    && self@.consent_index(consent_id) == k && self@.consents[k as int].consent_id
                    == consent_id,
                None => !self@.has_consent(consent_id),
            },
    {
        let ghost all = self@.consents;
        let mut k: usize = 0;
        while k < self.consent_records.len()
            invariant
                k <= self.consent_records.len(),
                self.wf(),
                all == self@.consents,
                all.len() == self.consent_records.len(),
                forall|j: int| 0 <= j < k ==> all[j].consent_id != consent_id,
            decreases self.consent_records.len() - k,
        {
            assert(all[k as int] == self.consent_records@[k as int]@);
            if self.consent_records[k].consent_id == consent_id {
                proof {
                    self.lemma_wf();
                    lemma_consent_at(self@, k as int);
                }
                return Some(k);
            }
            k = k + 1;
        }
        None
    }

    /// The administrator: the account that created the ledger.
    pub fn admin(&self) -> (r: AccountId)
        ensures
            r == self@.admin,
    {
        self.admin
    }

    /// Refuses a caller other than the administrator.
    fn ensure_admin(&self, ctx: &CallContext) -> (r: Result<(), Error>)
        ensures
            r == self@.admin_check(ctx.caller),
    {
        if !(ctx.caller == self.admin) {
            return Err(Error::NotAuthorized);
        }
        Ok(())
    }

    /// The key under which the retention policy for `purpose` is stored.
    fn purpose_key(purpose: &ProcessingPurpose) -> (k: u32)
        ensures
            k == purpose_key_of(purpose@),
    {
        match purpose {
            ProcessingPurpose::KYC => 1,
            ProcessingPurpose::TaxReporting => 2,
            ProcessingPurpose::RiskAssessment => 3,
            ProcessingPurpose::PropertyValuation => 4,
            ProcessingPurpose::TransactionMonitoring => 5,
            ProcessingPurpose::Marketing => 6,
            ProcessingPurpose::DataAnalytics => 7,
            ProcessingPurpose::Other(_) => 99,
        }
    }

    /// Withdraws a granted consent; the data subject or the administrator
    /// may do so.
    pub fn withdraw_consent(&mut self, ctx: &CallContext, consent_id: u64) -> (r: Result<(), Error>)
        requires
            old(self).wf(),
        ensures
            final(self).wf(),
            r == old(self)@.withdraw_outcome(ctx.caller, consent_id),
            r is Ok ==> final(self)@ == old(self)@.withdrawn(ctx.block_timestamp, consent_id),
            r is Err ==> final(self)@ == old(self)@,
            final(self)@ == step(old(self)@, *ctx, GdprMessage::WithdrawConsent { consent_id }),
    {
        let caller = ctx.caller;
        let idx = match self.find_consent(consent_id) {
            Some(k) => k,
            None => {
                return Err(Error::ConsentNotFound);
            },
        };
        let mut record = self.consent_records[idx].clone();
        if !(record.data_subject == caller) && !(caller == self.admin) {
            return Err(Error::NotAuthorized);
        }
        if record.status != ConsentStatus::Granted {
            return Err(Error::ConsentNotFound);
        }
        let ghost old_state = self@;
        let now = ctx.block_timestamp;
        record.status = ConsentStatus::Withdrawn;
        record.withdrawn_at = Some(now);
        let data_subject = record.data_subject;
        let purpose = record.purpose.clone();
        self.consent_records.set(idx, record);
        self.events.push(
            GdprEvent::ConsentWithdrawn(ConsentWithdrawn { data_subject, consent_id, purpose, timestamp: now }),
        );
        proof {
            let new_state = old_state.withdrawn(now, consent_id);
            assert(self@.consents =~= new_state.consents);
            assert(self@.events =~= new_state.events);
        }
        Ok(())
    }

    /// The consents of `data_subject`, in the order they were granted.
    pub fn get_subject_consents(&self, data_subject: AccountId) -> (r: Vec<ConsentRecord>)
        requires
            self.wf(),
        ensures
            consent_views(r@) == self@.subject_consents(data_subject),
    {
        let ghost pred = consent_of(data_subject);
        let ghost all = self@.consents;
        let mut records: Vec<ConsentRecord> = Vec::new();
        let mut i: usize = 0;
        while i < self.consent_records.len()
            invariant
                i <= self.consent_records.len(),
                all == self@.consents,
                all.len() == self.consent_records.len(),
                consent_views(records@) == all.take(i as int).filter(pred),
                pred == consent_of(data_subject),
            decreases self.consent_records.len() - i,
        {
            let ghost before = consent_views(records@);
            let c = &self.consent_records[i];
            assert(all[i as int] == c@);
            proof {
                lemma_filter_take_step(all, i as int, pred);
            }
            if c.data_subject == data_subject {
                records.push(c.clone());
                assert(consent_views(records@) =~= before.push(all[i as int]));
            } else {
                assert(consent_views(records@) =~= before);
            }
            i = i + 1;
        }
        assert(all.take(all.len() as int) =~= all);
        records
    }

    /// Whether `data_subject` holds a granted consent for `purpose` that has
    /// not lapsed at the block time.
    pub fn check_consent(
        &self,
        ctx: &CallContext,
        data_subject: AccountId,
        purpose: ProcessingPurpose,
    ) -> (r: bool)
        requires
            self.wf(),
        ensures
            r == self@.has_active_consent(data_subject, purpose@, ctx.block_timestamp),
            r <==> exists|i: int|
                0 <= i < self@.consents.len() && (#[trigger] self@.consents[i]).data_subject
                    == data_subject && self@.consents[i].purpose == purpose@
                    && self@.consents[i].status == ConsentStatus::Granted
                    && self@.consents[i].expires_at > ctx.block_timestamp,
    {
        let now = ctx.block_timestamp;
        let ghost all = self@.consents;
        let mut i: usize = 0;
        while i < self.consent_records.len()
            invariant
                i <= self.consent_records.len(),
                all == self@.consents,
                all.len() == self.consent_records.len(),
                now == ctx.block_timestamp,
                forall|j: int| 0 <= j < i ==> !is_active(all[j], data_subject, purpose@, now),
            decreases self.consent_records.len() - i,
        {
            let c = &self.consent_records[i];
            assert(all[i as int] == c@);
            if c.data_subject == data_subject && c.purpose.same_as(&purpose)
                && c.status == ConsentStatus::Granted && c.expires_at > now {
                assert(is_active(self@.consents[i as int], data_subject, purpose@, now));
                assert(self@.has_active_consent(data_subject, purpose@, now));
                return true;
            }
            i = i + 1;
        }
        false
    }

    /// Marks a lapsed granted consent as expired; reserved to the
    /// administrator.
    pub fn expire_consent(&mut self, ctx: &CallContext, consent_id: u64) -> (r: Result<(), Error>)
        requires
            old(self).wf(),
        ensures
            final(self).wf(),
            r == old(self)@.expire_outcome(ctx.caller, ctx.block_timestamp, consent_id),
            r is Ok ==> final(self)@ == old(self)@.expired(ctx.block_timestamp, consent_id),
            r is Err ==> final(self)@ == old(self)@,
            final(self)@ == step(old(self)@, *ctx, GdprMessage::ExpireConsent { consent_id }),
    {
        self.ensure_admin(ctx)?;
        let idx = match self.find_consent(consent_id) {
            Some(k) => k,
            None => {
                return Err(Error::ConsentNotFound);
            },
        };
        let mut record = self.consent_records[idx].clone();
        let now = ctx.block_timestamp;
        if record.status != ConsentStatus::Granted || record.expires_at > now {
            return Err(Error::ConsentNotFound);
        }
        let ghost old_state = self@;
        record.status = ConsentStatus::Expired;
        let data_subject = record.data_subject;
        self.consent_records.set(idx, record);
        self.events.push(
            GdprEvent::ConsentExpired(ConsentExpired { data_subject, consent_id, timestamp: now }),
        );
        proof {
            let new_state = old_state.expired(now, consent_id);
            assert(self@.consents =~= new_state.consents);
            assert(self@.events =~= new_state.events);
        }
        Ok(())
    }

    /// The index of the stored entry for `key`, if there is one.
    fn find_policy(&self, key: u32) -> (r: Option<usize>)
        ensures
            match r {
                Some(i) => i < self.retention_policies@.len() && self.retention_policies@[i as int].key
                    == key,
                None => forall|j: int|
                    0 <= j < self.retention_policies@.len() ==> self.retention_policies@[j].key != key,
            },
    {
        let mut i: usize = 0;
        while i < self.retention_policies.len()
            invariant
                i <= self.retention_policies.len(),
                forall|j: int| 0 <= j < i ==> self.retention_policies@[j].key != key,
            decreases self.retention_policies.len() - i,
        {
            if self.retention_policies[i].key == key {
                return Some(i);
            }
            i = i + 1;
        }
        None
    }

    /// Sets the retention policy for `purpose`, replacing the one stored
    /// under the same key; reserved to the administrator.
    pub fn set_retention_policy(
        &mut self,
        ctx: &CallContext,
        purpose: ProcessingPurpose,
        retention_days: u64,
        auto_delete: bool,
    ) -> (r: Result<(), Error>)
        requires
            old(self).wf(),
        ensures
            final(self).wf(),
            r == old(self)@.admin_check(ctx.caller),
            r is Ok ==> final(self)@ == old(self)@.policy_set(
                ctx.block_timestamp,
                purpose@,
                retention_days,
                auto_delete,
            ),
            r is Err ==> final(self)@ == old(self)@,
            final(self)@ == step(
                old(self)@,
                *ctx,
                GdprMessage::SetRetentionPolicy { purpose: purpose@, retention_days, auto_delete },
            ),
    {
        self.ensure_admin(ctx)?;
        let ghost old_state = self@;
        let ghost old_entries = self.retention_policies@;
        let key = Self::purpose_key(&purpose);
        let entry = PolicyEntry {
            key,
            policy: DataRetentionPolicy { purpose: purpose.clone(), retention_days, auto_delete },
        };
        match self.find_policy(key) {
            Some(i) => {
                proof {
                    lemma_policy_map_update(old_entries, i as int, entry);
                }
                self.retention_policies.set(i, entry);
            },
            None => {
                proof {
                    lemma_policy_map_push(old_entries, entry);
                }
                self.retention_policies.push(entry);
            },
        }
        let now = ctx.block_timestamp;
        self.events.push(
            GdprEvent::RetentionPolicyUpdated(
                RetentionPolicyUpdated { purpose, retention_days, timestamp: now },
            ),
        );
        proof {
            let new_state = old_state.policy_set(now, purpose@, retention_days, auto_delete);
            assert(self@.events =~= new_state.events);
            assert(self@.policies == new_state.policies);
        }
        Ok(())
    }

    /// The retention policy stored under the key of `purpose`, if any.
    pub fn get_retention_policy(&self, purpose: ProcessingPurpose) -> (r: Option<DataRetentionPolicy>)
        requires
            self.wf(),
        ensures
            match r {
                Some(p) => self@.retention_policy(purpose@) == Some(p@),
                None => self@.retention_policy(purpose@) is None,
            },
    {
        let key = Self::purpose_key(&purpose);
        match self.find_policy(key) {
            Some(i) => {
                proof {
                    lemma_policy_map_at(self.retention_policies@, i as int);
                }
                Some(self.retention_policies[i].policy.clone())
            },
            None => None,
        }
    }

    /// Records the caller's request for access to their data.
    pub fn request_data_access(&mut self, ctx: &CallContext) -> (r: Result<u64, Error>)
        requires
            old(self).wf(),
        ensures
            final(self).wf(),
            r == old(self)@.request_outcome(),
            r is Ok ==> final(self)@ == old(self)@.requested(ctx.caller, ctx.block_timestamp),
            r is Err ==> final(self)@ == old(self)@,
            final(self)@ == step(old(self)@, *ctx, GdprMessage::RequestDataAccess),
    {
        let caller = ctx.caller;
        let request_id = self.next_request_id;
        if request_id == u64::MAX {
            return Err(Error::InvalidDuration);
        }
        let ghost old_state = self@;
        let now = ctx.block_timestamp;
        let request = DataAccessRequest {
            request_id,
            data_subject: caller,
            requested_at: now,
            fulfilled: false,
            fulfilled_at: None,
        };
        self.data_access_requests.push(request);
        self.next_request_id = request_id + 1;
        self.events.push(
            GdprEvent::DataAccessRequested(
                DataAccessRequested { data_subject: caller, request_id, timestamp: now },
            ),
        );
        proof {
            let new_state = old_state.requested(caller, now);
            assert(self@.requests =~= new_state.requests);
            assert(self@.events =~= new_state.events);
        }
        Ok(request_id)
    }

    /// Marks a data access request as fulfilled; reserved to the
    /// administrator.
    pub fn fulfill_data_access(&mut self, ctx: &CallContext, request_id: u64) -> (r: Result<(), Error>)
        requires
            old(self).wf(),
        ensures
            final(self).wf(),
            r == old(self)@.fulfill_outcome(ctx.caller, request_id),
            r is Ok ==> final(self)@ == old(self)@.fulfilled(ctx.block_timestamp, request_id),
            r is Err ==> final(self)@ == old(self)@,
            final(self)@ == step(old(self)@, *ctx, GdprMessage::FulfillDataAccess { request_id }),
    {
        self.ensure_admin(ctx)?;
        if request_id == 0 || request_id > self.data_access_requests.len() as u64 {
            return Err(Error::DataRequestNotFound);
        }
        let ghost old_state = self@;
        let idx = (request_id - 1) as usize;
        let mut request = self.data_access_requests[idx];
        let now = ctx.block_timestamp;
        request.fulfilled = true;
        request.fulfilled_at = Some(now);
        self.data_access_requests.set(idx, request);
        self.events.push(
            GdprEvent::DataAccessFulfilled(
                DataAccessFulfilled { data_subject: request.data_subject, request_id, timestamp: now },
            ),
        );
        proof {
            let new_state = old_state.fulfilled(now, request_id);
            assert(self@.requests =~= new_state.requests);
            assert(self@.events =~= new_state.events);
        }
        Ok(())
    }

    /// The data access request with the given id, if there is one.
    pub fn get_data_access_request(&self, request_id: u64) -> (r: Option<DataAccessRequest>)
        requires
            self.wf(),
        ensures
            r == self@.request(request_id),
    {
        if request_id == 0 || request_id > self.data_access_requests.len() as u64 {
            None
        } else {
            Some(self.data_access_requests[(request_id - 1) as usize])
        }
    }

    /// The data access requests of `data_subject`, in the order they were made.
    pub fn get_subject_requests(&self, data_subject: AccountId) -> (r: Vec<DataAccessRequest>)
        requires
            self.wf(),
        ensures
            r@ == self@.subject_requests(data_subject),
    {
        let ghost pred = request_of(data_subject);
        let ghost all = self@.requests;
        let mut requests: Vec<DataAccessRequest> = Vec::new();
        let mut i: usize = 0;
        while i < self.data_access_requests.len()
            invariant
                i <= self.data_access_requests.len(),
                all == self@.requests,
                all == self.data_access_requests@,
                requests@ == all.take(i as int).filter(pred),
                pred == request_of(data_subject),
            decreases self.data_access_requests.len() - i,
        {
            let r = self.data_access_requests[i];
            proof {
                lemma_filter_take_step(all, i as int, pred);
            }
            if r.data_subject == data_subject {
                requests.push(r);
            }
            i = i + 1;
        }
        assert(all.take(all.len() as int) =~= all);
        requests
    }

    /// The events emitted so far and not yet taken, oldest first.
    pub fn events(&self) -> (r: &Vec<GdprEvent>)
        ensures
            event_views(r@) == self@.events,
    {
        &self.events
    }

    /// Hands out the events emitted so far, leaving none behind.
    pub fn take_events(&mut self) -> (r: Vec<GdprEvent>)
        requires
            old(self).wf(),
        ensures
            final(self).wf(),
            event_views(r@) == old(self)@.events,
            final(self)@ == (GdprState { events: Seq::empty(), ..old(self)@ }),
    {
        let mut taken: Vec<GdprEvent> = Vec::new();
        std::mem::swap(&mut taken, &mut self.events);
        assert(self@.events =~= Seq::empty());
        taken
    }
}

} // verus!
