//! What holds of every consent ledger, across messages.
use vstd::prelude::*;
use crate::env::{AccountId, CallContext};
use crate::gdpr::{
    consent_of, is_active, lemma_consent_at, lemma_granted_wf, request_of, step, GdprMessage,
    GdprState,
};
use crate::gdpr_types::{
    purpose_key_of, ConsentRecordView, ConsentStatus, DataAccessRequest, Error, PurposeView,
    RetentionPolicyView,
};

verus! {

/// `t` keeps every consent, request and event of `s`: a consent keeps who
/// gave it, for what and for how long, and once withdrawn or expired it never
/// changes again; a request keeps who made it and when, and stays fulfilled
/// once fulfilled; the administrator stays the same.
pub open spec fn only_settles(s: GdprState, t: GdprState) -> bool {
    &&& t.admin == s.admin
    &&& s.consents.len() <= t.consents.len()
    &&& forall|i: int| #![trigger t.consents[i]] 0 <= i < s.consents.len() ==> {
        let a = s.consents[i];
        let b = t.consents[i];
        &&& b.consent_id == a.consent_id
        &&& b.data_subject == a.data_subject
        &&& b.processor == a.processor
        &&& b.purpose == a.purpose
        &&& b.granted_at == a.granted_at
        &&& b.expires_at == a.expires_at
        &&& a.status != ConsentStatus::Granted ==> b == a
    }
    &&& s.requests.len() <= t.requests.len()
    &&& forall|i: int| #![trigger t.requests[i]] 0 <= i < s.requests.len() ==> {
        let a = s.requests[i];
        let b = t.requests[i];
        &&& b.request_id == a.request_id
        &&& b.data_subject == a.data_subject
        &&& b.requested_at == a.requested_at
        &&& a.fulfilled ==> b.fulfilled
    }
    &&& s.events.len() <= t.events.len()
    &&& forall|i: int| 0 <= i < s.events.len() ==> #[trigger] t.events[i] == s.events[i]
}

/// Every message keeps the ledger's invariant, and only settles what the
/// ledger holds: nothing is ever removed, a withdrawn or expired consent is
/// never revived or altered, and emitted events stay emitted.
pub proof fn lemma_step_keeps_invariant(s: GdprState, ctx: CallContext, message: GdprMessage)
    requires
        s.wf(),
    ensures
        step(s, ctx, message).wf(),
        only_settles(s, step(s, ctx, message)),
{
    let t = step(s, ctx, message);
    match message {
        GdprMessage::SetRetentionPolicy { purpose, retention_days, auto_delete } => {
            if s.admin_check(ctx.caller) is Ok {
                let k = purpose_key_of(purpose);
                assert forall|k2: u32| #[trigger] t.policies.contains_key(k2) implies purpose_key_of(
                    t.policies[k2].purpose,
                ) == k2 by {
                    if k2 != k {
                        assert(s.policies.contains_key(k2));
                    }
                }
            }
        },
        _ => {},
    }
}

/// Filtering a sequence with one more element at its end.
proof fn lemma_filter_push<A>(s: Seq<A>, x: A, pred: spec_fn(A) -> bool)
    ensures
        s.push(x).filter(pred) == (if pred(x) {
            s.filter(pred).push(x)
        } else {
            s.filter(pred)
        }),
{
    reveal_with_fuel(Seq::<_>::filter, 1);
    assert(s.push(x).drop_last() =~= s);
}

/// Two ledgers whose consents agree at every position but `at`, where the
/// second holds a consent with id `id` (replacing one with the same id, or
/// appended), find the same consent for every other id.
proof fn lemma_consent_lookup_frame(s: GdprState, t: GdprState, at: int, id: u64)
    requires
        s.wf(),
        t.wf(),
        0 <= at < t.consents.len(),
        t.consents[at].consent_id == id,
        t.consents.len() == s.consents.len() || (t.consents.len() == s.consents.len() + 1
            && at == s.consents.len()),
        at < s.consents.len() ==> s.consents[at].consent_id == id,
        forall|i: int| 0 <= i < s.consents.len() && i != at ==> t.consents[i] == s.consents[i],
    ensures
        forall|other: u64| other != id ==> #[trigger] t.consent(other) == s.consent(other),
{
    assert forall|other: u64| other != id implies #[trigger] t.consent(other) == s.consent(other) by {
        if s.has_consent(other) {
            let i = choose|i: int| 0 <= i < s.consents.len() && #[trigger] s.consents[i].consent_id == other;
            lemma_consent_at(s, i);
            assert(i != at);
            assert(t.consents[i] == s.consents[i]);
            lemma_consent_at(t, i);
        }
        if t.has_consent(other) {
            let j = choose|j: int| 0 <= j < t.consents.len() && #[trigger] t.consents[j].consent_id == other;
            assert(j != at);
            assert(t.consents[j] == s.consents[j]);
            assert(s.consents[j].consent_id == other);
        }
    }
}

/// A granted consent is read back as granted, is active until it lapses,
/// joins the end of its subject's consents, and leaves every other consent
/// as it was; the id was unused before, and the next consent takes the next
/// id.
pub proof fn lemma_grant_then_read(
    s: GdprState,
    now: u64,
    data_subject: AccountId,
    purpose: PurposeView,
    duration_ms: u64,
)
    requires
        s.wf(),
        s.grant_outcome(now, duration_ms) is Ok,
    ensures
        ({
            let id = s.next_consent_id;
            let t = s.granted(now, data_subject, purpose, duration_ms);
            let record = ConsentRecordView {
                consent_id: id,
                data_subject,
                processor: s.admin,
                purpose,
                status: ConsentStatus::Granted,
                granted_at: now,
                expires_at: (now + duration_ms) as u64,
                withdrawn_at: None,
            };
            &&& s.grant_outcome(now, duration_ms) == Ok::<u64, Error>(id)
            &&& s.consent(id) is None
            &&& t.consent(id) == Some(record)
            &&& forall|other: u64| other != id ==> #[trigger] t.consent(other) == s.consent(other)
            &&& forall|later: u64|
                later < now + duration_ms ==> t.has_active_consent(data_subject, purpose, later)
            &&& t.subject_consents(data_subject) == s.subject_consents(data_subject).push(record)
            &&& forall|other: AccountId|
                other != data_subject ==> #[trigger] t.subject_consents(other) == s.subject_consents(
                    other,
                )
            &&& t.next_consent_id == id + 1
            &&& forall|later: u64, d: u64| #[trigger]
                t.grant_outcome(later, d) is Ok ==> t.grant_outcome(later, d) == Ok::<u64, Error>(
                    (id + 1) as u64,
                )
        }),
{
    let id = s.next_consent_id;
    let t = s.granted(now, data_subject, purpose, duration_ms);
    let n = s.consents.len() as int;
    let record = t.consents[n];
    lemma_granted_wf(s, now, data_subject, purpose, duration_ms);
    lemma_consent_at(t, n);
    lemma_consent_lookup_frame(s, t, n, id);
    if s.has_consent(id) {
        let i = choose|i: int| 0 <= i < s.consents.len() && #[trigger] s.consents[i].consent_id == id;
        assert(s.consents[i].consent_id < s.next_consent_id);
    }
    assert forall|later: u64| later < now + duration_ms implies t.has_active_consent(
        data_subject,
        purpose,
        later,
    ) by {
        assert(is_active(t.consents[s.consents.len() as int], data_subject, purpose, later));
    }
    lemma_filter_push(s.consents, record, consent_of(data_subject));
    assert forall|other: AccountId| other != data_subject implies #[trigger] t.subject_consents(other)
        == s.subject_consents(other) by {
        lemma_filter_push(s.consents, record, consent_of(other));
    }
}

/// A withdrawn consent is read back as withdrawn at the block time, cannot be
/// withdrawn again (its subject and the administrator are told it is not
/// found), and no longer counts: withdrawal never makes a subject
/// hold a consent it did not hold before.
pub proof fn lemma_withdraw_ends_consent(s: GdprState, ctx: CallContext, consent_id: u64)
    requires
        s.wf(),
        s.withdraw_outcome(ctx.caller, consent_id) is Ok,
    ensures
        ({
            let t = s.withdrawn(ctx.block_timestamp, consent_id);
            let c = s.consent(consent_id)->0;
            &&& s.consent(consent_id) is Some
            &&& c.status == ConsentStatus::Granted
            &&& ctx.caller == c.data_subject || ctx.caller == s.admin
            &&& t.consent(consent_id) == Some(
                ConsentRecordView {
                    status: ConsentStatus::Withdrawn,
                    withdrawn_at: Some(ctx.block_timestamp),
                    ..c
                },
            )
            &&& forall|caller: AccountId| #[trigger] t.withdraw_outcome(caller, consent_id) is Err
            &&& t.withdraw_outcome(c.data_subject, consent_id) == Err::<(), Error>(Error::ConsentNotFound)
            &&& t.withdraw_outcome(s.admin, consent_id) == Err::<(), Error>(Error::ConsentNotFound)
            &&& forall|subject: AccountId, purpose: PurposeView, when: u64|
                #[trigger] t.has_active_consent(subject, purpose, when) ==> s.has_active_consent(
                    subject,
                    purpose,
                    when,
                )
            &&& forall|other: u64| other != consent_id ==> #[trigger] t.consent(other) == s.consent(other)
        }),
{
    let t = s.withdrawn(ctx.block_timestamp, consent_id);
    let k = s.consent_index(consent_id);
    lemma_step_keeps_invariant(s, ctx, GdprMessage::WithdrawConsent { consent_id });
    lemma_consent_at(t, k);
    lemma_consent_lookup_frame(s, t, k, consent_id);
    assert forall|subject: AccountId, purpose: PurposeView, when: u64|
        #[trigger] t.has_active_consent(subject, purpose, when) implies s.has_active_consent(
        subject,
        purpose,
        when,
    ) by {
        let i = choose|i: int| 0 <= i < t.consents.len() && is_active(t.consents[i], subject, purpose, when);
        assert(i != k);
        assert(is_active(s.consents[i], subject, purpose, when));
    }
}

/// Expiring a lapsed consent is read back as expired and changes no answer of
/// `check_consent` at that block time or later.
pub proof fn lemma_expire_keeps_answers(s: GdprState, ctx: CallContext, consent_id: u64)
    requires
        s.wf(),
        s.expire_outcome(ctx.caller, ctx.block_timestamp, consent_id) is Ok,
    ensures
        ({
            let t = s.expired(ctx.block_timestamp, consent_id);
            let c = s.consent(consent_id)->0;
            &&& ctx.caller == s.admin
            &&& s.consent(consent_id) is Some
            &&& c.status == ConsentStatus::Granted
            &&& c.expires_at <= ctx.block_timestamp
            &&& t.consent(consent_id) == Some(ConsentRecordView { status: ConsentStatus::Expired, ..c })
            &&& forall|subject: AccountId, purpose: PurposeView, when: u64|
                when >= ctx.block_timestamp ==> #[trigger] t.has_active_consent(subject, purpose, when)
                    == s.has_active_consent(subject, purpose, when)
        }),
{
    let t = s.expired(ctx.block_timestamp, consent_id);
    let k = s.consent_index(consent_id);
    lemma_step_keeps_invariant(s, ctx, GdprMessage::ExpireConsent { consent_id });
    lemma_consent_at(t, k);
    assert forall|subject: AccountId, purpose: PurposeView, when: u64|
        when >= ctx.block_timestamp implies #[trigger] t.has_active_consent(subject, purpose, when)
        == s.has_active_consent(subject, purpose, when) by {
        if t.has_active_consent(subject, purpose, when) {
            let i = choose|i: int| 0 <= i < t.consents.len() && is_active(t.consents[i], subject, purpose, when);
            assert(i != k);
            assert(is_active(s.consents[i], subject, purpose, when));
        }
        if s.has_active_consent(subject, purpose, when) {
            let i = choose|i: int| 0 <= i < s.consents.len() && is_active(s.consents[i], subject, purpose, when);
            assert(i != k);
            assert(is_active(t.consents[i], subject, purpose, when));
        }
    }
}

/// A retention policy that is set is read back for its purpose and for every
/// purpose stored under the same key, and leaves the policies of the other
/// keys as they were.
pub proof fn lemma_policy_then_read(
    s: GdprState,
    now: u64,
    purpose: PurposeView,
    retention_days: u64,
    auto_delete: bool,
)
    requires
        s.wf(),
    ensures
        ({
            let t = s.policy_set(now, purpose, retention_days, auto_delete);
            let policy = RetentionPolicyView { purpose, retention_days, auto_delete };
            &&& t.retention_policy(purpose) == Some(policy)
            &&& forall|other: PurposeView|
                purpose_key_of(other) == purpose_key_of(purpose) ==> #[trigger] t.retention_policy(other)
                    == Some(policy)
            &&& forall|other: PurposeView|
                purpose_key_of(other) != purpose_key_of(purpose) ==> #[trigger] t.retention_policy(other)
                    == s.retention_policy(other)
        }),
{
}

/// A data access request is read back as an unfulfilled request of its
/// caller, joins the end of the caller's requests, and leaves everything else
/// as it was; the id was unused before, and the next request takes the next
/// id.
pub proof fn lemma_request_then_read(s: GdprState, caller: AccountId, now: u64)
    requires
        s.wf(),
        s.request_outcome() is Ok,
    ensures
        ({
            let id = s.next_request_id;
            let t = s.requested(caller, now);
            let request = DataAccessRequest {
                request_id: id,
                data_subject: caller,
                requested_at: now,
                fulfilled: false,
                fulfilled_at: None,
            };
            &&& s.request_outcome() == Ok::<u64, Error>(id)
            &&& s.request(id) is None
            &&& t.request(id) == Some(request)
            &&& forall|other: u64| other != id ==> #[trigger] t.request(other) == s.request(other)
            &&& t.subject_requests(caller) == s.subject_requests(caller).push(request)
            &&& forall|other: AccountId|
                other != caller ==> #[trigger] t.subject_requests(other) == s.subject_requests(other)
            &&& t.next_request_id == id + 1
            &&& t.request_outcome() is Ok ==> t.request_outcome() == Ok::<u64, Error>((id + 1) as u64)
        }),
{
    let t = s.requested(caller, now);
    let request = t.requests[s.requests.len() as int];
    lemma_filter_push(s.requests, request, request_of(caller));
    assert forall|other: AccountId| other != caller implies #[trigger] t.subject_requests(other)
        == s.subject_requests(other) by {
        lemma_filter_push(s.requests, request, request_of(other));
    }
}

/// A fulfilled request is read back as fulfilled at the block time, and no
/// other request changes.
pub proof fn lemma_fulfill_then_read(s: GdprState, ctx: CallContext, request_id: u64)
    requires
        s.wf(),
        s.fulfill_outcome(ctx.caller, request_id) is Ok,
    ensures
        ({
            let t = s.fulfilled(ctx.block_timestamp, request_id);
            let r = s.request(request_id)->0;
            &&& ctx.caller == s.admin
            &&& s.request(request_id) is Some
            &&& t.request(request_id) == Some(
                DataAccessRequest { fulfilled: true, fulfilled_at: Some(ctx.block_timestamp), ..r },
            )
            &&& forall|other: u64| other != request_id ==> #[trigger] t.request(other) == s.request(other)
        }),
{
}

/// The ledger after each call of `calls`, a context and a message, is
/// handled in turn, oldest first.
pub open spec fn run(s: GdprState, calls: Seq<(CallContext, GdprMessage)>) -> GdprState
    decreases calls.len(),
{
    if calls.len() == 0 {
        s
    } else {
        step(run(s, calls.drop_last()), calls.last().0, calls.last().1)
    }
}

/// Settling twice is settling.
proof fn lemma_only_settles_trans(a: GdprState, b: GdprState, c: GdprState)
    requires
        only_settles(a, b),
        only_settles(b, c),
    ensures
        only_settles(a, c),
{
    assert forall|i: int| #![trigger c.consents[i]] 0 <= i < a.consents.len() implies {
        let x = a.consents[i];
        let z = c.consents[i];
        &&& z.consent_id == x.consent_id
        &&& z.data_subject == x.data_subject
        &&& z.processor == x.processor
        &&& z.purpose == x.purpose
        &&& z.granted_at == x.granted_at
        &&& z.expires_at == x.expires_at
        &&& x.status != ConsentStatus::Granted ==> z == x
    } by {
        assert(b.consents[i] == b.consents[i]);
    }
    assert forall|i: int| #![trigger c.requests[i]] 0 <= i < a.requests.len() implies {
        let x = a.requests[i];
        let z = c.requests[i];
        &&& z.request_id == x.request_id
        &&& z.data_subject == x.data_subject
        &&& z.requested_at == x.requested_at
        &&& x.fulfilled ==> z.fulfilled
    } by {
        assert(b.requests[i] == b.requests[i]);
    }
    assert forall|i: int| 0 <= i < a.events.len() implies #[trigger] c.events[i] == a.events[i] by {
        assert(b.events[i] == a.events[i]);
    }
}

/// Over any sequence of messages the ledger keeps its invariant and only
/// settles what it holds: every consent stays, keeps who gave it, for what
/// and for how long, moves at most once from granted to withdrawn or expired
/// and never back; every request stays and stays fulfilled once fulfilled.
pub proof fn lemma_run_only_settles(s: GdprState, calls: Seq<(CallContext, GdprMessage)>)
    requires
        s.wf(),
    ensures
        run(s, calls).wf(),
        only_settles(s, run(s, calls)),
    decreases calls.len(),
{
    if calls.len() == 0 {
        assert(only_settles(s, s));
    } else {
        let before = run(s, calls.drop_last());
        lemma_run_only_settles(s, calls.drop_last());
        lemma_step_keeps_invariant(before, calls.last().0, calls.last().1);
        lemma_only_settles_trans(s, before, run(s, calls));
    }
}

/// A withdrawn or expired consent is final: withdrawing or expiring it again
/// is refused, and its subject and the administrator are told it is not
/// found.
pub proof fn lemma_settled_consent_is_final(s: GdprState, caller: AccountId, now: u64, consent_id: u64)
    requires
        s.consent(consent_id) matches Some(c) && c.status != ConsentStatus::Granted,
    ensures
        s.withdraw_outcome(caller, consent_id) is Err,
        s.expire_outcome(caller, now, consent_id) is Err,
        caller == s.consent(consent_id)->0.data_subject || caller == s.admin ==> s.withdraw_outcome(
            caller,
            consent_id,
        ) == Err::<(), Error>(Error::ConsentNotFound),
        caller == s.admin ==> s.expire_outcome(caller, now, consent_id) == Err::<(), Error>(
            Error::ConsentNotFound,
        ),
{
}

/// The id of a consent.
pub open spec fn consent_id_of() -> spec_fn(ConsentRecordView) -> u64 {
    |c: ConsentRecordView| c.consent_id
}

/// The id of a data access request.
pub open spec fn request_id_of() -> spec_fn(DataAccessRequest) -> u64 {
    |r: DataAccessRequest| r.request_id
}

/// The stored consent with a given id.
pub open spec fn consent_by_id(s: GdprState) -> spec_fn(u64) -> ConsentRecordView {
    |i: u64| s.consent(i)->0
}

/// The stored data access request with a given id.
pub open spec fn request_by_id(s: GdprState) -> spec_fn(u64) -> DataAccessRequest {
    |i: u64| s.request(i)->0
}

/// The ids of `subject`'s consents, in the order they were granted.
pub open spec fn subject_consent_ids(s: GdprState, subject: AccountId) -> Seq<u64> {
    s.subject_consents(subject).map_values(consent_id_of())
}

/// The ids of `subject`'s data access requests, in the order they were made.
pub open spec fn subject_request_ids(s: GdprState, subject: AccountId) -> Seq<u64> {
    s.subject_requests(subject).map_values(request_id_of())
}

/// The ids that `grant_consent` returned for `subject` while `calls` were
/// handled, in call order.
pub open spec fn granted_ids(
    s: GdprState,
    calls: Seq<(CallContext, GdprMessage)>,
    subject: AccountId,
) -> Seq<u64>
    decreases calls.len(),
{
    if calls.len() == 0 {
        Seq::empty()
    } else {
        let before = run(s, calls.drop_last());
        let earlier = granted_ids(s, calls.drop_last(), subject);
        let ctx = calls.last().0;
        match calls.last().1 {
            GdprMessage::GrantConsent { data_subject, purpose: _, duration_ms } => if data_subject
                == subject && before.grant_outcome(ctx.block_timestamp, duration_ms) is Ok {
                earlier.push(before.next_consent_id)
            } else {
                earlier
            },
            _ => earlier,
        }
    }
}

/// The ids that `request_data_access` returned to `subject` as caller while
/// `calls` were handled, in call order.
pub open spec fn requested_ids(
    s: GdprState,
    calls: Seq<(CallContext, GdprMessage)>,
    subject: AccountId,
) -> Seq<u64>
    decreases calls.len(),
{
    if calls.len() == 0 {
        Seq::empty()
    } else {
        let before = run(s, calls.drop_last());
        let earlier = requested_ids(s, calls.drop_last(), subject);
        let ctx = calls.last().0;
        match calls.last().1 {
            GdprMessage::RequestDataAccess => if ctx.caller == subject && before.request_outcome() is Ok {
                earlier.push(before.next_request_id)
            } else {
                earlier
            },
            _ => earlier,
        }
    }
}

/// The subject ids of two equally long consent sequences that agree on owner
/// and id at every position.
proof fn lemma_consent_ids_frame(a: Seq<ConsentRecordView>, b: Seq<ConsentRecordView>, subject: AccountId)
    requires
        a.len() == b.len(),
        forall|i: int|
            #![trigger b[i]]
            0 <= i < a.len() ==> b[i].data_subject == a[i].data_subject && b[i].consent_id
                == a[i].consent_id,
    ensures
        b.filter(consent_of(subject)).map_values(consent_id_of()) == a.filter(consent_of(subject)).map_values(
            consent_id_of(),
        ),
    decreases a.len(),
{
    if a.len() > 0 {
        let (a0, b0) = (a.drop_last(), b.drop_last());
        assert forall|i: int| #![trigger b0[i]] 0 <= i < a0.len() implies b0[i].data_subject
            == a0[i].data_subject && b0[i].consent_id == a0[i].consent_id by {
            assert(b[i] == b0[i]);
        }
        lemma_consent_ids_frame(a0, b0, subject);
        assert(a0.push(a.last()) =~= a);
        assert(b0.push(b.last()) =~= b);
        lemma_filter_push(a0, a.last(), consent_of(subject));
        lemma_filter_push(b0, b.last(), consent_of(subject));
        let fa = a0.filter(consent_of(subject));
        let fb = b0.filter(consent_of(subject));
        assert(fa.push(a.last()).map_values(consent_id_of()) =~= fa.map_values(consent_id_of()).push(
            a.last().consent_id,
        ));
        assert(fb.push(b.last()).map_values(consent_id_of()) =~= fb.map_values(consent_id_of()).push(
            b.last().consent_id,
        ));
    }
}

/// The subject ids of two equally long request sequences that agree on
/// requester and id at every position.
proof fn lemma_request_ids_frame(a: Seq<DataAccessRequest>, b: Seq<DataAccessRequest>, subject: AccountId)
    requires
        a.len() == b.len(),
        forall|i: int|
            #![trigger b[i]]
            0 <= i < a.len() ==> b[i].data_subject == a[i].data_subject && b[i].request_id
                == a[i].request_id,
    ensures
        b.filter(request_of(subject)).map_values(request_id_of()) == a.filter(request_of(subject)).map_values(
            request_id_of(),
        ),
    decreases a.len(),
{
    if a.len() > 0 {
        let (a0, b0) = (a.drop_last(), b.drop_last());
        assert forall|i: int| #![trigger b0[i]] 0 <= i < a0.len() implies b0[i].data_subject
            == a0[i].data_subject && b0[i].request_id == a0[i].request_id by {
            assert(b[i] == b0[i]);
        }
        lemma_request_ids_frame(a0, b0, subject);
        assert(a0.push(a.last()) =~= a);
        assert(b0.push(b.last()) =~= b);
        lemma_filter_push(a0, a.last(), request_of(subject));
        lemma_filter_push(b0, b.last(), request_of(subject));
        let fa = a0.filter(request_of(subject));
        let fb = b0.filter(request_of(subject));
        assert(fa.push(a.last()).map_values(request_id_of()) =~= fa.map_values(request_id_of()).push(
            a.last().request_id,
        ));
        assert(fb.push(b.last()).map_values(request_id_of()) =~= fb.map_values(request_id_of()).push(
            b.last().request_id,
        ));
    }
}

/// Over any sequence of messages, a subject's consents gain exactly the ids
/// that `grant_consent` returned for that subject, in call order.
pub proof fn lemma_subject_consents_follow_grants(
    s: GdprState,
    calls: Seq<(CallContext, GdprMessage)>,
    subject: AccountId,
)
    requires
        s.wf(),
    ensures
        subject_consent_ids(run(s, calls), subject) == subject_consent_ids(s, subject) + granted_ids(
            s,
            calls,
            subject,
        ),
    decreases calls.len(),
{
    if calls.len() == 0 {
        assert(subject_consent_ids(s, subject) + Seq::<u64>::empty() =~= subject_consent_ids(s, subject));
    } else {
        let before = run(s, calls.drop_last());
        let t = run(s, calls);
        let ctx = calls.last().0;
        lemma_subject_consents_follow_grants(s, calls.drop_last(), subject);
        lemma_run_only_settles(s, calls.drop_last());
        lemma_step_keeps_invariant(before, ctx, calls.last().1);
        let earlier = granted_ids(s, calls.drop_last(), subject);
        match calls.last().1 {
            GdprMessage::GrantConsent { data_subject, purpose, duration_ms } => {
                if before.grant_outcome(ctx.block_timestamp, duration_ms) is Ok {
                    let record = t.consents[before.consents.len() as int];
                    assert(t.consents == before.consents.push(record));
                    lemma_filter_push(before.consents, record, consent_of(subject));
                    let f = before.consents.filter(consent_of(subject));
                    if data_subject == subject {
                        assert(f.push(record).map_values(consent_id_of()) =~= f.map_values(
                            consent_id_of(),
                        ).push(record.consent_id));
                        assert(subject_consent_ids(s, subject) + earlier.push(before.next_consent_id)
                            =~= (subject_consent_ids(s, subject) + earlier).push(before.next_consent_id));
                    }
                }
            },
            _ => {
                assert(t.consents.len() == before.consents.len());
                lemma_consent_ids_frame(before.consents, t.consents, subject);
            },
        }
    }
}

/// Over any sequence of messages, a subject's data access requests gain
/// exactly the ids that `request_data_access` returned to that subject as
/// caller, in call order.
pub proof fn lemma_subject_requests_follow_requests(
    s: GdprState,
    calls: Seq<(CallContext, GdprMessage)>,
    subject: AccountId,
)
    requires
        s.wf(),
    ensures
        subject_request_ids(run(s, calls), subject) == subject_request_ids(s, subject) + requested_ids(
            s,
            calls,
            subject,
        ),
    decreases calls.len(),
{
    if calls.len() == 0 {
        assert(subject_request_ids(s, subject) + Seq::<u64>::empty() =~= subject_request_ids(s, subject));
    } else {
        let before = run(s, calls.drop_last());
        let t = run(s, calls);
        let ctx = calls.last().0;
        lemma_subject_requests_follow_requests(s, calls.drop_last(), subject);
        lemma_run_only_settles(s, calls.drop_last());
        lemma_step_keeps_invariant(before, ctx, calls.last().1);
        let earlier = requested_ids(s, calls.drop_last(), subject);
        match calls.last().1 {
            GdprMessage::RequestDataAccess => {
                if before.request_outcome() is Ok {
                    let request = t.requests[before.requests.len() as int];
                    assert(t.requests == before.requests.push(request));
                    lemma_filter_push(before.requests, request, request_of(subject));
                    let f = before.requests.filter(request_of(subject));
                    if ctx.caller == subject {
                        assert(f.push(request).map_values(request_id_of()) =~= f.map_values(
                            request_id_of(),
                        ).push(request.request_id));
                        assert(subject_request_ids(s, subject) + earlier.push(before.next_request_id)
                            =~= (subject_request_ids(s, subject) + earlier).push(before.next_request_id));
                    }
                }
            },
            _ => {
                assert(t.requests.len() == before.requests.len());
                lemma_request_ids_frame(before.requests, t.requests, subject);
            },
        }
    }
}

/// The consents of a subject, taken from consents with rising ids, are
/// stored consents of that subject with rising ids.
proof fn lemma_filtered_consents(cs: Seq<ConsentRecordView>, subject: AccountId)
    requires
        forall|i: int, j: int|
            #![trigger cs[i], cs[j]]
            0 <= i < j < cs.len() ==> cs[i].consent_id < cs[j].consent_id,
    ensures
        ({
            let f = cs.filter(consent_of(subject));
            &&& forall|k: int|
                0 <= k < f.len() ==> (#[trigger] f[k]).data_subject == subject && exists|j: int|
                    0 <= j < cs.len() && cs[j] == f[k]
            &&& forall|k: int, l: int| 0 <= k < l < f.len() ==> f[k].consent_id < f[l].consent_id
        }),
    decreases cs.len(),
{
    if cs.len() > 0 {
        let c0 = cs.drop_last();
        let n = c0.len() as int;
        assert forall|i: int, j: int|
            #![trigger c0[i], c0[j]]
            0 <= i < j < c0.len() implies c0[i].consent_id < c0[j].consent_id by {
            assert(cs[i] == c0[i] && cs[j] == c0[j]);
        }
        lemma_filtered_consents(c0, subject);
        assert(c0.push(cs.last()) =~= cs);
        lemma_filter_push(c0, cs.last(), consent_of(subject));
        let f0 = c0.filter(consent_of(subject));
        let f = cs.filter(consent_of(subject));
        assert forall|k: int| 0 <= k < f.len() implies (#[trigger] f[k]).data_subject == subject
            && exists|j: int| 0 <= j < cs.len() && cs[j] == f[k] by {
            if k < f0.len() {
                assert(f[k] == f0[k]);
                let j = choose|j: int| 0 <= j < c0.len() && c0[j] == f0[k];
                assert(cs[j] == c0[j]);
            } else {
                assert(cs[n] == f[k]);
            }
        }
        assert forall|k: int, l: int| 0 <= k < l < f.len() implies f[k].consent_id < f[l].consent_id by {
            assert(f[k] == f0[k]);
            if l < f0.len() {
                assert(f[l] == f0[l]);
            } else {
                let j = choose|j: int| 0 <= j < c0.len() && c0[j] == f0[k];
                assert(cs[j] == c0[j]);
                assert(cs[j].consent_id < cs[n].consent_id);
            }
        }
    }
}

/// The requests of a subject, taken from requests whose ids follow their
/// positions, are stored requests of that subject with rising ids.
proof fn lemma_filtered_requests(rs: Seq<DataAccessRequest>, subject: AccountId)
    requires
        forall|i: int| 0 <= i < rs.len() ==> #[trigger] rs[i].request_id == i + 1,
    ensures
        ({
            let f = rs.filter(request_of(subject));
            &&& forall|k: int|
                0 <= k < f.len() ==> 1 <= #[trigger] f[k].request_id <= rs.len() && rs[f[k].request_id - 1]
                    == f[k] && f[k].data_subject == subject
            &&& forall|k: int, l: int| 0 <= k < l < f.len() ==> f[k].request_id < f[l].request_id
        }),
    decreases rs.len(),
{
    if rs.len() > 0 {
        let r0 = rs.drop_last();
        assert forall|i: int| 0 <= i < r0.len() implies #[trigger] r0[i].request_id == i + 1 by {
            assert(rs[i] == r0[i]);
        }
        lemma_filtered_requests(r0, subject);
        assert(r0.push(rs.last()) =~= rs);
        lemma_filter_push(r0, rs.last(), request_of(subject));
        let f0 = r0.filter(request_of(subject));
        let f = rs.filter(request_of(subject));
        assert(rs.last().request_id == rs.len());
        assert forall|k: int|
            0 <= k < f.len() implies 1 <= #[trigger] f[k].request_id <= rs.len() && rs[f[k].request_id
            - 1] == f[k] && f[k].data_subject == subject by {
            if k < f0.len() {
                assert(f[k] == f0[k]);
                assert(rs[f0[k].request_id - 1] == r0[f0[k].request_id - 1]);
            }
        }
        assert forall|k: int, l: int| 0 <= k < l < f.len() implies f[k].request_id < f[l].request_id by {
            assert(f[k] == f0[k]);
            if l < f0.len() {
                assert(f[l] == f0[l]);
            }
        }
    }
}

/// A subject's consents are the stored consents with the subject's ids, in
/// rising id order.
pub proof fn lemma_subject_consents_are_stored(s: GdprState, subject: AccountId)
    requires
        s.wf(),
    ensures
        s.subject_consents(subject) == subject_consent_ids(s, subject).map_values(
            consent_by_id(s),
        ),
        forall|k: int, l: int|
            0 <= k < l < subject_consent_ids(s, subject).len() ==> subject_consent_ids(s, subject)[k]
                < subject_consent_ids(s, subject)[l],
        forall|k: int|
            0 <= k < s.subject_consents(subject).len() ==> (#[trigger] s.subject_consents(subject)[k]).data_subject
                == subject,
{
    lemma_filtered_consents(s.consents, subject);
    let f = s.subject_consents(subject);
    let ids = subject_consent_ids(s, subject);
    assert forall|k: int| 0 <= k < f.len() implies #[trigger] ids.map_values(consent_by_id(s))[k]
        == f[k] by {
        assert(ids[k] == f[k].consent_id);
        let j = choose|j: int| 0 <= j < s.consents.len() && s.consents[j] == f[k];
        lemma_consent_at(s, j);
    }
    assert(f =~= ids.map_values(consent_by_id(s)));
}

/// A subject's data access requests are the stored requests with the
/// subject's ids, in rising id order.
pub proof fn lemma_subject_requests_are_stored(s: GdprState, subject: AccountId)
    requires
        s.wf(),
    ensures
        s.subject_requests(subject) == subject_request_ids(s, subject).map_values(
            request_by_id(s),
        ),
        forall|k: int, l: int|
            0 <= k < l < subject_request_ids(s, subject).len() ==> subject_request_ids(s, subject)[k]
                < subject_request_ids(s, subject)[l],
        forall|k: int|
            0 <= k < s.subject_requests(subject).len() ==> (#[trigger] s.subject_requests(subject)[k]).data_subject
                == subject,
{
    lemma_filtered_requests(s.requests, subject);
    let f = s.subject_requests(subject);
    let ids = subject_request_ids(s, subject);
    assert forall|k: int| 0 <= k < f.len() implies #[trigger] ids.map_values(request_by_id(s))[k]
        == f[k] by {
        assert(ids[k] == f[k].request_id);
    }
    assert(f =~= ids.map_values(request_by_id(s)));
}

/// Starting from a ledger with no consents and no requests, after any
/// sequence of messages a subject's consents are exactly the consents with
/// the ids `grant_consent` returned for that subject, and its requests are
/// exactly the requests with the ids `request_data_access` returned to it,
/// both in call order and as they now stand.
pub proof fn lemma_subject_lists_over_calls(
    s: GdprState,
    calls: Seq<(CallContext, GdprMessage)>,
    subject: AccountId,
)
    requires
        s.wf(),
        s.consents.len() == 0,
        s.requests.len() == 0,
    ensures
        ({
            let t = run(s, calls);
            &&& t.subject_consents(subject) == granted_ids(s, calls, subject).map_values(
                consent_by_id(t),
            )
            &&& t.subject_requests(subject) == requested_ids(s, calls, subject).map_values(
                request_by_id(t),
            )
        }),
{
    let t = run(s, calls);
    lemma_run_only_settles(s, calls);
    lemma_subject_consents_follow_grants(s, calls, subject);
    lemma_subject_requests_follow_requests(s, calls, subject);
    lemma_subject_consents_are_stored(t, subject);
    lemma_subject_requests_are_stored(t, subject);
    reveal_with_fuel(Seq::<_>::filter, 1);
    assert(subject_consent_ids(s, subject) =~= Seq::<u64>::empty());
    assert(subject_request_ids(s, subject) =~= Seq::<u64>::empty());
    assert(subject_consent_ids(s, subject) + granted_ids(s, calls, subject) =~= granted_ids(
        s,
        calls,
        subject,
    ));
    assert(subject_request_ids(s, subject) + requested_ids(s, calls, subject) =~= requested_ids(
        s,
        calls,
        subject,
    ));
}

/// Whether a purpose is one of the named ones (not `Other`).
pub open spec fn is_named(p: PurposeView) -> bool {
    !(p is Other)
}

/// Each named purpose has a key of its own: distinct named purposes get
/// distinct keys, and no named purpose shares the key of the `Other`
/// purposes.
pub proof fn lemma_named_purpose_keys_distinct(p: PurposeView, q: PurposeView)
    requires
        is_named(p),
    ensures
        purpose_key_of(p) == purpose_key_of(q) ==> p == q,
        1 <= purpose_key_of(p) <= 7,
        !is_named(q) ==> purpose_key_of(q) == 99,
{
}

/// The retention policy read back for a named purpose is a policy for that
/// very purpose.
pub proof fn lemma_named_policy_is_own(s: GdprState, p: PurposeView)
    requires
        s.wf(),
        is_named(p),
    ensures
        s.retention_policy(p) matches Some(pol) ==> pol.purpose == p,
{
    let k = purpose_key_of(p);
    if s.policies.contains_key(k) {
        lemma_named_purpose_keys_distinct(p, s.policies[k].purpose);
    }
}

/// Setting the retention policy of a named purpose leaves the policy read
/// back for every other purpose as it was.
pub proof fn lemma_policy_of_other_purpose_kept(
    s: GdprState,
    now: u64,
    p: PurposeView,
    retention_days: u64,
    auto_delete: bool,
    q: PurposeView,
)
    requires
        s.wf(),
        is_named(p),
        q != p,
    ensures
        s.policy_set(now, p, retention_days, auto_delete).retention_policy(q) == s.retention_policy(q),
        s.policy_set(now, p, retention_days, auto_delete).retention_policy(p) == Some(
            RetentionPolicyView { purpose: p, retention_days, auto_delete },
        ),
{
    lemma_named_purpose_keys_distinct(p, q);
}

/// A grant is refused only for a zero duration, an exhausted id counter or
/// an expiry time past the largest timestamp, and then always with
/// `InvalidDuration`; otherwise it succeeds with the next id.
pub proof fn lemma_grant_refused_only_when_invalid(s: GdprState, now: u64, duration_ms: u64)
    ensures
        duration_ms > 0 && s.next_consent_id < u64::MAX && now + duration_ms <= u64::MAX ==> s.grant_outcome(
            now,
            duration_ms,
        ) == Ok::<u64, Error>(s.next_consent_id),
        s.grant_outcome(now, duration_ms) is Err ==> s.grant_outcome(now, duration_ms) == Err::<
            u64,
            Error,
        >(Error::InvalidDuration) && (duration_ms == 0 || s.next_consent_id == u64::MAX || now
            + duration_ms > u64::MAX),
{
}

/// `check_consent` answers true exactly when the subject holds a granted
/// consent, unlapsed at that time, for exactly the purpose asked about (an
/// `Other` purpose with exactly the same bytes).
pub proof fn lemma_active_consent_is_exact(
    s: GdprState,
    subject: AccountId,
    purpose: PurposeView,
    now: u64,
)
    ensures
        s.has_active_consent(subject, purpose, now) <==> exists|i: int|
            0 <= i < s.consents.len() && (#[trigger] s.consents[i]).data_subject == subject
                && s.consents[i].purpose == purpose && s.consents[i].status == ConsentStatus::Granted
                && s.consents[i].expires_at > now,
{
    if s.has_active_consent(subject, purpose, now) {
        let i = choose|i: int| 0 <= i < s.consents.len() && is_active(s.consents[i], subject, purpose, now);
        assert(s.consents[i].purpose == purpose);
    }
    if exists|i: int|
        0 <= i < s.consents.len() && (#[trigger] s.consents[i]).data_subject == subject
            && s.consents[i].purpose == purpose && s.consents[i].status == ConsentStatus::Granted
            && s.consents[i].expires_at > now {
        let i = choose|i: int|
            0 <= i < s.consents.len() && (#[trigger] s.consents[i]).data_subject == subject
                && s.consents[i].purpose == purpose && s.consents[i].status == ConsentStatus::Granted
                && s.consents[i].expires_at > now;
        assert(is_active(s.consents[i], subject, purpose, now));
    }
}

} // verus!
