use propchain_contracts::env::{AccountId, CallContext};
use propchain_contracts::gdpr::GdprConsent;
use propchain_contracts::gdpr_types::{ConsentStatus, Error, GdprEvent, ProcessingPurpose};

const YEAR_MS: u64 = 365 * 24 * 60 * 60 * 1000;

fn alice() -> AccountId {
    AccountId::from([0x01; 32])
}

fn at(caller: AccountId, block_timestamp: u64) -> CallContext {
    CallContext { caller, block_timestamp }
}

fn default_contract() -> GdprConsent {
    GdprConsent::new(&at(alice(), 0))
}

#[test]
fn test_admin_is_caller() {
    let contract = default_contract();
    assert_eq!(contract.admin(), AccountId::from([0x01; 32]));
}

#[test]
fn test_grant_consent() {
    let mut contract = default_contract();
    let subject = AccountId::from([0x02; 32]);
    let id = contract
        .grant_consent(&at(alice(), 0), subject, ProcessingPurpose::KYC, 365 * 24 * 60 * 60 * 1000)
        .expect("grant consent");
    assert_eq!(id, 1);
    let record = contract.get_consent(id).expect("should exist");
    assert_eq!(record.data_subject, subject);
    assert_eq!(record.status, ConsentStatus::Granted);
}

#[test]
fn test_withdraw_consent() {
    let mut contract = default_contract();
    let subject = AccountId::from([0x02; 32]);
    let id = contract
        .grant_consent(&at(alice(), 0), subject, ProcessingPurpose::KYC, 365 * 24 * 60 * 60 * 1000)
        .expect("grant");
    contract.withdraw_consent(&at(alice(), 0), id).expect("withdraw");
    let record = contract.get_consent(id).expect("should exist");
    assert_eq!(record.status, ConsentStatus::Withdrawn);
}

#[test]
fn test_check_consent_valid() {
    let mut contract = default_contract();
    let subject = AccountId::from([0x02; 32]);
    contract
        .grant_consent(&at(alice(), 0), subject, ProcessingPurpose::KYC, 365 * 24 * 60 * 60 * 1000)
        .expect("grant");
    assert!(contract.check_consent(&at(alice(), 0), subject, ProcessingPurpose::KYC));
}

#[test]
fn test_check_consent_withdrawn() {
    let mut contract = default_contract();
    let subject = AccountId::from([0x02; 32]);
    let id = contract
        .grant_consent(&at(alice(), 0), subject, ProcessingPurpose::KYC, 365 * 24 * 60 * 60 * 1000)
        .expect("grant");
    contract.withdraw_consent(&at(alice(), 0), id).expect("withdraw");
    assert!(!contract.check_consent(&at(alice(), 0), subject, ProcessingPurpose::KYC));
}

#[test]
fn test_get_subject_consents() {
    let mut contract = default_contract();
    let subject = AccountId::from([0x02; 32]);
    contract
        .grant_consent(&at(alice(), 0), subject, ProcessingPurpose::KYC, 1000)
        .expect("grant");
    contract
        .grant_consent(&at(alice(), 0), subject, ProcessingPurpose::TaxReporting, 1000)
        .expect("grant");
    let records = contract.get_subject_consents(subject);
    assert_eq!(records.len(), 2);
}

#[test]
fn test_retention_policy() {
    let mut contract = default_contract();
    contract
        .set_retention_policy(&at(alice(), 0), ProcessingPurpose::KYC, 365, true)
        .expect("set policy");
    let policy = contract
        .get_retention_policy(ProcessingPurpose::KYC)
        .expect("should exist");
    assert_eq!(policy.retention_days, 365);
    assert!(policy.auto_delete);
}

#[test]
fn test_data_access_request() {
    let mut contract = default_contract();
    let id = contract.request_data_access(&at(alice(), 0)).expect("request");
    assert_eq!(id, 1);
    let request = contract.get_data_access_request(id).expect("should exist");
    assert!(!request.fulfilled);
}

#[test]
fn test_fulfill_data_access() {
    let mut contract = default_contract();
    let id = contract.request_data_access(&at(alice(), 0)).expect("request");
    contract.fulfill_data_access(&at(alice(), 0), id).expect("fulfill");
    let request = contract.get_data_access_request(id).expect("should exist");
    assert!(request.fulfilled);
}

#[test]
fn test_invalid_duration_rejected() {
    let mut contract = default_contract();
    let result =
        contract.grant_consent(&at(alice(), 0), AccountId::from([0x02; 32]), ProcessingPurpose::KYC, 0);
    assert_eq!(result, Err(Error::InvalidDuration));
}

#[test]
fn test_subject_requests_list() {
    let mut contract = default_contract();
    let subject = AccountId::from([0x01; 32]);
    contract.request_data_access(&at(alice(), 0)).expect("request");
    contract.request_data_access(&at(alice(), 0)).expect("request");
    let requests = contract.get_subject_requests(subject);
    assert_eq!(requests.len(), 2);
}

// ── Further scenarios ──────────────────────────────────────────────────────

#[test]
fn grant_records_every_field_and_event() {
    let mut contract = default_contract();
    let subject = AccountId::from([0x02; 32]);
    let id = contract
        .grant_consent(&at(alice(), 500), subject, ProcessingPurpose::Other(vec![7, 8]), 250)
        .unwrap();
    let record = contract.get_consent(id).unwrap();
    assert_eq!(record.consent_id, 1);
    assert_eq!(record.processor, alice());
    assert_eq!(record.purpose, ProcessingPurpose::Other(vec![7, 8]));
    assert_eq!(record.granted_at, 500);
    assert_eq!(record.expires_at, 750);
    assert_eq!(record.withdrawn_at, None);
    let events = contract.take_events();
    assert_eq!(events.len(), 1);
    match &events[0] {
        GdprEvent::ConsentGranted(e) => {
            assert_eq!(e.data_subject, subject);
            assert_eq!(e.consent_id, 1);
            assert_eq!(e.timestamp, 500);
        }
        other => panic!("unexpected event {:?}", other),
    }
    assert!(contract.events().is_empty());
}

#[test]
fn consent_ids_are_consecutive() {
    let mut contract = default_contract();
    let subject = AccountId::from([0x02; 32]);
    let first = contract.grant_consent(&at(alice(), 0), subject, ProcessingPurpose::KYC, 10).unwrap();
    let second = contract.grant_consent(&at(alice(), 0), subject, ProcessingPurpose::KYC, 10).unwrap();
    assert_eq!((first, second), (1, 2));
    assert!(contract.get_consent(0).is_none());
    assert!(contract.get_consent(3).is_none());
}

#[test]
fn expiry_overflow_is_rejected_but_uses_up_an_id() {
    let mut contract = default_contract();
    let result = contract.grant_consent(&at(alice(), u64::MAX - 5), alice(), ProcessingPurpose::KYC, 10);
    assert_eq!(result, Err(Error::InvalidDuration));
    assert!(contract.get_consent(1).is_none());
    assert!(contract.events().is_empty());
    let id = contract.grant_consent(&at(alice(), 0), alice(), ProcessingPurpose::KYC, 10).unwrap();
    assert_eq!(id, 2);
    assert!(contract.get_consent(1).is_none());
    assert_eq!(contract.get_consent(2).unwrap().consent_id, 2);
    assert_eq!(contract.get_subject_consents(alice()).len(), 1);
    contract.withdraw_consent(&at(alice(), 1), 2).unwrap();
    assert_eq!(contract.withdraw_consent(&at(alice(), 1), 1), Err(Error::ConsentNotFound));
}

#[test]
fn zero_duration_does_not_use_up_an_id() {
    let mut contract = default_contract();
    let result = contract.grant_consent(&at(alice(), 0), alice(), ProcessingPurpose::KYC, 0);
    assert_eq!(result, Err(Error::InvalidDuration));
    let id = contract.grant_consent(&at(alice(), 0), alice(), ProcessingPurpose::KYC, 10).unwrap();
    assert_eq!(id, 1);
}

#[test]
fn consent_lapses_at_its_expiry_time() {
    let mut contract = default_contract();
    let subject = AccountId::from([0x02; 32]);
    contract.grant_consent(&at(alice(), 100), subject, ProcessingPurpose::Marketing, 50).unwrap();
    assert!(contract.check_consent(&at(alice(), 149), subject, ProcessingPurpose::Marketing));
    assert!(!contract.check_consent(&at(alice(), 150), subject, ProcessingPurpose::Marketing));
    assert!(!contract.check_consent(&at(alice(), 120), subject, ProcessingPurpose::KYC));
    assert!(!contract.check_consent(&at(alice(), 120), alice(), ProcessingPurpose::Marketing));
}

#[test]
fn other_purposes_are_told_apart_by_their_bytes() {
    let mut contract = default_contract();
    let subject = AccountId::from([0x02; 32]);
    contract.grant_consent(&at(alice(), 0), subject, ProcessingPurpose::Other(vec![1]), 50).unwrap();
    assert!(contract.check_consent(&at(alice(), 0), subject, ProcessingPurpose::Other(vec![1])));
    assert!(!contract.check_consent(&at(alice(), 0), subject, ProcessingPurpose::Other(vec![2])));
    assert!(!contract.check_consent(&at(alice(), 0), subject, ProcessingPurpose::Other(vec![1, 0])));
}

#[test]
fn stranger_cannot_withdraw() {
    let mut contract = default_contract();
    let subject = AccountId::from([0x02; 32]);
    let stranger = AccountId::from([0x03; 32]);
    let id = contract.grant_consent(&at(alice(), 0), subject, ProcessingPurpose::KYC, 50).unwrap();
    assert_eq!(contract.withdraw_consent(&at(stranger, 0), id), Err(Error::NotAuthorized));
    assert_eq!(contract.get_consent(id).unwrap().status, ConsentStatus::Granted);
    contract.withdraw_consent(&at(subject, 7), id).unwrap();
    let record = contract.get_consent(id).unwrap();
    assert_eq!(record.withdrawn_at, Some(7));
    assert_eq!(contract.withdraw_consent(&at(subject, 8), id), Err(Error::ConsentNotFound));
    assert_eq!(contract.withdraw_consent(&at(alice(), 8), 9), Err(Error::ConsentNotFound));
}

#[test]
fn expire_requires_admin_and_lapse() {
    let mut contract = default_contract();
    let subject = AccountId::from([0x02; 32]);
    let id = contract.grant_consent(&at(alice(), 0), subject, ProcessingPurpose::KYC, 50).unwrap();
    assert_eq!(contract.expire_consent(&at(subject, 60), id), Err(Error::NotAuthorized));
    assert_eq!(contract.expire_consent(&at(alice(), 49), id), Err(Error::ConsentNotFound));
    contract.expire_consent(&at(alice(), 50), id).unwrap();
    assert_eq!(contract.get_consent(id).unwrap().status, ConsentStatus::Expired);
    assert_eq!(contract.expire_consent(&at(alice(), 60), id), Err(Error::ConsentNotFound));
    assert_eq!(contract.withdraw_consent(&at(subject, 60), id), Err(Error::ConsentNotFound));
    assert_eq!(contract.expire_consent(&at(alice(), 60), 5), Err(Error::ConsentNotFound));
}

#[test]
fn retention_policy_is_overwritten_and_keyed_by_purpose_kind() {
    let mut contract = default_contract();
    let stranger = AccountId::from([0x03; 32]);
    assert_eq!(
        contract.set_retention_policy(&at(stranger, 0), ProcessingPurpose::KYC, 1, false),
        Err(Error::NotAuthorized)
    );
    assert!(contract.get_retention_policy(ProcessingPurpose::KYC).is_none());
    contract.set_retention_policy(&at(alice(), 0), ProcessingPurpose::KYC, 30, false).unwrap();
    contract.set_retention_policy(&at(alice(), 0), ProcessingPurpose::KYC, 60, true).unwrap();
    let policy = contract.get_retention_policy(ProcessingPurpose::KYC).unwrap();
    assert_eq!((policy.retention_days, policy.auto_delete), (60, true));
    assert!(contract.get_retention_policy(ProcessingPurpose::Marketing).is_none());
    contract
        .set_retention_policy(&at(alice(), 0), ProcessingPurpose::Other(vec![1]), 5, false)
        .unwrap();
    let shared = contract.get_retention_policy(ProcessingPurpose::Other(vec![9])).unwrap();
    assert_eq!(shared.purpose, ProcessingPurpose::Other(vec![1]));
    assert_eq!(shared.retention_days, 5);
}

#[test]
fn fulfilment_requires_admin_and_an_existing_request() {
    let mut contract = default_contract();
    let subject = AccountId::from([0x02; 32]);
    let id = contract.request_data_access(&at(subject, 3)).unwrap();
    let request = contract.get_data_access_request(id).unwrap();
    assert_eq!(request.data_subject, subject);
    assert_eq!(request.requested_at, 3);
    assert_eq!(contract.fulfill_data_access(&at(subject, 4), id), Err(Error::NotAuthorized));
    assert_eq!(contract.fulfill_data_access(&at(alice(), 4), 2), Err(Error::DataRequestNotFound));
    contract.fulfill_data_access(&at(alice(), 4), id).unwrap();
    let request = contract.get_data_access_request(id).unwrap();
    assert_eq!(request.fulfilled_at, Some(4));
    assert!(contract.get_subject_requests(alice()).is_empty());
    assert_eq!(contract.get_subject_requests(subject).len(), 1);
}

#[test]
fn subject_consents_keep_grant_order_and_owner() {
    let mut contract = default_contract();
    let a = AccountId::from([0x02; 32]);
    let b = AccountId::from([0x03; 32]);
    contract.grant_consent(&at(alice(), 0), a, ProcessingPurpose::KYC, 5).unwrap();
    contract.grant_consent(&at(alice(), 0), b, ProcessingPurpose::KYC, 5).unwrap();
    contract.grant_consent(&at(alice(), 0), a, ProcessingPurpose::Marketing, 5).unwrap();
    let ids: Vec<u64> = contract.get_subject_consents(a).iter().map(|c| c.consent_id).collect();
    assert_eq!(ids, vec![1, 3]);
    assert_eq!(contract.get_subject_consents(b).len(), 1);
    assert!(contract.get_subject_consents(alice()).is_empty());
}
