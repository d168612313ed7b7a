use vstd::prelude::*;
use crate::env::AccountId;

verus! {

/// Why a consent-ledger message was refused.
#[derive(Clone, Copy, Debug, PartialEq, Eq, Structural)]
pub enum Error {
    NotAuthorized,
    ConsentNotFound,
    ConsentAlreadyExists,
    DataSubjectNotFound,
    ProcessingPurposeNotFound,
    RetentionPeriodExceeded,
    InvalidDuration,
    DataRequestNotFound,
}

/// Where a consent stands.
#[derive(Clone, Copy, Debug, PartialEq, Eq, Structural)]
pub enum ConsentStatus {
    Granted,
    Withdrawn,
    Expired,
}

/// What personal data may be processed for.
#[allow(clippy::upper_case_acronyms)]
#[derive(Debug, PartialEq, Eq)]
pub enum ProcessingPurpose {
    KYC,
    TaxReporting,
    RiskAssessment,
    PropertyValuation,
    TransactionMonitoring,
    Marketing,
    DataAnalytics,
    Other(Vec<u8>),
}

/// The mathematical value of a [`ProcessingPurpose`].
pub enum PurposeView {
    KYC,
    TaxReporting,
    RiskAssessment,
    PropertyValuation,
    TransactionMonitoring,
    Marketing,
    DataAnalytics,
    Other(Seq<u8>),
}

impl View for ProcessingPurpose {
    type V = PurposeView;

    open spec fn view(&self) -> PurposeView {
        match self {
            ProcessingPurpose::KYC => PurposeView::KYC,
            ProcessingPurpose::TaxReporting => PurposeView::TaxReporting,
            ProcessingPurpose::RiskAssessment => PurposeView::RiskAssessment,
            ProcessingPurpose::PropertyValuation => PurposeView::PropertyValuation,
            ProcessingPurpose::TransactionMonitoring => PurposeView::TransactionMonitoring,
            ProcessingPurpose::Marketing => PurposeView::Marketing,
            ProcessingPurpose::DataAnalytics => PurposeView::DataAnalytics,
            ProcessingPurpose::Other(bytes) => PurposeView::Other(bytes@),
        }
    }
}

/// The storage key under which a purpose's retention policy is kept: the
/// named purposes take 1 to 7, and every `Other` purpose shares 99.
pub open spec fn purpose_key_of(purpose: PurposeView) -> u32 {
    match purpose {
        PurposeView::KYC => 1,
        PurposeView::TaxReporting => 2,
        PurposeView::RiskAssessment => 3,
        PurposeView::PropertyValuation => 4,
        PurposeView::TransactionMonitoring => 5,
        PurposeView::Marketing => 6,
        PurposeView::DataAnalytics => 7,
        PurposeView::Other(_) => 99,
    }
}

/// Copies a byte vector.
fn copy_bytes(bytes: &Vec<u8>) -> (r: Vec<u8>)
    ensures
        r@ == bytes@,
{
    let mut r: Vec<u8> = Vec::new();
    let mut i: usize = 0;
    while i < bytes.len()
        invariant
            i <= bytes.len(),
            r@ == bytes@.subrange(0, i as int),
        decreases bytes.len() - i,
    {
        r.push(bytes[i]);
        i = i + 1;
    }
    assert(bytes@.subrange(0, bytes.len() as int) =~= bytes@);
    r
}

/// Whether two byte vectors hold the same bytes.
fn same_bytes(a: &Vec<u8>, b: &Vec<u8>) -> (r: bool)
    ensures
        r == (a@ == b@),
{
    if a.len() != b.len() {
        return false;
    }
    let mut i: usize = 0;
    while i < a.len()
        invariant
            i <= a.len(),
            a.len() == b.len(),
            forall|j: int| 0 <= j < i ==> a@[j] == b@[j],
        decreases a.len() - i,
    {
        if a[i] != b[i] {
            return false;
        }
        i = i + 1;
    }
    assert(a@ =~= b@);
    true
}

impl Clone for ProcessingPurpose {
    fn clone(&self) -> (r: Self)
        ensures
            r@ == self@,
    {
        match self {
            ProcessingPurpose::KYC => ProcessingPurpose::KYC,
            ProcessingPurpose::TaxReporting => ProcessingPurpose::TaxReporting,
            ProcessingPurpose::RiskAssessment => ProcessingPurpose::RiskAssessment,
            ProcessingPurpose::PropertyValuation => ProcessingPurpose::PropertyValuation,
            ProcessingPurpose::TransactionMonitoring => ProcessingPurpose::TransactionMonitoring,
            ProcessingPurpose::Marketing => ProcessingPurpose::Marketing,
            ProcessingPurpose::DataAnalytics => ProcessingPurpose::DataAnalytics,
            ProcessingPurpose::Other(bytes) => ProcessingPurpose::Other(copy_bytes(bytes)),
        }
    }
}

impl ProcessingPurpose {
    /// Whether two purposes are the same: the same named purpose, or both
    /// `Other` with the same bytes.
    pub fn same_as(&self, other: &ProcessingPurpose) -> (r: bool)
        ensures
            r == (self@ == other@),
    {
        match (self, other) {
            (ProcessingPurpose::KYC, ProcessingPurpose::KYC) => true,
            (ProcessingPurpose::TaxReporting, ProcessingPurpose::TaxReporting) => true,
            (ProcessingPurpose::RiskAssessment, ProcessingPurpose::RiskAssessment) => true,
            (ProcessingPurpose::PropertyValuation, ProcessingPurpose::PropertyValuation) => true,
            (ProcessingPurpose::TransactionMonitoring, ProcessingPurpose::TransactionMonitoring) => true,
            (ProcessingPurpose::Marketing, ProcessingPurpose::Marketing) => true,
            (ProcessingPurpose::DataAnalytics, ProcessingPurpose::DataAnalytics) => true,
            (ProcessingPurpose::Other(a), ProcessingPurpose::Other(b)) => same_bytes(a, b),
            _ => false,
        }
    }
}

/// A data subject's consent to processing for one purpose.
#[derive(Debug, PartialEq, Eq)]
pub struct ConsentRecord {
    pub consent_id: u64,
    pub data_subject: AccountId,
    pub processor: AccountId,
    pub purpose: ProcessingPurpose,
    pub status: ConsentStatus,
    pub granted_at: u64,
    pub expires_at: u64,
    pub withdrawn_at: Option<u64>,
}

/// The mathematical value of a [`ConsentRecord`].
pub struct ConsentRecordView {
    pub consent_id: u64,
    pub data_subject: AccountId,
    pub processor: AccountId,
    pub purpose: PurposeView,
    pub status: ConsentStatus,
    pub granted_at: u64,
    pub expires_at: u64,
    pub withdrawn_at: Option<u64>,
}

impl View for ConsentRecord {
    type V = ConsentRecordView;

    open spec fn view(&self) -> ConsentRecordView {
        ConsentRecordView {
            consent_id: self.consent_id,
            data_subject: self.data_subject,
            processor: self.processor,
            purpose: self.purpose@,
            status: self.status,
            granted_at: self.granted_at,
            expires_at: self.expires_at,
            withdrawn_at: self.withdrawn_at,
        }
    }
}

impl Clone for ConsentRecord {
    fn clone(&self) -> (r: Self)
        ensures
            r@ == self@,
    {
        ConsentRecord {
            consent_id: self.consent_id,
            data_subject: self.data_subject,
            processor: self.processor,
            purpose: self.purpose.clone(),
            status: self.status,
            granted_at: self.granted_at,
            expires_at: self.expires_at,
            withdrawn_at: self.withdrawn_at,
        }
    }
}

/// How long data kept for a purpose may be retained.
#[derive(Debug, PartialEq, Eq)]
pub struct DataRetentionPolicy {
    pub purpose: ProcessingPurpose,
    pub retention_days: u64,
    pub auto_delete: bool,
}

/// The mathematical value of a [`DataRetentionPolicy`].
pub struct RetentionPolicyView {
    pub purpose: PurposeView,
    pub retention_days: u64,
    pub auto_delete: bool,
}

impl View for DataRetentionPolicy {
    type V = RetentionPolicyView;

    open spec fn view(&self) -> RetentionPolicyView {
        RetentionPolicyView {
            purpose: self.purpose@,
            retention_days: self.retention_days,
            auto_delete: self.auto_delete,
        }
    }
}

impl Clone for DataRetentionPolicy {
    fn clone(&self) -> (r: Self)
        ensures
            r@ == self@,
    {
        DataRetentionPolicy {
            purpose: self.purpose.clone(),
            retention_days: self.retention_days,
            auto_delete: self.auto_delete,
        }
    }
}

/// A data subject's request for access to the data held about them.
#[derive(Clone, Copy, Debug, PartialEq, Eq)]
pub struct DataAccessRequest {
    pub request_id: u64,
    pub data_subject: AccountId,
    pub requested_at: u64,
    pub fulfilled: bool,
    pub fulfilled_at: Option<u64>,
}

/// Emitted when a consent is granted.
#[derive(Debug, PartialEq, Eq)]
pub struct ConsentGranted {
    pub data_subject: AccountId,
    pub consent_id: u64,
    pub purpose: ProcessingPurpose,
    pub timestamp: u64,
}

/// Emitted when a consent is withdrawn.
#[derive(Debug, PartialEq, Eq)]
pub struct ConsentWithdrawn {
    pub data_subject: AccountId,
    pub consent_id: u64,
    pub purpose: ProcessingPurpose,
    pub timestamp: u64,
}

/// Emitted when a lapsed consent is marked expired.
#[derive(Clone, Copy, Debug, PartialEq, Eq)]
pub struct ConsentExpired {
    pub data_subject: AccountId,
    pub consent_id: u64,
    pub timestamp: u64,
}

/// Emitted when a data subject asks for access to their data.
#[derive(Clone, Copy, Debug, PartialEq, Eq)]
pub struct DataAccessRequested {
    pub data_subject: AccountId,
    pub request_id: u64,
    pub timestamp: u64,
}

/// Emitted when a data access request is fulfilled.
#[derive(Clone, Copy, Debug, PartialEq, Eq)]
pub struct DataAccessFulfilled {
    pub data_subject: AccountId,
    pub request_id: u64,
    pub timestamp: u64,
}

/// Emitted when a retention policy is set.
#[derive(Debug, PartialEq, Eq)]
pub struct RetentionPolicyUpdated {
    pub purpose: ProcessingPurpose,
    pub retention_days: u64,
    pub timestamp: u64,
}

/// Any event of the consent ledger.
#[derive(Debug, PartialEq, Eq)]
pub enum GdprEvent {
    ConsentGranted(ConsentGranted),
    ConsentWithdrawn(ConsentWithdrawn),
    ConsentExpired(ConsentExpired),
    DataAccessRequested(DataAccessRequested),
    DataAccessFulfilled(DataAccessFulfilled),
    RetentionPolicyUpdated(RetentionPolicyUpdated),
}

/// The mathematical value of a [`GdprEvent`].
pub enum GdprEventView {
    ConsentGranted { data_subject: AccountId, consent_id: u64, purpose: PurposeView, timestamp: u64 },
    ConsentWithdrawn { data_subject: AccountId, consent_id: u64, purpose: PurposeView, timestamp: u64 },
    ConsentExpired { data_subject: AccountId, consent_id: u64, timestamp: u64 },
    DataAccessRequested { data_subject: AccountId, request_id: u64, timestamp: u64 },
    DataAccessFulfilled { data_subject: AccountId, request_id: u64, timestamp: u64 },
    RetentionPolicyUpdated { purpose: PurposeView, retention_days: u64, timestamp: u64 },
}

impl View for GdprEvent {
    type V = GdprEventView;

    open spec fn view(&self) -> GdprEventView {
        match self {
            GdprEvent::ConsentGranted(e) => GdprEventView::ConsentGranted {
                data_subject: e.data_subject,
                consent_id: e.consent_id,
                purpose: e.purpose@,
                timestamp: e.timestamp,
            },
            GdprEvent::ConsentWithdrawn(e) => GdprEventView::ConsentWithdrawn {
                data_subject: e.data_subject,
                consent_id: e.consent_id,
                purpose: e.purpose@,
                timestamp: e.timestamp,
            },
            GdprEvent::ConsentExpired(e) => GdprEventView::ConsentExpired {
                data_subject: e.data_subject,
                consent_id: e.consent_id,
                timestamp: e.timestamp,
            },
            GdprEvent::DataAccessRequested(e) => GdprEventView::DataAccessRequested {
                data_subject: e.data_subject,
                request_id: e.request_id,
                timestamp: e.timestamp,
            },
            GdprEvent::DataAccessFulfilled(e) => GdprEventView::DataAccessFulfilled {
                data_subject: e.data_subject,
                request_id: e.request_id,
                timestamp: e.timestamp,
            },
            GdprEvent::RetentionPolicyUpdated(e) => GdprEventView::RetentionPolicyUpdated {
                purpose: e.purpose@,
                retention_days: e.retention_days,
                timestamp: e.timestamp,
            },
        }
    }
}

} // verus!
