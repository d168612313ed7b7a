use vstd::prelude::*;
use crate::env::AccountId;

verus! {

/// Why a version-registry message was refused.
#[derive(Clone, Copy, Debug, PartialEq, Eq, Structural)]
pub enum Error {
    Unauthorized,
    NameNotFound,
    VersionAlreadyExists,
    InvalidVersion,
}

/// The class an error belongs to.
#[derive(Clone, Copy, Debug, PartialEq, Eq, Structural)]
pub enum ErrorCategory {
    Common,
}

impl Error {
    /// The class of the error: every registry error is a common one.
    pub fn error_category(&self) -> (c: ErrorCategory)
        ensures
            c == ErrorCategory::Common,
    {
        ErrorCategory::Common
    }

    /// The numeric code of the error.
    pub fn error_code(&self) -> (r: u32)
        ensures
            r == match *self {
                Error::Unauthorized => 13001u32,
                Error::NameNotFound => 13002u32,
                Error::VersionAlreadyExists => 13003u32,
                Error::InvalidVersion => 13004u32,
            },
    {
        match self {
            Error::Unauthorized => 13001,
            Error::NameNotFound => 13002,
            Error::VersionAlreadyExists => 13003,
            Error::InvalidVersion => 13004,
        }
    }

    /// A sentence that explains the error.
    pub fn error_description(&self) -> (r: &'static str)
        ensures
            r@ == match *self {
                Error::Unauthorized => "Caller does not have permission to perform this operation"@,
                Error::NameNotFound => "The specified name is not registered in the version registry"@,
                Error::VersionAlreadyExists => "A deployment with this version already exists for the specified name"@,
                Error::InvalidVersion => "The provided version number is invalid"@,
            },
    {
        match self {
            Error::Unauthorized => "Caller does not have permission to perform this operation",
            Error::NameNotFound => "The specified name is not registered in the version registry",
            Error::VersionAlreadyExists => "A deployment with this version already exists for the specified name",
            Error::InvalidVersion => "The provided version number is invalid",
        }
    }

    /// The short message that the error displays as.
    pub fn message(&self) -> (r: &'static str)
        ensures
            r@ == match *self {
                Error::Unauthorized => "Caller is not authorized"@,
                Error::NameNotFound => "Name not found in registry"@,
                Error::VersionAlreadyExists => "Version already exists for this name"@,
                Error::InvalidVersion => "Invalid version number"@,
            },
    {
        match self {
            Error::Unauthorized => "Caller is not authorized",
            Error::NameNotFound => "Name not found in registry",
            Error::VersionAlreadyExists => "Version already exists for this name",
            Error::InvalidVersion => "Invalid version number",
        }
    }
}

/// One deployment of a named contract.
#[derive(Debug, PartialEq, Eq)]
pub struct DeploymentRecord {
    pub contract_name: String,
    pub version: u32,
    pub code_hash: [u8; 32],
    pub deployed_at: u64,
    pub deployer: AccountId,
}

/// The mathematical value of a [`DeploymentRecord`].
pub struct DeploymentRecordView {
    pub contract_name: Seq<char>,
    pub version: u32,
    pub code_hash: [u8; 32],
    pub deployed_at: u64,
    pub deployer: AccountId,
}

impl View for DeploymentRecord {
    type V = DeploymentRecordView;

    open spec fn view(&self) -> DeploymentRecordView {
        DeploymentRecordView {
            contract_name: self.contract_name@,
            version: self.version,
            code_hash: self.code_hash,
            deployed_at: self.deployed_at,
            deployer: self.deployer,
        }
    }
}

impl Clone for DeploymentRecord {
    fn clone(&self) -> (r: Self)
        ensures
            r@ == self@,
    {
        DeploymentRecord {
            contract_name: self.contract_name.clone(),
            version: self.version,
            code_hash: self.code_hash,
            deployed_at: self.deployed_at,
            deployer: self.deployer,
        }
    }
}

/// The deployments of one name.
#[derive(Debug, PartialEq, Eq)]
pub struct DeploymentHistory {
    pub name: String,
    pub deployments: Vec<DeploymentRecord>,
}

/// Emitted when a deployment is registered.
#[derive(Debug, PartialEq, Eq)]
pub struct ContractDeployed {
    pub contract_name: String,
    pub version: u32,
    pub code_hash: [u8; 32],
    pub deployed_at: u64,
    pub deployer: AccountId,
}

/// The mathematical value of a [`ContractDeployed`] event.
pub struct ContractDeployedView {
    pub contract_name: Seq<char>,
    pub version: u32,
    pub code_hash: [u8; 32],
    pub deployed_at: u64,
    pub deployer: AccountId,
}

impl View for ContractDeployed {
    type V = ContractDeployedView;

    open spec fn view(&self) -> ContractDeployedView {
        ContractDeployedView {
            contract_name: self.contract_name@,
            version: self.version,
            code_hash: self.code_hash,
            deployed_at: self.deployed_at,
            deployer: self.deployer,
        }
    }
}

} // verus!
