# propchain_contracts

Two on-chain registries as verified state machines:

- a GDPR consent ledger (`gdpr_types`, `gdpr`, `gdpr_laws`): consents granted
  to data subjects for processing purposes, their withdrawal and expiry,
  retention policies per purpose, and data access requests;
- a contract version registry (`registry_types`, `version_registry`,
  `registry_laws`): deployments by name and version, the latest version of each
  name, its history, and the list of names.

Each message takes a `CallContext` (caller and block timestamp, `env`) and
appends the events it emits to the contract's event log. Every message's
contract is stated over the abstract state (`GdprState`, `RegistryState`); the
`*_laws` modules prove what holds across messages, over that abstract state
and its invariant `wf()`. A caller holding a contract gets the invariant of
its abstract state from `VersionRegistry::wf` (which is `self@.wf()`) and from
`GdprConsent::lemma_wf`, so the laws apply to the values it holds; each
consent-ledger message also states its effect as `step` of the abstract
state, so sequences of calls are covered by the laws on `run`.

`app/` is the host side: it reads the call context from the contract
environment and gives records, events and errors their SCALE encodings.
