use vstd::prelude::*;
use crate::env::{AccountId, CallContext};
use crate::registry_types::{
    ContractDeployed, ContractDeployedView, DeploymentRecord, DeploymentRecordView, Error,
};

verus! {

/// What the registry keeps about one registered name.
pub struct NameEntry {
    pub name: String,
    /// The highest version registered under the name.
    pub latest: u32,
    /// The version that the next automatic registration takes.
    pub next: u32,
}

/// The mathematical value of a [`NameEntry`].
pub struct NameEntryView {
    pub name: Seq<char>,
    pub latest: u32,
    pub next: u32,
}

impl View for NameEntry {
    type V = NameEntryView;

    open spec fn view(&self) -> NameEntryView {
        NameEntryView { name: self.name@, latest: self.latest, next: self.next }
    }
}

/// The values of a sequence of deployment records.
pub open spec fn record_views(records: Seq<DeploymentRecord>) -> Seq<DeploymentRecordView> {
    records.map_values(|r: DeploymentRecord| r@)
}

/// The values of a sequence of name entries.
pub open spec fn entry_views(entries: Seq<NameEntry>) -> Seq<NameEntryView> {
    entries.map_values(|e: NameEntry| e@)
}

/// The values of a sequence of events.
pub open spec fn event_views(events: Seq<ContractDeployed>) -> Seq<ContractDeployedView> {
    events.map_values(|e: ContractDeployed| e@)
}

/// The values of a sequence of strings.
pub open spec fn string_views(strings: Seq<String>) -> Seq<Seq<char>> {
    strings.map_values(|s: String| s@)
}

/// The mathematical state of a version registry.
pub struct RegistryState {
    pub admin: AccountId,
    /// Every deployment, in the order it was registered.
    pub deployments: Seq<DeploymentRecordView>,
    /// Every registered name, in the order it was first registered.
    pub names: Seq<NameEntryView>,
    pub name_count: u32,
    /// Every event emitted so far, oldest first.
    pub events: Seq<ContractDeployedView>,
}

impl RegistryState {
    /// Whether `name` has a deployment of `version`.
    pub open spec fn has_deployment(self, name: Seq<char>, version: u32) -> bool {
        exists|i: int|
            0 <= i < self.deployments.len() && #[trigger] self.deployments[i].contract_name == name
                && self.deployments[i].version == version
    }

    /// The deployment of `version` of `name`, if there is one.
    pub open spec fn deployment(self, name: Seq<char>, version: u32) -> Option<DeploymentRecordView> {
        if self.has_deployment(name, version) {
            Some(
                self.deployments[choose|i: int|
                    0 <= i < self.deployments.len() && #[trigger] self.deployments[i].contract_name
                        == name && self.deployments[i].version == version],
            )
        } else {
            None
        }
    }

    /// Whether `name` has been registered.
    pub open spec fn is_registered(self, name: Seq<char>) -> bool {
        exists|j: int| 0 <= j < self.names.len() && #[trigger] self.names[j].name == name
    }

    /// Where `name` stands among the registered names.
    pub open spec fn name_position(self, name: Seq<char>) -> int {
        choose|j: int| 0 <= j < self.names.len() && #[trigger] self.names[j].name == name
    }

    /// The highest version registered under `name`, if any.
    pub open spec fn latest_version(self, name: Seq<char>) -> Option<u32> {
        if self.is_registered(name) {
            Some(self.names[self.name_position(name)].latest)
        } else {
            None
        }
    }

    /// The version that the next automatic registration of `name` takes.
    pub open spec fn next_version(self, name: Seq<char>) -> u32 {
        if self.is_registered(name) {
            self.names[self.name_position(name)].next
        } else {
            1
        }
    }

    /// Every registered name, in the order it was first registered.
    pub open spec fn all_names(self) -> Seq<Seq<char>> {
        self.names.map_values(|e: NameEntryView| e.name)
    }

    /// The deployments of `name` with versions 1 to `n`, by ascending version.
    pub open spec fn history_upto(self, name: Seq<char>, n: nat) -> Seq<DeploymentRecordView>
        decreases n,
    {
        if n == 0 {
            Seq::empty()
        } else {
            let earlier = self.history_upto(name, (n - 1) as nat);
            match self.deployment(name, n as u32) {
                Some(r) => earlier.push(r),
                None => earlier,
            }
        }
    }

    /// The deployments of `name` up to its latest version, by ascending version.
    pub open spec fn history(self, name: Seq<char>) -> Seq<DeploymentRecordView> {
        match self.latest_version(name) {
            Some(latest) => self.history_upto(name, latest as nat),
            None => Seq::empty(),
        }
    }

    /// The invariant that every reachable registry keeps.
    pub open spec fn wf(self) -> bool {
        &&& self.name_count == self.names.len()
        &&& forall|i: int, k: int|
            0 <= i < self.deployments.len() && 0 <= k < self.deployments.len() && i != k
                && self.deployments[i].contract_name == self.deployments[k].contract_name
                ==> self.deployments[i].version != self.deployments[k].version
        &&& forall|j: int, k: int|
            0 <= j < self.names.len() && 0 <= k < self.names.len() && j != k
                ==> self.names[j].name != self.names[k].name
        &&& forall|i: int| #![trigger self.deployments[i]]
            0 <= i < self.deployments.len() ==> {
                &&& 1 <= self.deployments[i].version
                &&& self.is_registered(self.deployments[i].contract_name)
            }
        &&& forall|i: int, j: int|
            #![trigger self.deployments[i], self.names[j]]
            0 <= i < self.deployments.len() && 0 <= j < self.names.len()
                && self.names[j].name == self.deployments[i].contract_name
                ==> self.deployments[i].version <= self.names[j].latest
                && self.deployments[i].version < self.names[j].next
        &&& forall|j: int| #![trigger self.names[j]]
            0 <= j < self.names.len() ==> {
                &&& self.has_deployment(self.names[j].name, self.names[j].latest)
                &&& self.names[j].next == self.names[j].latest + 1
            }
    }

    /// Whether the machine's limits allow `caller` to register the next
    /// automatic version of `name`.
    pub open spec fn can_register(self, caller: AccountId, name: Seq<char>) -> bool {
        caller == self.admin ==> {
            &&& self.next_version(name) < u32::MAX
            &&& (self.is_registered(name) || self.name_count < u32::MAX)
        }
    }

    /// What `register_deployment` answers when `caller` asks.
    pub open spec fn register_outcome(self, caller: AccountId, name: Seq<char>) -> Result<u32, Error> {
        if caller != self.admin {
            Err(Error::Unauthorized)
        } else if self.has_deployment(name, self.next_version(name)) {
            Err(Error::VersionAlreadyExists)
        } else {
            Ok(self.next_version(name))
        }
    }

    /// The registry after a deployment of `version` of `name` is added with
    /// `entry` as the name's new entry.
    pub open spec fn with_deployment(
        self,
        ctx: CallContext,
        name: Seq<char>,
        version: u32,
        code_hash: [u8; 32],
        entry: NameEntryView,
    ) -> RegistryState {
        RegistryState {
            deployments: self.deployments.push(
                DeploymentRecordView {
                    contract_name: name,
                    version,
                    code_hash,
                    deployed_at: ctx.block_timestamp,
                    deployer: ctx.caller,
                },
            ),
            names: if self.is_registered(name) {
                self.names.update(self.name_position(name), entry)
            } else {
                self.names.push(entry)
            },
            name_count: if self.is_registered(name) {
                self.name_count
            } else {
                (self.name_count + 1) as u32
            },
            events: self.events.push(
                ContractDeployedView {
                    contract_name: name,
                    version,
                    code_hash,
                    deployed_at: ctx.block_timestamp,
                    deployer: ctx.caller,
                },
            ),
            ..self
        }
    }

    /// The registry after a successful `register_deployment`.
    pub open spec fn registered(self, ctx: CallContext, name: Seq<char>, code_hash: [u8; 32]) -> RegistryState {
        let version = self.next_version(name);
        self.with_deployment(
            ctx,
            name,
            version,
            code_hash,
            NameEntryView { name, latest: version, next: (version + 1) as u32 },
        )
    }

    /// Whether the machine's limits allow `caller` to register `version` of
    /// `name`.
    pub open spec fn can_register_version(self, caller: AccountId, name: Seq<char>, version: u32) -> bool {
        caller == self.admin && 1 <= version && !self.has_deployment(name, version) ==> {
            &&& version < u32::MAX
            &&& (self.is_registered(name) || self.name_count < u32::MAX)
        }
    }

    /// What `register_deployment_with_version` answers when `caller` asks.
    pub open spec fn register_version_outcome(
        self,
        caller: AccountId,
        name: Seq<char>,
        version: u32,
    ) -> Result<(), Error> {
        if caller != self.admin {
            Err(Error::Unauthorized)
        } else if version < 1 {
            Err(Error::InvalidVersion)
        } else if self.has_deployment(name, version) {
            Err(Error::VersionAlreadyExists)
        } else {
            Ok(())
        }
    }

    /// The registry after a successful `register_deployment_with_version`.
    pub open spec fn registered_version(
        self,
        ctx: CallContext,
        name: Seq<char>,
        version: u32,
        code_hash: [u8; 32],
    ) -> RegistryState {
        let latest = match self.latest_version(name) {
            Some(l) => l,
            None => 0,
        };
        let next = self.next_version(name);
        self.with_deployment(
            ctx,
            name,
            version,
            code_hash,
            NameEntryView {
                name,
                latest: if version > latest { version } else { latest },
                next: if version >= next { (version + 1) as u32 } else { next },
            },
        )
    }
}

/// A registered name's entry is the one found for it.
pub proof fn lemma_name_position(s: RegistryState, j: int)
    requires
        s.wf(),
        0 <= j < s.names.len(),
    ensures
        s.is_registered(s.names[j].name),
        s.name_position(s.names[j].name) == j,
{
    let name = s.names[j].name;
    assert(s.names[j].name == name);
    let k = s.name_position(name);
    assert(s.names[k].name == name);
}

/// A stored deployment is the one found for its name and version.
pub proof fn lemma_deployment_at(s: RegistryState, i: int)
    requires
        s.wf(),
        0 <= i < s.deployments.len(),
    ensures
        s.has_deployment(s.deployments[i].contract_name, s.deployments[i].version),
        s.deployment(s.deployments[i].contract_name, s.deployments[i].version) == Some(s.deployments[i]),
{
    let d = s.deployments[i];
    assert(s.deployments[i].contract_name == d.contract_name);
    let k = choose|k: int|
        0 <= k < s.deployments.len() && #[trigger] s.deployments[k].contract_name == d.contract_name
            && s.deployments[k].version == d.version;
    assert(k == i);
}

/// Adding a deployment of a new version, together with an entry for its name
/// that covers it, keeps the registry's invariant.
proof fn lemma_with_deployment_wf(
    s: RegistryState,
    ctx: CallContext,
    name: Seq<char>,
    version: u32,
    code_hash: [u8; 32],
    entry: NameEntryView,
)
    requires
        s.wf(),
        !s.has_deployment(name, version),
        1 <= version,
        entry.name == name,
        version <= entry.latest,
        version < entry.next,
        entry.next == entry.latest + 1,
        entry.latest == version || s.has_deployment(name, entry.latest),
        s.is_registered(name) ==> {
            let e = s.names[s.name_position(name)];
            e.latest <= entry.latest && e.next <= entry.next
        },
        !s.is_registered(name) ==> s.name_count < u32::MAX,
    ensures
        s.with_deployment(ctx, name, version, code_hash, entry).wf(),
{
    let t = s.with_deployment(ctx, name, version, code_hash, entry);
    let n = s.deployments.len() as int;
    let new_record = t.deployments[n];
    let pos = if s.is_registered(name) {
        s.name_position(name)
    } else {
        s.names.len() as int
    };
    assert(t.names[pos] == entry);
    assert forall|j: int| 0 <= j < t.names.len() && j != pos implies t.names[j] == s.names[j] by {}
    if s.is_registered(name) {
        assert(s.names[pos].name == name);
    }
    // every name of the old registry is still registered
    assert forall|nm: Seq<char>| s.is_registered(nm) implies t.is_registered(nm) by {
        let j = choose|j: int| 0 <= j < s.names.len() && #[trigger] s.names[j].name == nm;
        if j == pos {
            assert(t.names[j].name == nm);
        } else {
            assert(t.names[j].name == nm);
        }
    }
    assert(t.names[pos].name == name);
    assert(t.is_registered(name));
    // every old deployment is still there
    assert forall|nm: Seq<char>, v: u32| s.has_deployment(nm, v) implies t.has_deployment(nm, v) by {
        let i = choose|i: int|
            0 <= i < s.deployments.len() && #[trigger] s.deployments[i].contract_name == nm
                && s.deployments[i].version == v;
        assert(t.deployments[i].contract_name == nm);
    }
    assert(t.deployments[n].contract_name == name);
    assert(t.has_deployment(name, version));
    // names stay distinct
    assert forall|j: int, k: int|
        0 <= j < t.names.len() && 0 <= k < t.names.len() && j != k implies t.names[j].name
        != t.names[k].name by {
        if j != pos && k != pos {
        } else if j == pos {
            if s.is_registered(name) {
                assert(s.names[pos].name == name);
            } else {
                assert(s.names[k].name != name);
            }
        } else {
            if s.is_registered(name) {
                assert(s.names[pos].name == name);
            } else {
                assert(s.names[j].name != name);
            }
        }
    }
    // deployments stay distinct
    assert forall|i: int, k: int|
        0 <= i < t.deployments.len() && 0 <= k < t.deployments.len() && i != k
            && t.deployments[i].contract_name == t.deployments[k].contract_name implies t.deployments[i].version
        != t.deployments[k].version by {
        if i == n {
            assert(s.deployments[k].contract_name == name);
        } else if k == n {
            assert(s.deployments[i].contract_name == name);
        }
    }
    assert forall|i: int| #![trigger t.deployments[i]] 0 <= i < t.deployments.len() implies {
        &&& 1 <= t.deployments[i].version
        &&& t.is_registered(t.deployments[i].contract_name)
    } by {
        if i < n {
            assert(s.deployments[i] == t.deployments[i]);
        }
    }
    assert forall|i: int, j: int|
        #![trigger t.deployments[i], t.names[j]]
        0 <= i < t.deployments.len() && 0 <= j < t.names.len() && t.names[j].name
            == t.deployments[i].contract_name implies t.deployments[i].version <= t.names[j].latest
        && t.deployments[i].version < t.names[j].next by {
        if i == n {
            if j != pos {
                if s.is_registered(name) {
                    assert(s.names[pos].name == name);
                } else {
                    assert(s.names[j].name != name);
                }
            }
        } else {
            assert(s.deployments[i] == t.deployments[i]);
            if j == pos {
                if s.is_registered(name) {
                    assert(s.deployments[i].version <= s.names[pos].latest);
                } else {
                    assert(s.is_registered(s.deployments[i].contract_name));
                }
            } else {
                assert(s.names[j] == t.names[j]);
            }
        }
    }
    assert forall|j: int| #![trigger t.names[j]] 0 <= j < t.names.len() implies {
        &&& t.has_deployment(t.names[j].name, t.names[j].latest)
        &&& t.names[j].latest < t.names[j].next
    } by {
        if j != pos {
            assert(s.names[j] == t.names[j]);
            assert(s.has_deployment(s.names[j].name, s.names[j].latest));
        }
    }
}

/// A successful automatic registration keeps the registry's invariant.
pub proof fn lemma_registered_wf(s: RegistryState, ctx: CallContext, name: Seq<char>, code_hash: [u8; 32])
    requires
        s.wf(),
        s.can_register(ctx.caller, name),
        s.register_outcome(ctx.caller, name) is Ok,
    ensures
        s.registered(ctx, name, code_hash).wf(),
{
    let version = s.next_version(name);
    let entry = NameEntryView { name, latest: version, next: (version + 1) as u32 };
    if s.is_registered(name) {
        let p = s.name_position(name);
        assert(s.names[p].name == name);
        assert(s.names[p].next == s.names[p].latest + 1);
    }
    lemma_with_deployment_wf(s, ctx, name, version, code_hash, entry);
}

/// A successful registration of a chosen version keeps the registry's
/// invariant.
pub proof fn lemma_registered_version_wf(
    s: RegistryState,
    ctx: CallContext,
    name: Seq<char>,
    version: u32,
    code_hash: [u8; 32],
)
    requires
        s.wf(),
        s.can_register_version(ctx.caller, name, version),
        s.register_version_outcome(ctx.caller, name, version) is Ok,
    ensures
        s.registered_version(ctx, name, version, code_hash).wf(),
{
    let latest = match s.latest_version(name) {
        Some(l) => l,
        None => 0,
    };
    let next = s.next_version(name);
    let entry = NameEntryView {
        name,
        latest: if version > latest { version } else { latest },
        next: if version >= next { (version + 1) as u32 } else { next },
    };
    if s.is_registered(name) {
        let p = s.name_position(name);
        assert(s.names[p].name == name);
        assert(s.names[p].next == s.names[p].latest + 1);
        assert(s.has_deployment(s.names[p].name, s.names[p].latest));
    }
    lemma_with_deployment_wf(s, ctx, name, version, code_hash, entry);
}

/// A registry of contract deployments by name and version, administered by
/// the account that created it.
pub struct VersionRegistry {
    admin: AccountId,
    deployments: Vec<DeploymentRecord>,
    names: Vec<NameEntry>,
    name_count: u32,
    events: Vec<ContractDeployed>,
}

impl View for VersionRegistry {
    type V = RegistryState;

    closed spec fn view(&self) -> RegistryState {
        RegistryState {
            admin: self.admin,
            deployments: record_views(self.deployments@),
            names: entry_views(self.names@),
            name_count: self.name_count,
            events: event_views(self.events@),
        }
    }
}

impl VersionRegistry {
    /// The registry's invariant.
    pub open spec fn wf(&self) -> bool {
        self@.wf()
    }

    /// Creates an empty registry administered by the caller.
    pub fn new(ctx: &CallContext) -> (r: Self)
        ensures
            r.wf(),
            r@.admin == ctx.caller,
            r@.deployments.len() == 0,
            r@.names.len() == 0,
            r@.name_count == 0,
            r@.events.len() == 0,
    {
        VersionRegistry {
            admin: ctx.caller,
            deployments: Vec::new(),
            names: Vec::new(),
            name_count: 0,
            events: Vec::new(),
        }
    }

    /// Refuses a caller other than the administrator.
    fn ensure_admin(&self, ctx: &CallContext) -> (r: Result<(), Error>)
        ensures
            r is Ok <==> ctx.caller == self@.admin,
            r is Err ==> r == Err::<(), Error>(Error::Unauthorized),
    {
        if !(ctx.caller == self.admin) {
            return Err(Error::Unauthorized);
        }
        Ok(())
    }

    /// The position of `name` among the registered names, if it is one.
    fn find_name(&self, name: &String) -> (r: Option<usize>)
        requires
            self.wf(),
        ensures
            match r {
                Some(j) => j < self@.names.len() && self@.names[j as int].name == name@
                    && self@.name_position(name@) == j && self@.is_registered(name@),
                None => !self@.is_registered(name@),
            },
    {
        let mut j: usize = 0;
        while j < self.names.len()
            invariant
                j <= self.names.len(),
                self.wf(),
                self@.names.len() == self.names.len(),
                forall|k: int| 0 <= k < j ==> self@.names[k].name != name@,
            decreases self.names.len() - j,
        {
            assert(self@.names[j as int] == self.names@[j as int]@);
            if self.names[j].name == *name {
                proof {
                    lemma_name_position(self@, j as int);
                }
                return Some(j);
            }
            j = j + 1;
        }
        None
    }

    /// The position of the deployment of `version` of `name`, if there is one.
    fn find_deployment(&self, name: &String, version: u32) -> (r: Option<usize>)
        requires
            self.wf(),
        ensures
            match r {
                Some(i) => i < self@.deployments.len() && self@.deployments[i as int].contract_name == name@
                    && self@.deployments[i as int].version == version,
                None => !self@.has_deployment(name@, version),
            },
    {
        let mut i: usize = 0;
        while i < self.deployments.len()
            invariant
                i <= self.deployments.len(),
                self@.deployments.len() == self.deployments.len(),
                forall|k: int|
                    0 <= k < i ==> !(self@.deployments[k].contract_name == name@
                        && self@.deployments[k].version == version),
            decreases self.deployments.len() - i,
        {
            assert(self@.deployments[i as int] == self.deployments@[i as int]@);
            if self.deployments[i].version == version && self.deployments[i].contract_name == *name {
                return Some(i);
            }
            i = i + 1;
        }
        None
    }

    /// Registers a deployment of `name` under the next version free for it;
    /// reserved to the administrator.
    pub fn register_deployment(
        &mut self,
        ctx: &CallContext,
        name: String,
        code_hash: [u8; 32],
    ) -> (r: Result<u32, Error>)
        requires
            old(self).wf(),
            old(self)@.can_register(ctx.caller, name@),
        ensures
            final(self).wf(),
            r == old(self)@.register_outcome(ctx.caller, name@),
            ctx.caller == old(self)@.admin && !old(self)@.has_deployment(
                name@,
                old(self)@.next_version(name@),
            ) ==> r == Ok::<u32, Error>(old(self)@.next_version(name@)),
            ctx.caller == old(self)@.admin && !old(self)@.is_registered(name@) ==> r == Ok::<
                u32,
                Error,
            >(1),
            r is Ok ==> final(self)@ == old(self)@.registered(*ctx, name@, code_hash),
            r is Err ==> final(self)@ == old(self)@,
    {
        self.ensure_admin(ctx)?;
        let found = self.find_name(&name);
        let version = match found {
            Some(j) => self.names[j].next,
            None => 1,
        };
        proof {
            if let Some(j) = found {
                assert(self@.names[j as int] == self.names@[j as int]@);
            }
        }
        assert(version == self@.next_version(name@));
        if self.find_deployment(&name, version).is_some() {
            return Err(Error::VersionAlreadyExists);
        }
        let ghost old_state = self@;
        proof {
            lemma_registered_wf(old_state, *ctx, name@, code_hash);
        }
        let caller = ctx.caller;
        let now = ctx.block_timestamp;
        self.deployments.push(
            DeploymentRecord {
                contract_name: name.clone(),
                version,
                code_hash,
                deployed_at: now,
                deployer: caller,
            },
        );
        let entry = NameEntry { name: name.clone(), latest: version, next: version + 1 };
        match found {
            Some(j) => {
                self.names.set(j, entry);
            },
            None => {
                self.name_count = self.name_count + 1;
                self.names.push(entry);
            },
        }
        self.events.push(
            ContractDeployed { contract_name: name, version, code_hash, deployed_at: now, deployer: caller },
        );
        proof {
            let t = old_state.registered(*ctx, name@, code_hash);
            assert(self@.deployments =~= t.deployments);
            assert(self@.names =~= t.names);
            assert(self@.events =~= t.events);
        }
        Ok(version)
    }

    /// Registers a deployment of `name` under the given version; reserved to
    /// the administrator.
    pub fn register_deployment_with_version(
        &mut self,
        ctx: &CallContext,
        name: String,
        version: u32,
        code_hash: [u8; 32],
    ) -> (r: Result<(), Error>)
        requires
            old(self).wf(),
            old(self)@.can_register_version(ctx.caller, name@, version),
        ensures
            final(self).wf(),
            r == old(self)@.register_version_outcome(ctx.caller, name@, version),
            ctx.caller == old(self)@.admin && 1 <= version && !old(self)@.has_deployment(
                name@,
                version,
            ) ==> r is Ok,
            r is Ok ==> final(self)@ == old(self)@.registered_version(*ctx, name@, version, code_hash),
            r is Err ==> final(self)@ == old(self)@,
    {
        self.ensure_admin(ctx)?;
        if version < 1 {
            return Err(Error::InvalidVersion);
        }
        if self.find_deployment(&name, version).is_some() {
            return Err(Error::VersionAlreadyExists);
        }
        let found = self.find_name(&name);
        let (current_latest, next_ver) = match found {
            Some(j) => (self.names[j].latest, self.names[j].next),
            None => (0, 1),
        };
        proof {
            if let Some(j) = found {
                assert(self@.names[j as int] == self.names@[j as int]@);
            }
        }
        let latest = if version > current_latest { version } else { current_latest };
        let next = if version >= next_ver { version + 1 } else { next_ver };
        let ghost old_state = self@;
        proof {
            lemma_registered_version_wf(old_state, *ctx, name@, version, code_hash);
        }
        let caller = ctx.caller;
        let now = ctx.block_timestamp;
        self.deployments.push(
            DeploymentRecord {
                contract_name: name.clone(),
                version,
                code_hash,
                deployed_at: now,
                deployer: caller,
            },
        );
        let entry = NameEntry { name: name.clone(), latest, next };
        match found {
            Some(j) => {
                self.names.set(j, entry);
            },
            None => {
                self.name_count = self.name_count + 1;
                self.names.push(entry);
            },
        }
        self.events.push(
            ContractDeployed { contract_name: name, version, code_hash, deployed_at: now, deployer: caller },
        );
        proof {
            let t = old_state.registered_version(*ctx, name@, version, code_hash);
            assert(self@.deployments =~= t.deployments);
            assert(self@.names =~= t.names);
            assert(self@.events =~= t.events);
        }
        Ok(())
    }

    /// The version that the next automatic registration of `name` takes.
    pub fn next_version(&self, name: &String) -> (v: u32)
        requires
            self.wf(),
        ensures
            v == self@.next_version(name@),
    {
        match self.find_name(name) {
            Some(j) => {
                assert(self@.names[j as int] == self.names@[j as int]@);
                self.names[j].next
            },
            None => 1,
        }
    }

    /// The administrator: the account that created the registry.
    pub fn admin(&self) -> (a: AccountId)
        ensures
            a == self@.admin,
    {
        self.admin
    }

    /// How many names have been registered.
    pub fn name_count(&self) -> (n: u32)
        ensures
            n == self@.name_count,
    {
        self.name_count
    }

    /// Whether `name` has been registered.
    pub fn is_registered(&self, name: &String) -> (b: bool)
        requires
            self.wf(),
        ensures
            b == self@.is_registered(name@),
    {
        self.find_name(name).is_some()
    }

    /// The highest version registered under `name`, if any.
    pub fn get_latest_version(&self, name: String) -> (r: Option<u32>)
        requires
            self.wf(),
        ensures
            r == self@.latest_version(name@),
    {
        match self.find_name(&name) {
            Some(j) => {
                assert(self@.names[j as int] == self.names@[j as int]@);
                Some(self.names[j].latest)
            },
            None => None,
        }
    }

    /// The deployment of `version` of `name`, if there is one.
    pub fn get_deployment(&self, name: String, version: u32) -> (r: Option<DeploymentRecord>)
        requires
            self.wf(),
        ensures
            match r {
                Some(d) => self@.deployment(name@, version) == Some(d@),
                None => self@.deployment(name@, version) is None,
            },
    {
        match self.find_deployment(&name, version) {
            Some(i) => {
                proof {
                    lemma_deployment_at(self@, i as int);
                }
                assert(self@.deployments[i as int] == self.deployments@[i as int]@);
                Some(self.deployments[i].clone())
            },
            None => None,
        }
    }

    /// The deployments of `name` from version 1 up to its latest version, by
    /// ascending version.
    pub fn get_deployment_history(&self, name: String) -> (r: Vec<DeploymentRecord>)
        requires
            self.wf(),
        ensures
            record_views(r@) == self@.history(name@),
    {
        let latest = match self.find_name(&name) {
            Some(j) => {
                assert(self@.names[j as int] == self.names@[j as int]@);
                self.names[j].latest
            },
            None => {
                return Vec::new();
            },
        };
        assert(latest < u32::MAX);
        let mut history: Vec<DeploymentRecord> = Vec::new();
        let mut v: u32 = 1;
        while v <= latest
            invariant
                1 <= v <= latest + 1,
                latest < u32::MAX,
                self.wf(),
                record_views(history@) == self@.history_upto(name@, (v - 1) as nat),
            decreases latest + 1 - v,
        {
            let ghost before = record_views(history@);
            match self.find_deployment(&name, v) {
                Some(i) => {
                    proof {
                        lemma_deployment_at(self@, i as int);
                    }
                    assert(self@.deployments[i as int] == self.deployments@[i as int]@);
                    history.push(self.deployments[i].clone());
                    assert(record_views(history@) =~= before.push(self@.deployments[i as int]));
                },
                None => {},
            }
            assert(self@.history_upto(name@, v as nat) == match self@.deployment(name@, v) {
                Some(d) => before.push(d),
                None => before,
            });
            v = v + 1;
        }
        history
    }

    /// Every registered name, in the order it was first registered.
    pub fn get_all_names(&self) -> (r: Vec<String>)
        requires
            self.wf(),
        ensures
            string_views(r@) == self@.all_names(),
    {
        let mut names: Vec<String> = Vec::with_capacity(self.name_count as usize);
        let mut j: usize = 0;
        while j < self.names.len()
            invariant
                j <= self.names.len(),
                self@.names.len() == self.names.len(),
                names@.len() == j,
                string_views(names@) == self@.all_names().take(j as int),
            decreases self.names.len() - j,
        {
            assert(self@.names[j as int] == self.names@[j as int]@);
            assert(self@.all_names()[j as int] == self.names@[j as int].name@);
            let ghost before = names@;
            names.push(self.names[j].name.clone());
            assert(names@ =~= before.push(names@[j as int]));
            assert(string_views(names@) =~= string_views(before).push(self.names@[j as int].name@));
            assert(self@.all_names().take(j + 1) =~= self@.all_names().take(j as int).push(
                self@.all_names()[j as int],
            ));
            j = j + 1;
        }
        assert(self@.all_names().take(j as int) =~= self@.all_names());
        names
    }

    /// The events emitted so far and not yet taken, oldest first.
    pub fn events(&self) -> (r: &Vec<ContractDeployed>)
        ensures
            event_views(r@) == self@.events,
    {
        &self.events
    }

    /// Hands out the events emitted so far, leaving none behind.
    pub fn take_events(&mut self) -> (r: Vec<ContractDeployed>)
        requires
            old(self).wf(),
        ensures
            final(self).wf(),
            event_views(r@) == old(self)@.events,
            final(self)@ == (RegistryState { events: Seq::empty(), ..old(self)@ }),
    {
        let mut taken: Vec<ContractDeployed> = Vec::new();
        std::mem::swap(&mut taken, &mut self.events);
        assert(self@.events =~= Seq::empty());
        assert(self@.deployments == old(self)@.deployments);
        assert(self@.names == old(self)@.names);
        assert(self@.name_count == old(self)@.name_count);
        assert(self@.wf());
        taken
    }
}

} // verus!
