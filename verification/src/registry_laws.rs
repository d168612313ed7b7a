//! What holds of every version registry, across messages.
use vstd::prelude::*;
use crate::env::{AccountId, CallContext};
use crate::registry_types::DeploymentRecordView;
use crate::version_registry::{
    lemma_deployment_at, lemma_name_position, lemma_registered_version_wf, lemma_registered_wf,
    NameEntryView, RegistryState,
};

verus! {

/// A deployment found for a name and version carries that name and version.
proof fn lemma_deployment_found(s: RegistryState, name: Seq<char>, version: u32)
    requires
        s.has_deployment(name, version),
    ensures
        s.deployment(name, version) matches Some(d) && d.contract_name == name && d.version == version,
{
}

/// The latest version of a name is the highest version registered under it,
/// and a name that was never registered has no deployments.
pub proof fn lemma_latest_is_highest(s: RegistryState, name: Seq<char>)
    requires
        s.wf(),
    ensures
        match s.latest_version(name) {
            Some(latest) => {
                &&& s.has_deployment(name, latest)
                &&& forall|v: u32| #[trigger] s.has_deployment(name, v) ==> v <= latest
            },
            None => forall|v: u32| !(#[trigger] s.has_deployment(name, v)),
        },
{
    if s.is_registered(name) {
        let p = s.name_position(name);
        assert(s.names[p].name == name);
        assert forall|v: u32| #[trigger] s.has_deployment(name, v) implies v <= s.names[p].latest by {
            let i = choose|i: int|
                0 <= i < s.deployments.len() && #[trigger] s.deployments[i].contract_name == name
                    && s.deployments[i].version == v;
            assert(s.deployments[i].version <= s.names[p].latest);
        }
    } else {
        assert forall|v: u32| !(#[trigger] s.has_deployment(name, v)) by {
            if s.has_deployment(name, v) {
                let i = choose|i: int|
                    0 <= i < s.deployments.len() && #[trigger] s.deployments[i].contract_name == name
                        && s.deployments[i].version == v;
                assert(s.is_registered(s.deployments[i].contract_name));
            }
        }
    }
}

/// The deployments of versions 1 to `n` of a name come in ascending order,
/// each as stored, and none of them is left out.
proof fn lemma_history_upto(s: RegistryState, name: Seq<char>, n: nat)
    requires
        s.wf(),
        n <= u32::MAX,
    ensures
        ({
            let h = s.history_upto(name, n);
            &&& forall|i: int|
                0 <= i < h.len() ==> 1 <= #[trigger] h[i].version <= n && s.deployment(name, h[i].version)
                    == Some(h[i])
            &&& forall|i: int, j: int| 0 <= i < j < h.len() ==> h[i].version < h[j].version
            &&& forall|v: u32|
                1 <= v <= n && #[trigger] s.has_deployment(name, v) ==> exists|i: int|
                    0 <= i < h.len() && h[i].version == v
        }),
    decreases n,
{
    if n > 0 {
        lemma_history_upto(s, name, (n - 1) as nat);
        let earlier = s.history_upto(name, (n - 1) as nat);
        let h = s.history_upto(name, n);
        if s.has_deployment(name, n as u32) {
            lemma_deployment_found(s, name, n as u32);
            let d = s.deployment(name, n as u32)->0;
            assert(h == earlier.push(d));
            assert forall|v: u32|
                1 <= v <= n && #[trigger] s.has_deployment(name, v) implies exists|i: int|
                0 <= i < h.len() && h[i].version == v by {
                if v == n {
                    assert(h[earlier.len() as int].version == v);
                } else {
                    let i = choose|i: int| 0 <= i < earlier.len() && earlier[i].version == v;
                    assert(h[i] == earlier[i]);
                }
            }
            assert forall|i: int|
                0 <= i < h.len() implies 1 <= #[trigger] h[i].version <= n && s.deployment(
                name,
                h[i].version,
            ) == Some(h[i]) by {
                if i < earlier.len() {
                    assert(h[i] == earlier[i]);
                }
            }
        } else {
            assert(h == earlier);
        }
    }
}

/// The history of a name lists every deployment of it exactly once, as
/// stored, by ascending version.
pub proof fn lemma_history_lists_every_deployment(s: RegistryState, name: Seq<char>)
    requires
        s.wf(),
    ensures
        ({
            let h = s.history(name);
            &&& forall|i: int, j: int| 0 <= i < j < h.len() ==> h[i].version < h[j].version
            &&& forall|i: int| 0 <= i < h.len() ==> s.deployment(name, #[trigger] h[i].version) == Some(h[i])
            &&& forall|v: u32| #[trigger] s.has_deployment(name, v) ==> exists|i: int|
                0 <= i < h.len() && h[i].version == v
        }),
{
    lemma_latest_is_highest(s, name);
    match s.latest_version(name) {
        Some(latest) => {
            lemma_history_upto(s, name, latest as nat);
            let h = s.history(name);
            assert forall|v: u32| #[trigger] s.has_deployment(name, v) implies exists|i: int|
                0 <= i < h.len() && h[i].version == v by {
                let i = choose|i: int|
                    0 <= i < s.deployments.len() && #[trigger] s.deployments[i].contract_name == name
                        && s.deployments[i].version == v;
                assert(1 <= s.deployments[i].version);
            }
        },
        None => {},
    }
}

/// Every registered name is listed exactly once, and only registered names
/// are listed.
pub proof fn lemma_names_listed_once(s: RegistryState)
    requires
        s.wf(),
    ensures
        s.all_names().no_duplicates(),
        forall|name: Seq<char>| s.all_names().contains(name) <==> s.is_registered(name),
{
    let names = s.all_names();
    assert forall|j: int, k: int| 0 <= j < names.len() && 0 <= k < names.len() && j != k implies names[j]
        != names[k] by {
        assert(names[j] == s.names[j].name);
        assert(names[k] == s.names[k].name);
    }
    assert forall|name: Seq<char>| names.contains(name) <==> s.is_registered(name) by {
        if names.contains(name) {
            let j = choose|j: int| 0 <= j < names.len() && names[j] == name;
            assert(s.names[j].name == name);
        }
        if s.is_registered(name) {
            let j = choose|j: int| 0 <= j < s.names.len() && #[trigger] s.names[j].name == name;
            assert(names[j] == name);
        }
    }
}

/// After a successful automatic registration the new deployment is read back
/// as registered, its version is the name's latest and exceeds every version
/// used before, the next automatic version follows it, no other deployment changes, and the name is listed once.
pub proof fn lemma_register_then_read(s: RegistryState, ctx: CallContext, name: Seq<char>, code_hash: [u8; 32])
    requires
        s.wf(),
        s.can_register(ctx.caller, name),
        s.register_outcome(ctx.caller, name) is Ok,
    ensures
        ({
            let v = s.next_version(name);
            let t = s.registered(ctx, name, code_hash);
            &&& s.register_outcome(ctx.caller, name) == Ok::<u32, crate::registry_types::Error>(v)
            &&& forall|u: u32| #[trigger] s.has_deployment(name, u) ==> u < v
            &&& t.deployment(name, v) == Some(
                DeploymentRecordView {
                    contract_name: name,
                    version: v,
                    code_hash,
                    deployed_at: ctx.block_timestamp,
                    deployer: ctx.caller,
                },
            )
            &&& t.latest_version(name) == Some(v)
            &&& t.next_version(name) == v + 1
            &&& forall|n2: Seq<char>, v2: u32|
                !(n2 == name && v2 == v) ==> #[trigger] t.deployment(n2, v2) == s.deployment(n2, v2)
            &&& t.all_names() == if s.is_registered(name) {
                s.all_names()
            } else {
                s.all_names().push(name)
            }
        }),
{
    let v = s.next_version(name);
    let entry = NameEntryView { name, latest: v, next: (v + 1) as u32 };
    lemma_registered_wf(s, ctx, name, code_hash);
    let t = s.registered(ctx, name, code_hash);
    lemma_latest_is_highest(s, name);
    if s.is_registered(name) {
        let p = s.name_position(name);
        assert(s.names[p].name == name);
        assert forall|u: u32| #[trigger] s.has_deployment(name, u) implies u < v by {
            let i = choose|i: int|
                0 <= i < s.deployments.len() && #[trigger] s.deployments[i].contract_name == name
                    && s.deployments[i].version == u;
            assert(s.deployments[i].version < s.names[p].next);
        }
    }
    relate_after_registration(s, t, name, v, entry);
}

/// After a successful registration of a chosen version the new deployment is
/// read back as registered, the name's latest version is the higher of the
/// old latest and the new one, the next automatic version exceeds every
/// version used, no other deployment changes, and the name is
/// listed once.
pub proof fn lemma_register_version_then_read(
    s: RegistryState,
    ctx: CallContext,
    name: Seq<char>,
    version: u32,
    code_hash: [u8; 32],
)
    requires
        s.wf(),
        s.can_register_version(ctx.caller, name, version),
        s.register_version_outcome(ctx.caller, name, version) is Ok,
    ensures
        ({
            let t = s.registered_version(ctx, name, version, code_hash);
            &&& t.deployment(name, version) == Some(
                DeploymentRecordView {
                    contract_name: name,
                    version,
                    code_hash,
                    deployed_at: ctx.block_timestamp,
                    deployer: ctx.caller,
                },
            )
            &&& t.latest_version(name) == Some(
                match s.latest_version(name) {
                    Some(l) => if version > l { version } else { l },
                    None => version,
                },
            )
            &&& t.next_version(name) == if version >= s.next_version(name) {
                version + 1
            } else {
                s.next_version(name) as int
            }
            &&& forall|u: u32| #[trigger] t.has_deployment(name, u) ==> u < t.next_version(name)
            &&& forall|n2: Seq<char>, v2: u32|
                !(n2 == name && v2 == version) ==> #[trigger] t.deployment(n2, v2) == s.deployment(n2, v2)
            &&& t.all_names() == if s.is_registered(name) {
                s.all_names()
            } else {
                s.all_names().push(name)
            }
        }),
{
    let latest = match s.latest_version(name) {
        Some(l) => l,
        None => 0,
    };
    let next = s.next_version(name);
    let entry = NameEntryView {
        name,
        latest: if version > latest { version } else { latest },
        next: if version >= next { (version + 1) as u32 } else { next },
    };
    lemma_registered_version_wf(s, ctx, name, version, code_hash);
    let t = s.registered_version(ctx, name, version, code_hash);
    relate_after_registration(s, t, name, version, entry);
    let p = t.name_position(name);
    assert(t.names[p].name == name);
    assert forall|u: u32| #[trigger] t.has_deployment(name, u) implies u < t.next_version(name) by {
        let i = choose|i: int|
            0 <= i < t.deployments.len() && #[trigger] t.deployments[i].contract_name == name
                && t.deployments[i].version == u;
        assert(t.deployments[i].version < t.names[p].next);
    }
}

/// What a registration that adds a deployment of `version` of `name` with
/// name entry `entry` does to lookups.
proof fn relate_after_registration(
    s: RegistryState,
    t: RegistryState,
    name: Seq<char>,
    version: u32,
    entry: NameEntryView,
)
    requires
        s.wf(),
        t.wf(),
        entry.name == name,
        t.deployments.len() == s.deployments.len() + 1,
        forall|i: int| 0 <= i < s.deployments.len() ==> t.deployments[i] == s.deployments[i],
        t.deployments.last().contract_name == name,
        t.deployments.last().version == version,
        t.names == if s.is_registered(name) {
            s.names.update(s.name_position(name), entry)
        } else {
            s.names.push(entry)
        },
    ensures
        t.deployment(name, version) == Some(t.deployments.last()),
        t.latest_version(name) == Some(entry.latest),
        t.next_version(name) == entry.next,
        forall|n2: Seq<char>, v2: u32|
            !(n2 == name && v2 == version) ==> #[trigger] t.deployment(n2, v2) == s.deployment(n2, v2),
        t.all_names() == if s.is_registered(name) {
            s.all_names()
        } else {
            s.all_names().push(name)
        },
{
    let n = s.deployments.len() as int;
    lemma_deployment_at(t, n);
    let pos = if s.is_registered(name) {
        s.name_position(name)
    } else {
        s.names.len() as int
    };
    if s.is_registered(name) {
        assert(s.names[pos].name == name);
    }
    assert(t.names[pos] == entry);
    lemma_name_position(t, pos);
    assert forall|n2: Seq<char>, v2: u32|
        !(n2 == name && v2 == version) implies #[trigger] t.deployment(n2, v2) == s.deployment(n2, v2) by {
        if s.has_deployment(n2, v2) {
            let i = choose|i: int|
                0 <= i < s.deployments.len() && #[trigger] s.deployments[i].contract_name == n2
                    && s.deployments[i].version == v2;
            lemma_deployment_at(s, i);
            assert(t.deployments[i] == s.deployments[i]);
            lemma_deployment_at(t, i);
        }
        if t.has_deployment(n2, v2) {
            let i = choose|i: int|
                0 <= i < t.deployments.len() && #[trigger] t.deployments[i].contract_name == n2
                    && t.deployments[i].version == v2;
            assert(i != n);
            assert(s.deployments[i] == t.deployments[i]);
        }
    }
    if s.is_registered(name) {
        assert(t.all_names() =~= s.all_names());
    } else {
        assert(t.all_names() =~= s.all_names().push(name));
    }
}

/// The next automatic version of a name is one past its latest version (1 for
/// a name never registered), so it exceeds every version used for the name.
pub proof fn lemma_next_follows_latest(s: RegistryState, name: Seq<char>)
    requires
        s.wf(),
    ensures
        s.next_version(name) == match s.latest_version(name) {
            Some(latest) => latest + 1,
            None => 1int,
        },
        forall|u: u32| #[trigger] s.has_deployment(name, u) ==> u < s.next_version(name),
{
    lemma_latest_is_highest(s, name);
    if s.is_registered(name) {
        let p = s.name_position(name);
        assert(s.names[p].name == name);
    }
}

/// Two automatic registrations of a name in a row by the administrator get
/// consecutive versions.
pub proof fn lemma_consecutive_registrations(
    s: RegistryState,
    first: CallContext,
    second: CallContext,
    name: Seq<char>,
    first_hash: [u8; 32],
)
    requires
        s.wf(),
        s.can_register(first.caller, name),
        s.register_outcome(first.caller, name) is Ok,
        second.caller == s.admin,
    ensures
        ({
            let t = s.registered(first, name, first_hash);
            &&& t.wf()
            &&& t.admin == s.admin
            &&& t.register_outcome(second.caller, name) == Ok::<u32, crate::registry_types::Error>(
                (s.next_version(name) + 1) as u32,
            )
        }),
{
    lemma_register_then_read(s, first, name, first_hash);
    let t = s.registered(first, name, first_hash);
    lemma_registered_wf(s, first, name, first_hash);
    lemma_next_follows_latest(t, name);
}

/// The administrator's automatic registration of a name is refused only if
/// the name already has a deployment at its next version (which the
/// invariant rules out); a name never registered always gets version 1.
pub proof fn lemma_register_refused_only_when_taken(s: RegistryState, caller: AccountId, name: Seq<char>)
    requires
        s.wf(),
    ensures
        caller == s.admin && !s.has_deployment(name, s.next_version(name)) ==> s.register_outcome(
            caller,
            name,
        ) == Ok::<u32, crate::registry_types::Error>(s.next_version(name)),
        caller == s.admin ==> s.register_outcome(caller, name) is Ok,
        caller == s.admin && !s.is_registered(name) ==> s.register_outcome(caller, name) == Ok::<
            u32,
            crate::registry_types::Error,
        >(1),
        caller != s.admin ==> s.register_outcome(caller, name) == Err::<u32, crate::registry_types::Error>(
            crate::registry_types::Error::Unauthorized,
        ),
{
    lemma_next_follows_latest(s, name);
}

/// The administrator's registration of a chosen version is refused only for
/// version 0 or a version the name already has.
pub proof fn lemma_register_version_refused_only_when_invalid(
    s: RegistryState,
    caller: AccountId,
    name: Seq<char>,
    version: u32,
)
    ensures
        caller == s.admin && 1 <= version && !s.has_deployment(name, version)
            ==> s.register_version_outcome(caller, name, version) is Ok,
        s.register_version_outcome(caller, name, version) is Err ==> caller != s.admin || version == 0
            || s.has_deployment(name, version),
{
}

} // verus!
