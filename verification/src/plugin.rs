//! Plugin ABI model: the bound vtables, the handshake checks, and the
//! capability-version negotiation.
//!
//! The entry points of a loaded plugin are raw function pointers on the
//! other side of the native boundary. The embedding layer binds them and
//! registers each bound set under a numeric handle; the values here carry
//! those handles, and every decision about them — which ABI generation is
//! accepted, which capability version is selected, what each status code
//! means — is made by the functions of this module.

use vstd::prelude::*;

use crate::error::Error;
use crate::protocol::{caps_view, Capability};

verus! {

/// The generation-0 plugin vtable: `initialize`, `finalize` and
/// `query-interfaces`, bound once at load time and kept by the embedding
/// layer under this handle.
#[derive(Debug, Clone, Copy, PartialEq, Eq, Structural)]
pub struct PluginV0 {
    pub vtable: u64,
}

/// A bound plugin vtable, tagged by ABI generation.
#[derive(Debug, Clone, Copy, PartialEq, Eq, Structural)]
pub enum PluginVTable {
    V0(PluginV0),
}

/// The version-0 hash vtable: create, output_size, block_size, update,
/// reset, clone, finalize and destroy, bound once at bind time and kept by
/// the embedding layer under this handle.
#[derive(Debug, Clone, Copy, PartialEq, Eq, Structural)]
pub struct HashInterfaceV0 {
    pub vtable: u64,
}

/// A bound hash interface, tagged by capability version.
#[derive(Debug, Clone, Copy, PartialEq, Eq, Structural)]
pub enum HashInterface {
    V0(HashInterfaceV0),
}

/// A bound capability interface, tagged by capability kind.
#[derive(Debug, Clone, Copy, PartialEq, Eq, Structural)]
pub enum PluginInterface {
    Hash(HashInterface),
}

/// How the embedding layer's attempt to resolve a set of entry points
/// ended: every symbol bound, under one handle — or the name of the first
/// symbol that did not resolve.
#[derive(Debug, Clone, PartialEq)]
pub enum SymbolsReply {
    Bound { handle: u64 },
    Missing { symbol: String },
}

/// The capability name `hash`, as its protocol bytes.
pub open spec fn hash_capability() -> Seq<u8> {
    seq![104u8, 97u8, 115u8, 104u8]
}

/// The `hash` capability versions this host understands.
pub open spec fn host_hash_versions() -> Seq<u8> {
    seq![0u8]
}

/// The capability name `hash`, as a byte vector.
pub fn hash_capability_name() -> (r: Vec<u8>)
    ensures
        r@ == hash_capability(),
{
    let mut r: Vec<u8> = Vec::new();
    r.push(104);
    r.push(97);
    r.push(115);
    r.push(104);
    proof {
        assert(r@ =~= hash_capability());
    }
    r
}

/// The `hash` capability versions this host understands, as a vector.
pub fn supported_hash_versions() -> (r: Vec<u8>)
    ensures
        r@ == host_hash_versions(),
{
    let mut r: Vec<u8> = Vec::new();
    r.push(0);
    proof {
        assert(r@ =~= host_hash_versions());
    }
    r
}

/// The version that negotiation settles on: walking `versions` from the
/// back — the highest offer first, when the list is ascending — the first
/// one that `supported` also holds.
pub open spec fn best_supported(versions: Seq<u8>, supported: Seq<u8>) -> Option<u8>
    decreases versions.len(),
{
    if versions.len() == 0 {
        None
    } else if supported.contains(versions.last()) {
        Some(versions.last())
    } else {
        best_supported(versions.drop_last(), supported)
    }
}

/// On an ascending offer list, negotiation picks exactly the highest
/// mutually supported version, and comes up empty only when there is none.
pub proof fn lemma_best_supported_is_max(versions: Seq<u8>, supported: Seq<u8>)
    requires
        crate::protocol::strictly_sorted(versions),
    ensures
        match best_supported(versions, supported) {
            Some(v) => {
                &&& versions.contains(v)
                &&& supported.contains(v)
                &&& forall|x: u8|
                    versions.contains(x) && supported.contains(x) ==> x <= v
            },
            None => forall|x: u8| versions.contains(x) ==> !supported.contains(x),
        },
    decreases versions.len(),
{
    if versions.len() > 0 {
        let last = versions.last();
        if supported.contains(last) {
            assert forall|x: u8|
                versions.contains(x) && supported.contains(x) implies x <= last by {
                let i = choose|i: int| 0 <= i < versions.len() && versions[i] == x;
                assert(versions[i] <= versions[versions.len() - 1]);
            }
        } else {
            let df = versions.drop_last();
            assert(crate::protocol::strictly_sorted(df));
            lemma_best_supported_is_max(df, supported);
            match best_supported(df, supported) {
                Some(v) => {
                    assert(df.contains(v));
                    let i = choose|i: int| 0 <= i < df.len() && df[i] == v;
                    assert(versions[i] == v);
                    assert forall|x: u8|
                        versions.contains(x) && supported.contains(x) implies x <= v by {
                        let j = choose|j: int| 0 <= j < versions.len() && versions[j] == x;
                        assert(j < versions.len() - 1);
                        assert(df[j] == x);
                    }
                },
                None => {
                    assert forall|x: u8| versions.contains(x) implies !supported.contains(
                        x,
                    ) by {
                        let j = choose|j: int| 0 <= j < versions.len() && versions[j] == x;
                        if j < versions.len() - 1 {
                            assert(df[j] == x);
                        }
                    }
                },
            }
        }
    }
}

/// A version that negotiation settles on is one of the offers, and one
/// the host understands.
pub proof fn lemma_best_supported_member(versions: Seq<u8>, supported: Seq<u8>)
    ensures
        best_supported(versions, supported) matches Some(v) ==> versions.contains(v)
            && supported.contains(v),
    decreases versions.len(),
{
    if versions.len() > 0 && !supported.contains(versions.last()) {
        lemma_best_supported_member(versions.drop_last(), supported);
        match best_supported(versions.drop_last(), supported) {
            Some(v) => {
                let i = choose|i: int|
                    0 <= i < versions.drop_last().len() && versions.drop_last()[i] == v;
                assert(versions[i] == v);
            },
            None => {},
        }
    }
}

/// The hash version binding tries is always one this host understands.
pub proof fn lemma_hash_bind_version_supported(cv: Seq<(Seq<u8>, Seq<u8>)>)
    ensures
        spec_hash_bind_version(cv) matches Some(v) ==> host_hash_versions().contains(v),
    decreases cv.len(),
{
    if cv.len() > 0 {
        if cv[0].0 == hash_capability() {
            lemma_best_supported_member(cv[0].1, host_hash_versions());
        } else {
            lemma_hash_bind_version_supported(cv.drop_first());
        }
    }
}

/// Against a well-formed capability list — names distinct, version sets
/// ascending, as the codec produces them — binding settles on exactly the
/// highest hash version this host also understands, and skips the
/// capability only when there is no such version.
pub proof fn lemma_negotiation_picks_the_max(cv: Seq<(Seq<u8>, Seq<u8>)>, i: int)
    requires
        crate::protocol::caps_wf(cv),
        0 <= i < cv.len(),
        cv[i].0 == hash_capability(),
    ensures
        match spec_hash_bind_version(cv) {
            Some(v) => {
                &&& cv[i].1.contains(v)
                &&& host_hash_versions().contains(v)
                &&& forall|x: u8|
                    cv[i].1.contains(x) && host_hash_versions().contains(x) ==> x <= v
            },
            None => forall|x: u8|
                cv[i].1.contains(x) ==> !host_hash_versions().contains(x),
        },
{
    lemma_bind_version_of_entry(cv, i);
    lemma_best_supported_is_max(cv[i].1, host_hash_versions());
}

/// The bound version is read off the entry that carries the `hash` name;
/// with distinct names there is exactly one.
proof fn lemma_bind_version_of_entry(cv: Seq<(Seq<u8>, Seq<u8>)>, i: int)
    requires
        forall|a: int, b: int| 0 <= a < b < cv.len() ==> cv[a].0 != cv[b].0,
        0 <= i < cv.len(),
        cv[i].0 == hash_capability(),
    ensures
        spec_hash_bind_version(cv) == best_supported(cv[i].1, host_hash_versions()),
    decreases i,
{
    if i > 0 {
        assert(cv[0].0 != cv[i].0);
        let df = cv.drop_first();
        assert(df[i - 1] == cv[i]);
        lemma_bind_version_of_entry(df, i - 1);
    }
}

/// Whether `vs` holds `v`.
fn contains_version(vs: &Vec<u8>, v: u8) -> (r: bool)
    ensures
        r == vs@.contains(v),
{
    let n = vs.len();
    let mut i: usize = 0;
    while i < n
        invariant
            i <= n,
            n == vs@.len(),
            forall|j: int| 0 <= j < i ==> vs@[j] != v,
        decreases n - i,
    {
        if vs[i] == v {
            return true;
        }
        i = i + 1;
    }
    false
}

/// The highest-first walk of `versions` for one that `supported` holds.
pub fn select_version(versions: &Vec<u8>, supported: &Vec<u8>) -> (r: Option<u8>)
    ensures
        r == best_supported(versions@, supported@),
{
    let n = versions.len();
    let mut i: usize = n;
    proof {
        assert(versions@.take(n as int) =~= versions@);
    }
    while i > 0
        invariant
            i <= n,
            n == versions@.len(),
            best_supported(versions@, supported@) == best_supported(
                versions@.take(i as int),
                supported@,
            ),
        decreases i,
    {
        i = i - 1;
        let v = versions[i];
        let ghost pre = versions@.take(i + 1);
        proof {
            assert(pre.last() == v);
        }
        if contains_version(supported, v) {
            return Some(v);
        }
        proof {
            assert(pre.drop_last() =~= versions@.take(i as int));
        }
    }
    proof {
        assert(versions@.take(0) =~= Seq::<u8>::empty());
    }
    None
}

/// The hash version binding will try for this capability list:
/// that of the first `hash` entry with a mutually supported version.
pub open spec fn spec_hash_bind_version(cv: Seq<(Seq<u8>, Seq<u8>)>) -> Option<u8>
    decreases cv.len(),
{
    if cv.len() == 0 {
        None
    } else if cv[0].0 == hash_capability() {
        best_supported(cv[0].1, host_hash_versions())
    } else {
        spec_hash_bind_version(cv.drop_first())
    }
}

/// Walks a decoded capability list for the `hash` capability and selects
/// the version to bind: an unrecognized capability name is skipped without
/// error, and so is a `hash` entry none of whose versions this host
/// understands.
pub fn plan_hash_bind(caps: &Vec<Capability>) -> (r: Option<u8>)
    ensures
        r == spec_hash_bind_version(caps_view(caps@)),
{
    let hash_name = hash_capability_name();
    let supported = supported_hash_versions();
    let n = caps.len();
    let mut i: usize = 0;
    proof {
        assert(caps_view(caps@).skip(0) =~= caps_view(caps@));
    }
    while i < n
        invariant
            i <= n,
            n == caps@.len(),
            hash_name@ == hash_capability(),
            supported@ == host_hash_versions(),
            spec_hash_bind_version(caps_view(caps@)) == spec_hash_bind_version(
                caps_view(caps@).skip(i as int),
            ),
        decreases n - i,
    {
        let ghost cv = caps_view(caps@);
        proof {
            assert(cv[i as int] == (caps@[i as int].name@, caps@[i as int].versions@));
            assert(cv.skip(i as int)[0] == cv[i as int]);
        }
        if crate::protocol::bytes_eq(&caps[i].name, &hash_name) {
            let r = select_version(&caps[i].versions, &supported);
            proof {
                assert(cv.skip(i as int)[0].0 == hash_capability());
            }
            return r;
        }
        proof {
            assert(cv.skip(i as int).drop_first() =~= cv.skip(i + 1));
        }
        i = i + 1;
    }
    proof {
        assert(caps_view(caps@).skip(n as int) =~= Seq::<(Seq<u8>, Seq<u8>)>::empty());
    }
    None
}

/// The version handshake: only ABI generation `0` is supported; any other
/// value from
/// `interface-version` rejects the plugin.
pub fn check_interface_version(name: &String, version: u32) -> (r: Result<(), Error>)
    ensures
        match r {
            Ok(u) => version == 0,
            Err(e) => {
                &&& version != 0
                &&& e matches Error::PluginInterfaceVersionUnsupported { name: n } && n@ == name@
            },
        },
{
    if version == 0 {
        Ok(())
    } else {
        Err(Error::PluginInterfaceVersionUnsupported { name: name.clone() })
    }
}

/// A non-zero return from `initialize` is the plugin's own
/// failure, surfaced with its raw code.
pub fn check_init_status(name: &String, code: u32) -> (r: Result<(), Error>)
    ensures
        match r {
            Ok(u) => code == 0,
            Err(e) => {
                &&& code != 0
                &&& e matches Error::PluginInternalError { name: n, code: c } && n@ == name@ && c
                    == code
            },
        },
{
    if code == 0 {
        Ok(())
    } else {
        Err(Error::PluginInternalError { name: name.clone(), code })
    }
}

/// Symbol binding for the selected hash version: every entry point
/// resolved — an interface; any missing symbol — `PluginSymbolError`, for
/// the plugin advertised a version it does not implement.
pub fn bind_hash_interface(name: &String, version: u8, reply: SymbolsReply) -> (r: Result<
    PluginInterface,
    Error,
>)
    requires
        host_hash_versions().contains(version),
    ensures
        match r {
            Ok(iface) => {
                &&& reply matches SymbolsReply::Bound { handle } && iface
                    == PluginInterface::Hash(HashInterface::V0(HashInterfaceV0 { vtable: handle }))
            },
            Err(e) => {
                &&& reply matches SymbolsReply::Missing { symbol } && e matches
                    Error::PluginSymbolError { name: n, symbol: s } && n@ == name@ && s@ == symbol@
            },
        },
{
    match reply {
        SymbolsReply::Bound { handle } => {
            proof {
                assert(version == 0);
            }
            Ok(PluginInterface::Hash(HashInterface::V0(HashInterfaceV0 { vtable: handle })))
        },
        SymbolsReply::Missing { symbol } => Err(
            Error::PluginSymbolError { name: name.clone(), symbol },
        ),
    }
}

} // verus!
