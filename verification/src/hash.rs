//! Hash dispatch and instance lifecycle.
//!
//! Dispatch selects which providers to try for a requested algorithm —
//! an explicitly named provider, the operator's preferred ranking, or
//! every provider advertising the capability, in load order — and drives
//! the bound vtable through the embedding layer. A plugin's `create`
//! signals "algorithm not supported" by succeeding with no handle, which
//! sends dispatch to the next candidate; a non-zero status is a hard
//! error, never a silent skip. The plugin calls themselves happen across
//! the native boundary; their outcomes come in as `CreateReply` values
//! and plain status codes.

use vstd::prelude::*;

use crate::assoc::assoc_get;
use crate::error::Error;
use crate::plugin::{HashInterface, PluginInterface};
use crate::{provider_index, Confium, Provider};

verus! {

/// How one provider's `create` call ended: its status, and the native
/// handle it produced, if any.
#[derive(Debug, Clone, Copy, PartialEq, Eq)]
pub struct CreateReply {
    pub status: u32,
    pub handle: Option<u64>,
}

/// A live hash instance: the exclusively-owned native handle, the
/// algorithm name, the shared library handle, and the resolved interface.
/// The embedding layer keeps the provider's library mapped while `lib` is
/// held here.
#[derive(Debug, Clone)]
pub struct Hash {
    pub obj: u64,
    pub name: String,
    pub lib: u64,
    pub interface: HashInterface,
}

/// Whether a bound interface serves the hash capability.
pub open spec fn is_hash_interface(iface: PluginInterface) -> bool {
    match iface {
        PluginInterface::Hash(h) => true,
    }
}

/// The first position at or after `at` of a hash interface.
pub open spec fn interface_index(ifs: Seq<PluginInterface>, at: int) -> Option<int>
    decreases ifs.len() - at,
{
    if at < 0 || at >= ifs.len() {
        None
    } else if is_hash_interface(ifs[at]) {
        Some(at)
    } else {
        interface_index(ifs, at + 1)
    }
}

/// Whether a provider advertises the hash capability.
pub open spec fn spec_has_hash_interface(p: Provider) -> bool {
    interface_index(p.plugin.interfaces@, 0) is Some
}

/// The interface search skips any range of non-hash entries.
proof fn lemma_interface_index_skip(ifs: Seq<PluginInterface>, at: int, i: int)
    requires
        0 <= at <= i <= ifs.len(),
        forall|j: int| at <= j < i ==> !is_hash_interface(#[trigger] ifs[j]),
    ensures
        interface_index(ifs, at) == interface_index(ifs, i),
    decreases i - at,
{
    if at < i {
        lemma_interface_index_skip(ifs, at + 1, i);
    }
}

/// The first provider whose name is `name`, if any.
pub fn find_provider<'a>(cfm: &'a Confium, name: &String) -> (r: Option<&'a Provider>)
    ensures
        match r {
            Some(p) => {
                &&& provider_index(cfm.providers_view(), name@, 0) matches Some(i) && *p
                    == cfm.providers_view()[i]
            },
            None => provider_index(cfm.providers_view(), name@, 0) is None,
        },
{
    match cfm.provider_position(name) {
        Some(i) => Some(&cfm.providers[i]),
        None => None,
    }
}

/// The provider named `name`, or `UnknownProvider`.
pub fn get_provider<'a>(cfm: &'a Confium, name: &String) -> (r: Result<&'a Provider, Error>)
    ensures
        match r {
            Ok(p) => {
                &&& provider_index(cfm.providers_view(), name@, 0) matches Some(i) && *p
                    == cfm.providers_view()[i]
            },
            Err(e) => {
                &&& provider_index(cfm.providers_view(), name@, 0) is None
                &&& e matches Error::UnknownProvider { name: n } && n@ == name@
            },
        },
{
    match find_provider(cfm, name) {
        Some(p) => Ok(p),
        None => Err(Error::UnknownProvider { name: name.clone() }),
    }
}

/// The provider's bound hash interface, if it advertised the capability.
pub fn find_hash_interface<'a>(provider: &'a Provider) -> (r: Option<&'a PluginInterface>)
    ensures
        match r {
            Some(iface) => {
                &&& interface_index(provider.plugin.interfaces@, 0) matches Some(i) && *iface
                    == provider.plugin.interfaces@[i]
            },
            None => interface_index(provider.plugin.interfaces@, 0) is None,
        },
{
    let n = provider.plugin.interfaces.len();
    let mut i: usize = 0;
    while i < n
        invariant
            i <= n,
            n == provider.plugin.interfaces@.len(),
            forall|j: int|
                0 <= j < i ==> !is_hash_interface(#[trigger] provider.plugin.interfaces@[j]),
        decreases n - i,
    {
        match &provider.plugin.interfaces[i] {
            PluginInterface::Hash(_) => {
                proof {
                    lemma_interface_index_skip(provider.plugin.interfaces@, 0, i as int);
                }
                return Some(&provider.plugin.interfaces[i]);
            },
        }
    }
    proof {
        lemma_interface_index_skip(provider.plugin.interfaces@, 0, n as int);
    }
    None
}

/// The provider's bound hash interface, or `PluginMissingInterface`.
pub fn get_hash_interface<'a>(provider: &'a Provider) -> (r: Result<&'a PluginInterface, Error>)
    ensures
        match r {
            Ok(iface) => {
                &&& interface_index(provider.plugin.interfaces@, 0) matches Some(i) && *iface
                    == provider.plugin.interfaces@[i]
            },
            Err(e) => {
                &&& interface_index(provider.plugin.interfaces@, 0) is None
                &&& e matches Error::PluginMissingInterface { name: n, ifname: f } && n@
                    == provider.name@ && f@ == "hash"@
            },
        },
{
    match find_hash_interface(provider) {
        Some(iface) => Ok(iface),
        None => Err(
            Error::PluginMissingInterface {
                name: provider.name.clone(),
                ifname: String::from_str("hash"),
            },
        ),
    }
}

/// The provider positions, from `at` on, of the providers that advertise
/// the hash capability, in load order.
pub open spec fn hash_provider_indices(providers: Seq<Provider>, at: int) -> Seq<int>
    decreases providers.len() - at,
{
    if at < 0 || at >= providers.len() {
        Seq::empty()
    } else if spec_has_hash_interface(providers[at]) {
        seq![at] + hash_provider_indices(providers, at + 1)
    } else {
        hash_provider_indices(providers, at + 1)
    }
}

/// Each preferred name resolved to its provider position, in rank order —
/// or the rank of the first name that no provider carries: a ranking that
/// names an unknown provider is a fatal misconfiguration, not a skip.
pub open spec fn spec_resolve_preferred(
    providers: Seq<Provider>,
    prefs: Seq<String>,
    at: int,
) -> Result<Seq<int>, int>
    decreases prefs.len() - at,
{
    if at < 0 || at >= prefs.len() {
        Ok(Seq::empty())
    } else {
        match provider_index(providers, prefs[at]@, 0) {
            None => Err(at),
            Some(i) => match spec_resolve_preferred(providers, prefs, at + 1) {
                Ok(rest) => Ok(seq![i] + rest),
                Err(e) => Err(e),
            },
        }
    }
}

/// The provider positions dispatch will try, in order of precedence: the
/// explicitly named provider; else the preferred ranking for `hash`; else
/// every provider advertising `hash`, in load order. `Err` carries the
/// name that failed to resolve.
pub open spec fn spec_candidates_for(
    cfm: Confium,
    provider_name: Option<Seq<char>>,
) -> Result<Seq<int>, Seq<char>> {
    match provider_name {
        Some(pn) => match provider_index(cfm.providers_view(), pn, 0) {
            Some(i) => Ok(seq![i]),
            None => Err(pn),
        },
        None => match assoc_get(cfm.preferred_view(), "hash"@) {
            Some(prefs) => match spec_resolve_preferred(cfm.providers_view(), prefs@, 0) {
                Ok(list) => Ok(list),
                Err(j) => Err(prefs@[j]@),
            },
            None => Ok(hash_provider_indices(cfm.providers_view(), 0)),
        },
    }
}

/// The positions as mathematical integers.
pub open spec fn usizes(s: Seq<usize>) -> Seq<int> {
    s.map_values(|x: usize| x as int)
}

/// Selects the candidate providers for one dispatch, by precedence:
/// an explicitly named provider is the only candidate and must exist; a
/// preferred ranking is resolved name by name, an unknown name a hard
/// `UnknownProvider`; otherwise every provider advertising `hash`, in
/// load order.
pub fn resolve_candidates(cfm: &Confium, provider_name: Option<&String>) -> (r: Result<
    Vec<usize>,
    Error,
>)
    ensures
        r matches Ok(v) ==> forall|k: int|
            0 <= k < v@.len() ==> (#[trigger] v@[k]) < cfm.providers_view().len(),
        match spec_candidates_for(
            *cfm,
            match provider_name {
                Some(pn) => Some(pn@),
                None => None,
            },
        ) {
            Ok(list) => r matches Ok(v) && usizes(v@) == list,
            Err(nm) => r matches Err(Error::UnknownProvider { name: n }) && n@ == nm,
        },
{
    match provider_name {
        Some(pn) => {
            match cfm.provider_position(pn) {
                Some(i) => {
                    let mut v: Vec<usize> = Vec::new();
                    v.push(i);
                    proof {
                        assert(usizes(v@) =~= seq![i as int]);
                        assert forall|k: int|
                            0 <= k < usizes(v@).len() implies 0 <= #[trigger] usizes(v@)[k]
                            < cfm.providers_view().len() by {
                            assert(usizes(v@)[k] == i as int);
                        }
                    }
                    Ok(v)
                },
                None => Err(Error::UnknownProvider { name: pn.clone() }),
            }
        },
        None => {
            let hash_key = String::from_str("hash");
            match cfm.preferred_position(&hash_key) {
                Some(pi) => {
                    proof {
                        crate::assoc::lemma_assoc_get_found(
                            cfm.preferred_view(),
                            "hash"@,
                            pi as int,
                        );
                    }
                    let prefs = &cfm.preferred_providers[pi].1;
                    let m = prefs.len();
                    let mut v: Vec<usize> = Vec::new();
                    let mut j: usize = 0;
                    proof {
                        match spec_resolve_preferred(cfm.providers_view(), prefs@, 0) {
                            Ok(rest) => {
                                assert(usizes(v@) + rest =~= rest);
                            },
                            Err(e) => {},
                        }
                    }
                    while j < m
                        invariant
                            provider_name is None,
                            j <= m,
                            m == prefs@.len(),
                            pi < cfm.preferred_view().len(),
                            *prefs == cfm.preferred_view()[pi as int].1,
                            assoc_get(cfm.preferred_view(), "hash"@) == Some(
                                cfm.preferred_view()[pi as int].1,
                            ),
                            forall|k: int| 0 <= k < v@.len() ==> (#[trigger] v@[k])
                                < cfm.providers_view().len(),
                            match spec_resolve_preferred(cfm.providers_view(), prefs@, j as int) {
                                Ok(rest) => spec_resolve_preferred(
                                    cfm.providers_view(),
                                    prefs@,
                                    0,
                                ) == Ok::<Seq<int>, int>(usizes(v@) + rest),
                                Err(e) => spec_resolve_preferred(
                                    cfm.providers_view(),
                                    prefs@,
                                    0,
                                ) == Err::<Seq<int>, int>(e),
                            },
                        decreases m - j,
                    {
                        let ghost ps = cfm.providers_view();
                        let ghost vpre = v@;
                        match cfm.provider_position(&prefs[j]) {
                            Some(i) => {
                                v.push(i);
                                proof {
                                    assert(usizes(v@) =~= usizes(vpre) + seq![i as int]);
                                    match spec_resolve_preferred(ps, prefs@, j + 1) {
                                        Ok(rest) => {
                                            assert(spec_resolve_preferred(ps, prefs@, j as int)
                                                == Ok::<Seq<int>, int>(seq![i as int] + rest));
                                            assert(usizes(vpre) + (seq![i as int] + rest)
                                                =~= usizes(v@) + rest);
                                        },
                                        Err(e) => {
                                            assert(spec_resolve_preferred(ps, prefs@, j as int)
                                                == Err::<Seq<int>, int>(e));
                                        },
                                    }
                                }
                            },
                            None => {
                                proof {
                                    assert(spec_resolve_preferred(ps, prefs@, j as int)
                                        == Err::<Seq<int>, int>(j as int));
                                    assert(spec_resolve_preferred(cfm.providers_view(), prefs@, 0)
                                        == Err::<Seq<int>, int>(j as int));
                                    assert(assoc_get(cfm.preferred_view(), "hash"@) == Some(
                                        *prefs,
                                    ));
                                    assert(spec_candidates_for(*cfm, None::<Seq<char>>)
                                        == Err::<Seq<int>, Seq<char>>(prefs@[j as int]@));
                                }
                                return Err(Error::UnknownProvider { name: prefs[j].clone() });
                            },
                        }
                        j = j + 1;
                    }
                    proof {
                        assert(spec_resolve_preferred(cfm.providers_view(), prefs@, m as int)
                            == Ok::<Seq<int>, int>(Seq::empty()));
                        assert(usizes(v@) + Seq::<int>::empty() =~= usizes(v@));
                        assert forall|k: int|
                            0 <= k < usizes(v@).len() implies 0 <= #[trigger] usizes(v@)[k]
                            < cfm.providers_view().len() by {
                            assert(usizes(v@)[k] == v@[k] as int);
                        }
                    }
                    Ok(v)
                },
                None => {
                    proof {
                        crate::assoc::lemma_assoc_get_absent(cfm.preferred_view(), "hash"@);
                    }
                    let n = cfm.providers.len();
                    let mut v: Vec<usize> = Vec::new();
                    let mut i: usize = 0;
                    proof {
                        assert(usizes(v@) + hash_provider_indices(cfm.providers_view(), 0)
                            =~= hash_provider_indices(cfm.providers_view(), 0));
                    }
                    while i < n
                        invariant
                            i <= n,
                            n == cfm.providers_view().len(),
                            forall|k: int| 0 <= k < v@.len() ==> (#[trigger] v@[k])
                                < cfm.providers_view().len(),
                            hash_provider_indices(cfm.providers_view(), 0) == usizes(v@)
                                + hash_provider_indices(cfm.providers_view(), i as int),
                        decreases n - i,
                    {
                        let ghost vpre = v@;
                        proof {
                            assert(cfm.providers_view()[i as int] == cfm.providers@[i as int]);
                        }
                        if find_hash_interface(&cfm.providers[i]).is_some() {
                            v.push(i);
                            proof {
                                assert(spec_has_hash_interface(cfm.providers_view()[i as int]));
                                assert(usizes(v@) =~= usizes(vpre) + seq![i as int]);
                                assert(usizes(vpre) + (seq![i as int] + hash_provider_indices(
                                    cfm.providers_view(),
                                    i + 1,
                                )) =~= usizes(v@) + hash_provider_indices(
                                    cfm.providers_view(),
                                    i + 1,
                                ));
                            }
                        } else {
                            proof {
                                assert(!spec_has_hash_interface(cfm.providers_view()[i as int]));
                            }
                        }
                        i = i + 1;
                    }
                    proof {
                        assert(usizes(v@) + Seq::<int>::empty() =~= usizes(v@));
                        assert forall|k: int|
                            0 <= k < usizes(v@).len() implies 0 <= #[trigger] usizes(v@)[k]
                            < cfm.providers_view().len() by {
                            assert(usizes(v@)[k] == v@[k] as int);
                        }
                    }
                    Ok(v)
                },
            }
        },
    }
}

/// Which candidate decides one dispatch, and how: walking the candidates
/// in order, the first one that lacks the capability, fails hard, or
/// produces a handle settles the outcome; a success without a handle
/// means "algorithm not supported here" and the walk moves on.
pub enum DispatchDecision {
    /// the candidate at this rank never advertised the hash capability
    MissingInterface { at: int },
    /// the candidate at this rank reported a non-zero status
    Internal { at: int },
    /// the candidate at this rank produced a handle
    Created { at: int },
    /// every candidate declined the algorithm
    Exhausted,
}

/// The decision of the candidate walk from rank `at` on.
pub open spec fn spec_dispatch(
    providers: Seq<Provider>,
    candidates: Seq<int>,
    replies: Seq<CreateReply>,
    at: int,
) -> DispatchDecision
    decreases candidates.len() - at,
{
    if at < 0 || at >= candidates.len() {
        DispatchDecision::Exhausted
    } else if !spec_has_hash_interface(providers[candidates[at]]) {
        DispatchDecision::MissingInterface { at }
    } else if replies[at].status != 0 {
        DispatchDecision::Internal { at }
    } else if replies[at].handle is Some {
        DispatchDecision::Created { at }
    } else {
        spec_dispatch(providers, candidates, replies, at + 1)
    }
}

/// Candidates that all hold the capability and all decline — success with
/// no handle — leave the walk empty-handed.
pub proof fn lemma_all_declined_exhausted(
    providers: Seq<Provider>,
    candidates: Seq<int>,
    replies: Seq<CreateReply>,
    at: int,
)
    requires
        0 <= at,
        replies.len() >= candidates.len(),
        forall|k: int|
            0 <= k < candidates.len() ==> 0 <= #[trigger] candidates[k] < providers.len(),
        forall|k: int|
            0 <= k < candidates.len() ==> spec_has_hash_interface(
                providers[#[trigger] candidates[k]],
            ),
        forall|k: int|
            0 <= k < replies.len() ==> (#[trigger] replies[k]).status == 0 && replies[k].handle
                is None,
    ensures
        spec_dispatch(providers, candidates, replies, at) == DispatchDecision::Exhausted,
    decreases candidates.len() - at,
{
    if at < candidates.len() {
        lemma_all_declined_exhausted(providers, candidates, replies, at + 1);
    }
}

impl Hash {
    /// Walks the candidate providers in order for one that creates a
    /// native object for `name`, each provider's `create` outcome given
    /// as the reply of its rank. The first provider without the hash
    /// capability or with a non-zero status ends the walk as an error; a
    /// handle ends it as a live instance; when every candidate declines,
    /// the algorithm is unsupported.
    pub fn try_new(
        cfm: &Confium,
        candidates: &Vec<usize>,
        name: &String,
        replies: &Vec<CreateReply>,
    ) -> (r: Result<Hash, Error>)
        requires
            forall|k: int|
                0 <= k < candidates@.len() ==> (#[trigger] candidates@[k])
                    < cfm.providers_view().len(),
            replies@.len() >= candidates@.len(),
        ensures
            match spec_dispatch(cfm.providers_view(), usizes(candidates@), replies@, 0) {
                DispatchDecision::MissingInterface { at } => {
                    &&& r matches Err(Error::PluginMissingInterface { name: n, ifname: f }) && n@
                        == cfm.providers_view()[candidates@[at] as int].name@ && f@ == "hash"@
                },
                DispatchDecision::Internal { at } => {
                    &&& r matches Err(Error::PluginInternalError { name: n, code: c }) && n@
                        == cfm.providers_view()[candidates@[at] as int].name@ && c
                        == replies@[at].status
                },
                DispatchDecision::Created { at } => {
                    &&& r matches Ok(h) && h.obj == replies@[at].handle.unwrap() && h.name@
                        == name@ && h.lib == cfm.providers_view()[candidates@[at] as int].plugin.library
                        && (interface_index(
                        cfm.providers_view()[candidates@[at] as int].plugin.interfaces@,
                        0,
                    ) matches Some(k) && cfm.providers_view()[candidates@[at] as int].plugin.interfaces@[k]
                        == PluginInterface::Hash(h.interface))
                },
                DispatchDecision::Exhausted => r matches Err(Error::UnsupportedAlgorithm { name: n })
                    && n@ == name@,
            },
    {
        let n = candidates.len();
        let ghost ps = cfm.providers_view();
        let ghost cands = usizes(candidates@);
        let mut i: usize = 0;
        while i < n
            invariant
                i <= n,
                n == candidates@.len(),
                replies@.len() >= candidates@.len(),
                cands == usizes(candidates@),
                ps == cfm.providers_view(),
                forall|k: int|
                    0 <= k < candidates@.len() ==> (#[trigger] candidates@[k])
                        < cfm.providers_view().len(),
                spec_dispatch(ps, cands, replies@, 0) == spec_dispatch(
                    ps,
                    cands,
                    replies@,
                    i as int,
                ),
            decreases n - i,
        {
            let idx = candidates[i];
            let provider = &cfm.providers[idx];
            proof {
                assert(cands[i as int] == idx as int);
                assert(*provider == ps[idx as int]);
            }
            match get_hash_interface(provider) {
                Err(e) => {
                    proof {
                        assert(spec_dispatch(ps, cands, replies@, i as int)
                            == DispatchDecision::MissingInterface { at: i as int });
                    }
                    return Err(e);
                },
                Ok(iface) => {
                    let reply = replies[i];
                    if reply.status != 0 {
                        proof {
                            assert(spec_dispatch(ps, cands, replies@, i as int)
                                == DispatchDecision::Internal { at: i as int });
                        }
                        return Err(
                            Error::PluginInternalError {
                                name: provider.name.clone(),
                                code: reply.status,
                            },
                        );
                    }
                    match reply.handle {
                        Some(h) => {
                            proof {
                                assert(spec_dispatch(ps, cands, replies@, i as int)
                                    == DispatchDecision::Created { at: i as int });
                            }
                            let hi = match iface {
                                PluginInterface::Hash(hi) => *hi,
                            };
                            return Ok(
                                Hash {
                                    obj: h,
                                    name: name.clone(),
                                    lib: provider.plugin.library,
                                    interface: hi,
                                },
                            );
                        },
                        None => {
                            proof {
                                assert(spec_dispatch(ps, cands, replies@, i as int)
                                    == spec_dispatch(ps, cands, replies@, i + 1));
                            }
                        },
                    }
                },
            }
            i = i + 1;
        }
        proof {
            assert(spec_dispatch(ps, cands, replies@, n as int) == DispatchDecision::Exhausted);
        }
        Err(Error::UnsupportedAlgorithm { name: name.clone() })
    }
}

/// A provider addressed by name that exists but never advertised the
/// hash capability decides the dispatch at once: it is the only
/// candidate, and — by the contract of `Hash::try_new` — the outcome is
/// `PluginMissingInterface`, never a fallback to another provider.
pub proof fn lemma_named_provider_without_hash(
    cfm: Confium,
    pn: Seq<char>,
    replies: Seq<CreateReply>,
)
    requires
        (provider_index(cfm.providers_view(), pn, 0) is Some),
        !spec_has_hash_interface(
            cfm.providers_view()[provider_index(cfm.providers_view(), pn, 0).unwrap()],
        ),
        replies.len() >= 1,
    ensures
        (spec_candidates_for(cfm, Some(pn)) matches Ok(list) && spec_dispatch(
            cfm.providers_view(),
            list,
            replies,
            0,
        ) == (DispatchDecision::MissingInterface { at: 0 })),
{
    let i = provider_index(cfm.providers_view(), pn, 0).unwrap();
    let list = seq![i];
    assert(list[0] == i);
}

/// There are no more capable providers than providers.
proof fn lemma_hash_indices_len(providers: Seq<Provider>, at: int)
    requires
        0 <= at <= providers.len(),
    ensures
        hash_provider_indices(providers, at).len() <= providers.len() - at,
    decreases providers.len() - at,
{
    if at < providers.len() {
        lemma_hash_indices_len(providers, at + 1);
    }
}

/// A fully resolved ranking has one position per rank.
proof fn lemma_resolve_preferred_len(providers: Seq<Provider>, prefs: Seq<String>, at: int)
    requires
        0 <= at <= prefs.len(),
    ensures
        spec_resolve_preferred(providers, prefs, at) matches Ok(list) ==> list.len() == prefs.len()
            - at,
    decreases prefs.len() - at,
{
    if at < prefs.len() {
        lemma_resolve_preferred_len(providers, prefs, at + 1);
    }
}

/// A decision that names a rank names one of the candidates.
proof fn lemma_dispatch_at_in_range(
    providers: Seq<Provider>,
    candidates: Seq<int>,
    replies: Seq<CreateReply>,
    at: int,
)
    requires
        0 <= at,
    ensures
        match spec_dispatch(providers, candidates, replies, at) {
            DispatchDecision::MissingInterface { at: a } => at <= a < candidates.len(),
            DispatchDecision::Internal { at: a } => at <= a < candidates.len(),
            DispatchDecision::Created { at: a } => at <= a < candidates.len(),
            DispatchDecision::Exhausted => true,
        },
    decreases candidates.len() - at,
{
    if at < candidates.len() {
        lemma_dispatch_at_in_range(providers, candidates, replies, at + 1);
    }
}

impl Hash {
    /// Creation: selects the candidate providers by precedence —
    /// the explicitly named provider, else the preferred ranking for
    /// `hash`, else every provider advertising `hash` in load order —
    /// and walks them for one that creates a native object for `name`.
    /// One `create` reply per candidate rank is taken from `replies`.
    pub fn new(
        cfm: &Confium,
        name: &String,
        provider_name: Option<&String>,
        replies: &Vec<CreateReply>,
    ) -> (r: Result<Hash, Error>)
        requires
            replies@.len() >= cfm.providers_view().len(),
            match assoc_get(cfm.preferred_view(), "hash"@) {
                Some(p) => replies@.len() >= p@.len(),
                None => true,
            },
            provider_name is Some ==> replies@.len() >= 1,
        ensures
            match spec_candidates_for(
                *cfm,
                match provider_name {
                    Some(pn) => Some(pn@),
                    None => None,
                },
            ) {
                Err(nm) => r matches Err(Error::UnknownProvider { name: n }) && n@ == nm,
                Ok(list) => match spec_dispatch(cfm.providers_view(), list, replies@, 0) {
                    DispatchDecision::MissingInterface { at } => {
                        &&& r matches Err(Error::PluginMissingInterface { name: n, ifname: f })
                            && n@ == cfm.providers_view()[list[at]].name@ && f@ == "hash"@
                    },
                    DispatchDecision::Internal { at } => {
                        &&& r matches Err(Error::PluginInternalError { name: n, code: c }) && n@
                            == cfm.providers_view()[list[at]].name@ && c == replies@[at].status
                    },
                    DispatchDecision::Created { at } => {
                        &&& r matches Ok(h) && h.obj == replies@[at].handle.unwrap() && h.name@
                            == name@ && h.lib == cfm.providers_view()[list[at]].plugin.library
                            && (interface_index(
                            cfm.providers_view()[list[at]].plugin.interfaces@,
                            0,
                        ) matches Some(k) && cfm.providers_view()[list[at]].plugin.interfaces@[k]
                            == PluginInterface::Hash(h.interface))
                    },
                    DispatchDecision::Exhausted => r matches Err(
                        Error::UnsupportedAlgorithm { name: n },
                    ) && n@ == name@,
                },
            },
    {
        let candidates = match resolve_candidates(cfm, provider_name) {
            Ok(v) => v,
            Err(e) => {
                return Err(e);
            },
        };
        proof {
            match provider_name {
                Some(pn) => {},
                None => {
                    match assoc_get(cfm.preferred_view(), "hash"@) {
                        Some(p) => {
                            lemma_resolve_preferred_len(cfm.providers_view(), p@, 0);
                        },
                        None => {
                            lemma_hash_indices_len(cfm.providers_view(), 0);
                        },
                    }
                },
            }
            assert(candidates@.len() <= replies@.len());
        }
        let r = Hash::try_new(cfm, &candidates, name, replies);
        proof {
            let cands = usizes(candidates@);
            lemma_dispatch_at_in_range(cfm.providers_view(), cands, replies@, 0);
            match spec_dispatch(cfm.providers_view(), cands, replies@, 0) {
                DispatchDecision::MissingInterface { at } => {
                    assert(cands[at] == candidates@[at] as int);
                },
                DispatchDecision::Internal { at } => {
                    assert(cands[at] == candidates@[at] as int);
                },
                DispatchDecision::Created { at } => {
                    assert(cands[at] == candidates@[at] as int);
                },
                DispatchDecision::Exhausted => {},
            }
        }
        r
    }

    /// Feeds data to the native object; the plugin's status reply decides
    /// the outcome. A non-zero status is the plugin's own failure,
    /// surfaced with its raw code.
    pub fn update(&mut self, status: u32) -> (r: Result<(), Error>)
        ensures
            *final(self) == *old(self),
            match r {
                Ok(u) => status == 0,
                Err(e) => {
                    &&& status != 0
                    &&& e matches Error::PluginInternalError { name: n, code: c } && n@
                        == Seq::<char>::empty() && c == status
                },
            },
    {
        if status == 0 {
            Ok(())
        } else {
            Err(Error::PluginInternalError { name: String::new(), code: status })
        }
    }

    /// Resets the native object; the plugin's status reply decides the
    /// outcome.
    pub fn reset(&mut self, status: u32) -> (r: Result<(), Error>)
        ensures
            *final(self) == *old(self),
            match r {
                Ok(u) => status == 0,
                Err(e) => {
                    &&& status != 0
                    &&& e matches Error::PluginInternalError { name: n, code: c } && n@
                        == Seq::<char>::empty() && c == status
                },
            },
    {
        if status == 0 {
            Ok(())
        } else {
            Err(Error::PluginInternalError { name: String::new(), code: status })
        }
    }

    /// Forks the instance: the plugin clones the native object and hands
    /// an independently owned handle back. The fork carries the same
    /// algorithm name and shares the same library and interface; only the
    /// native handle is its own.
    pub fn clone(&self, status: u32, new_handle: Option<u64>) -> (r: Result<Hash, Error>)
        ensures
            match r {
                Ok(h) => {
                    &&& status == 0
                    &&& new_handle matches Some(nh) && h.obj == nh
                    &&& h.name@ == self.name@
                    &&& h.lib == self.lib
                    &&& h.interface == self.interface
                },
                Err(e) => {
                    &&& status != 0 || new_handle is None
                    &&& e matches Error::PluginInternalError { name: n, code: c } && n@
                        == Seq::<char>::empty() && c == status
                },
            },
    {
        if status != 0 {
            return Err(Error::PluginInternalError { name: String::new(), code: status });
        }
        match new_handle {
            Some(nh) => Ok(
                Hash { obj: nh, name: self.name.clone(), lib: self.lib, interface: self.interface },
            ),
            None => Err(Error::PluginInternalError { name: String::new(), code: status }),
        }
    }

    /// Completes the digest: the plugin fills the output buffer and the
    /// status reply decides whether those bytes come back.
    pub fn finalize(&mut self, status: u32, output: Vec<u8>) -> (r: Result<Vec<u8>, Error>)
        ensures
            *final(self) == *old(self),
            match r {
                Ok(v) => status == 0 && v@ == output@,
                Err(e) => {
                    &&& status != 0
                    &&& e matches Error::PluginInternalError { name: n, code: c } && n@
                        == Seq::<char>::empty() && c == status
                },
            },
    {
        if status == 0 {
            Ok(output)
        } else {
            Err(Error::PluginInternalError { name: String::new(), code: status })
        }
    }

    /// The digest length the plugin reports, or its failure.
    pub fn output_size(&self, status: u32, size: u32) -> (r: Result<u32, Error>)
        ensures
            match r {
                Ok(v) => status == 0 && v == size,
                Err(e) => {
                    &&& status != 0
                    &&& e matches Error::PluginInternalError { name: n, code: c } && n@
                        == Seq::<char>::empty() && c == status
                },
            },
    {
        if status == 0 {
            Ok(size)
        } else {
            Err(Error::PluginInternalError { name: String::new(), code: status })
        }
    }

    /// The block length the plugin reports, or its failure.
    pub fn block_size(&self, status: u32, size: u32) -> (r: Result<u32, Error>)
        ensures
            match r {
                Ok(v) => status == 0 && v == size,
                Err(e) => {
                    &&& status != 0
                    &&& e matches Error::PluginInternalError { name: n, code: c } && n@
                        == Seq::<char>::empty() && c == status
                },
            },
    {
        if status == 0 {
            Ok(size)
        } else {
            Err(Error::PluginInternalError { name: String::new(), code: status })
        }
    }

    /// One-shot digesting: create, update, finalize, in that order, on a
    /// fresh instance of the fallback candidate walk — its contract is
    /// exactly the composition of the three.
    pub fn digest(
        cfm: &Confium,
        name: &String,
        replies: &Vec<CreateReply>,
        update_status: u32,
        finalize_status: u32,
        finalize_output: Vec<u8>,
    ) -> (r: Result<Vec<u8>, Error>)
        requires
            replies@.len() >= cfm.providers_view().len(),
            match assoc_get(cfm.preferred_view(), "hash"@) {
                Some(p) => replies@.len() >= p@.len(),
                None => true,
            },
        ensures
            match spec_candidates_for(*cfm, None::<Seq<char>>) {
                Err(nm) => r matches Err(Error::UnknownProvider { name: n }) && n@ == nm,
                Ok(list) => match spec_dispatch(cfm.providers_view(), list, replies@, 0) {
                    DispatchDecision::MissingInterface { at } => {
                        &&& r matches Err(Error::PluginMissingInterface { name: n, ifname: f })
                            && n@ == cfm.providers_view()[list[at]].name@ && f@ == "hash"@
                    },
                    DispatchDecision::Internal { at } => {
                        &&& r matches Err(Error::PluginInternalError { name: n, code: c }) && n@
                            == cfm.providers_view()[list[at]].name@ && c == replies@[at].status
                    },
                    DispatchDecision::Created { at } => {
                        if update_status != 0 {
                            r matches Err(Error::PluginInternalError { name: n, code: c }) && n@
                                == Seq::<char>::empty() && c == update_status
                        } else if finalize_status != 0 {
                            r matches Err(Error::PluginInternalError { name: n, code: c }) && n@
                                == Seq::<char>::empty() && c == finalize_status
                        } else {
                            r matches Ok(v) && v@ == finalize_output@
                        }
                    },
                    DispatchDecision::Exhausted => r matches Err(
                        Error::UnsupportedAlgorithm { name: n },
                    ) && n@ == name@,
                },
            },
    {
        let mut hash = match Hash::new(cfm, name, None, replies) {
            Ok(h) => h,
            Err(e) => {
                return Err(e);
            },
        };
        match hash.update(update_status) {
            Ok(u) => u,
            Err(e) => {
                return Err(e);
            },
        };
        hash.finalize(finalize_status, finalize_output)
    }
}

/// The output buffer the host hands to the plugin's `finalize`: sized by
/// what `output_size` reported, zero-filled.
pub fn finalize_buffer(size: u32) -> (r: Vec<u8>)
    ensures
        r@.len() == size,
        forall|i: int| 0 <= i < r@.len() ==> r@[i] == 0,
{
    let mut out: Vec<u8> = Vec::new();
    let mut i: u32 = 0;
    while i < size
        invariant
            i <= size,
            out@.len() == i,
            forall|j: int| 0 <= j < out@.len() ==> out@[j] == 0,
        decreases size - i,
    {
        out.push(0);
        i = i + 1;
    }
    out
}

/// Copies a finished digest into a caller-supplied buffer: when the buffer
/// is too small the copy fails with `InsufficientBuffer` and writes
/// nothing; otherwise the digest fills the front of the buffer and the
/// rest is left alone.
pub fn write_digest(digest: &Vec<u8>, dest: &mut Vec<u8>) -> (r: Result<(), Error>)
    ensures
        match r {
            Ok(u) => {
                &&& digest@.len() <= old(dest)@.len()
                &&& final(dest)@ == digest@ + old(dest)@.skip(digest@.len() as int)
            },
            Err(e) => {
                &&& digest@.len() > old(dest)@.len()
                &&& e is InsufficientBuffer
                &&& final(dest)@ == old(dest)@
            },
        },
{
    let n = digest.len();
    if dest.len() < n {
        return Err(Error::InsufficientBuffer);
    }
    let ghost pre = dest@;
    let mut i: usize = 0;
    while i < n
        invariant
            i <= n,
            n == digest@.len(),
            n <= dest@.len(),
            dest@.len() == pre.len(),
            forall|j: int| 0 <= j < i ==> dest@[j] == digest@[j],
            forall|j: int| i <= j < dest@.len() ==> dest@[j] == pre[j],
        decreases n - i,
    {
        let b = digest[i];
        dest.set(i, b);
        i = i + 1;
    }
    proof {
        assert(dest@ =~= digest@ + pre.skip(n as int));
    }
    Ok(())
}

} // verus!
