//! A host framework that registers cryptographic-algorithm providers loaded
//! from dynamically-loadable plugins and dispatches hashing requests among
//! them through a version-negotiated native interface.
//!
//! This crate is the verified core of the host: the capability-advertisement
//! codec, the library-path candidates, the version negotiation, the provider
//! registry and the hash dispatch are all ordinary functions over plain
//! values, each with a contract. Everything a plugin does — opening the
//! dynamic library, resolving symbols, running an entry point — happens on
//! the other side of the native boundary; the embedding layer performs those
//! calls and hands their outcomes to this crate as values, as the
//! `LoadReplies` of `Confium::load_plugin` or the replies of the functions
//! of `hash`.

use vstd::prelude::*;

pub mod assoc;
pub mod error;
pub mod hash;
pub mod options;
pub mod paths;
pub mod plugin;
pub mod protocol;
pub mod utf8;

use crate::assoc::{assoc_get, lemma_assoc_get_absent, lemma_assoc_get_found,
    lemma_assoc_get_keeps_others};
use crate::error::Error;
use crate::plugin::{bind_hash_interface, check_init_status, check_interface_version,
    plan_hash_bind, spec_hash_bind_version, HashInterface, HashInterfaceV0, PluginInterface,
    PluginV0, PluginVTable, SymbolsReply};
use crate::protocol::{advert_caps, advert_names_valid, decode_capabilities};

verus! {

/// A loaded plugin: the handle of its mapped dynamic library, its bound
/// vtable, and the capability interfaces that binding produced. The
/// embedding layer keeps the library mapped for as long as any value
/// carrying its handle is alive.
#[derive(Debug, Clone)]
pub struct Plugin {
    pub library: u64,
    pub vtable: PluginVTable,
    pub interfaces: Vec<PluginInterface>,
}

/// A named, loaded plugin registered with the host.
#[derive(Debug, Clone)]
pub struct Provider {
    pub name: String,
    pub plugin: Plugin,
}

/// The first position at or after `at` of the provider named `name`.
pub open spec fn provider_index(providers: Seq<Provider>, name: Seq<char>, at: int) -> Option<int>
    decreases providers.len() - at,
{
    if at < 0 || at >= providers.len() {
        None
    } else if providers[at].name@ == name {
        Some(at)
    } else {
        provider_index(providers, name, at + 1)
    }
}

/// The search for a provider skips any range of non-matching entries.
pub proof fn lemma_provider_index_skip(providers: Seq<Provider>, name: Seq<char>, at: int, i: int)
    requires
        0 <= at <= i <= providers.len(),
        forall|j: int| at <= j < i ==> providers[j].name@ != name,
    ensures
        provider_index(providers, name, at) == provider_index(providers, name, i),
    decreases i - at,
{
    if at < i {
        lemma_provider_index_skip(providers, name, at + 1, i);
    }
}

/// A search that comes up empty means no provider from `at` on carries the
/// name.
pub proof fn lemma_provider_index_none(providers: Seq<Provider>, name: Seq<char>, at: int)
    requires
        0 <= at <= providers.len(),
        provider_index(providers, name, at) is None,
    ensures
        forall|j: int| at <= j < providers.len() ==> providers[j].name@ != name,
    decreases providers.len() - at,
{
    if at < providers.len() {
        lemma_provider_index_none(providers, name, at + 1);
    }
}

/// What the embedding layer's plugin calls answered during one load, in
/// the order the loader makes them: whether any candidate path opened (and
/// under which library handle), what `interface-version` returned or which
/// symbol did not resolve, how binding the three generation-0 entry points
/// went, what `initialize` returned, the bytes `query-interfaces`
/// produced, and how binding the hash entry points went.
#[derive(Debug)]
pub struct LoadReplies {
    pub library: Option<u64>,
    pub interface_version: Result<u32, String>,
    pub core_symbols: SymbolsReply,
    pub init_status: u32,
    pub advertisement: Vec<u8>,
    pub hash_symbols: SymbolsReply,
}

/// Which step decides the fate of a load: the steps are tried in order and
/// the first to fail wins.
pub enum LoadOutcome {
    /// the name is already registered
    Collision,
    /// no candidate path opened
    OpenFailed,
    /// `interface-version` did not resolve
    VersionSymbolMissing,
    /// the plugin's ABI generation is not `0`
    VersionUnsupported { version: u32 },
    /// a generation-0 entry point did not resolve
    CoreSymbolMissing,
    /// `initialize` returned a non-zero status
    InitFailed { code: u32 },
    /// the capability advertisement holds a name that is not valid text
    BadAdvertisement,
    /// the selected hash version's entry points did not all resolve
    HashSymbolMissing { version: u8 },
    /// the provider is registered, with the hash version bound, if any
    Loaded { version: Option<u8> },
}

/// The fate the loader assigns to a load against registry state `pre`,
/// given the plugin's replies.
pub open spec fn spec_load_outcome(
    pre: Seq<Provider>,
    name: Seq<char>,
    replies: LoadReplies,
) -> LoadOutcome {
    if provider_index(pre, name, 0) is Some {
        LoadOutcome::Collision
    } else if replies.library is None {
        LoadOutcome::OpenFailed
    } else if replies.interface_version is Err {
        LoadOutcome::VersionSymbolMissing
    } else if replies.interface_version matches Ok(v) && v != 0 {
        LoadOutcome::VersionUnsupported { version: replies.interface_version.unwrap() }
    } else if replies.core_symbols is Missing {
        LoadOutcome::CoreSymbolMissing
    } else if replies.init_status != 0 {
        LoadOutcome::InitFailed { code: replies.init_status }
    } else if !advert_names_valid(replies.advertisement@) {
        LoadOutcome::BadAdvertisement
    } else {
        match spec_hash_bind_version(advert_caps(replies.advertisement@)) {
            None => LoadOutcome::Loaded { version: None },
            Some(v) => {
                if replies.hash_symbols is Missing {
                    LoadOutcome::HashSymbolMissing { version: v }
                } else {
                    LoadOutcome::Loaded { version: Some(v) }
                }
            },
        }
    }
}

/// Loading a second provider under a name the registry already holds
/// fails as a name collision, whatever the plugin would have answered —
/// and, by the contract of `Confium::load_plugin`, leaves the registry
/// exactly as it was.
pub proof fn lemma_duplicate_name_collides(
    providers: Seq<Provider>,
    name: Seq<char>,
    replies: LoadReplies,
)
    requires
        (exists|i: int| 0 <= i < providers.len() && (#[trigger] providers[i]).name@ == name),
    ensures
        spec_load_outcome(providers, name, replies) == LoadOutcome::Collision,
{
    if provider_index(providers, name, 0) is None {
        lemma_provider_index_none(providers, name, 0);
        let i = choose|i: int|
            0 <= i < providers.len() && (#[trigger] providers[i]).name@ == name;
        assert(providers[i].name@ != name);
    }
}

/// A plugin whose `interface-version` answers anything but `0` is
/// rejected as version-unsupported — and, by the contract of
/// `Confium::load_plugin`, no provider is added.
pub proof fn lemma_unknown_generation_rejected(
    providers: Seq<Provider>,
    name: Seq<char>,
    replies: LoadReplies,
)
    requires
        (provider_index(providers, name, 0) is None),
        (replies.library is Some),
        (replies.interface_version matches Ok(v) && v != 0),
    ensures
        spec_load_outcome(providers, name, replies) == (LoadOutcome::VersionUnsupported {
            version: replies.interface_version.unwrap(),
        }),
{
}

/// Whether `interfaces` is exactly the one hash interface bound from this
/// reply.
pub open spec fn hash_interface_bound(
    interfaces: Seq<PluginInterface>,
    reply: SymbolsReply,
) -> bool {
    reply matches SymbolsReply::Bound { handle } && interfaces == seq![
        PluginInterface::Hash(HashInterface::V0(HashInterfaceV0 { vtable: handle })),
    ]
}

/// The host context: the ordered providers — load order is the fallback
/// order of dispatch — and the operator-configured preferred-provider
/// ranking per capability name.
pub struct Confium {
    pub(crate) providers: Vec<Provider>,
    pub(crate) preferred_providers: Vec<(String, Vec<String>)>,
}

impl Confium {
    /// The registered providers, in load order.
    pub closed spec fn providers_view(self) -> Seq<Provider> {
        self.providers@
    }

    /// The preferred-provider rankings, one entry per capability name.
    pub closed spec fn preferred_view(self) -> Seq<(String, Vec<String>)> {
        self.preferred_providers@
    }

    /// The ranking configured for a capability, if any.
    pub open spec fn spec_preferred(self, capability: Seq<char>) -> Option<Vec<String>> {
        assoc_get(self.preferred_view(), capability)
    }

    /// Whether a provider of this name is registered.
    pub open spec fn has_provider(self, name: Seq<char>) -> bool {
        provider_index(self.providers_view(), name, 0) is Some
    }

    /// Well-formed: no two providers share a name, and no two rankings
    /// serve the same capability.
    pub open spec fn wf(self) -> bool {
        &&& forall|i: int, j: int|
            0 <= i < j < self.providers_view().len() ==> self.providers_view()[i].name@
                != self.providers_view()[j].name@
        &&& forall|i: int, j: int|
            0 <= i < j < self.preferred_view().len() ==> self.preferred_view()[i].0@
                != self.preferred_view()[j].0@
    }

    /// An empty registry.
    pub fn new() -> (r: Confium)
        ensures
            r.wf(),
            r.providers_view() == Seq::<Provider>::empty(),
            r.preferred_view() == Seq::<(String, Vec<String>)>::empty(),
    {
        let r = Confium { providers: Vec::new(), preferred_providers: Vec::new() };
        proof {
            assert(r.providers_view() =~= Seq::<Provider>::empty());
            assert(r.preferred_view() =~= Seq::<(String, Vec<String>)>::empty());
        }
        r
    }

    /// How many providers are registered.
    pub fn provider_count(&self) -> (n: usize)
        ensures
            n == self.providers_view().len(),
    {
        self.providers.len()
    }

    /// The provider at position `i` of the load order, if any.
    pub fn provider_at(&self, i: usize) -> (r: Option<&Provider>)
        ensures
            match r {
                Some(p) => i < self.providers_view().len() && *p == self.providers_view()[i as int],
                None => i >= self.providers_view().len(),
            },
    {
        if i < self.providers.len() {
            Some(&self.providers[i])
        } else {
            None
        }
    }

    /// The position of the provider named `name`, if any.
    pub fn provider_position(&self, name: &String) -> (r: Option<usize>)
        ensures
            match r {
                Some(i) => {
                    &&& provider_index(self.providers_view(), name@, 0) == Some(i as int)
                    &&& i < self.providers_view().len()
                    &&& self.providers_view()[i as int].name@ == name@
                },
                None => provider_index(self.providers_view(), name@, 0) is None,
            },
    {
        let n = self.providers.len();
        let mut i: usize = 0;
        while i < n
            invariant
                i <= n,
                n == self.providers_view().len(),
                forall|j: int| 0 <= j < i ==> self.providers_view()[j].name@ != name@,
            decreases n - i,
        {
            if self.providers[i].name == *name {
                proof {
                    lemma_provider_index_skip(self.providers_view(), name@, 0, i as int);
                }
                return Some(i);
            }
            i = i + 1;
        }
        proof {
            lemma_provider_index_skip(self.providers_view(), name@, 0, n as int);
        }
        None
    }

    /// The position of the ranking for `capability`, if any.
    pub(crate) fn preferred_position(&self, capability: &String) -> (r: Option<usize>)
        ensures
            match r {
                Some(i) => {
                    &&& i < self.preferred_view().len()
                    &&& self.preferred_view()[i as int].0@ == capability@
                    &&& forall|j: int|
                        0 <= j < i ==> self.preferred_view()[j].0@ != capability@
                },
                None => forall|j: int|
                    0 <= j < self.preferred_view().len() ==> self.preferred_view()[j].0@
                        != capability@,
            },
    {
        let n = self.preferred_providers.len();
        let mut i: usize = 0;
        while i < n
            invariant
                i <= n,
                n == self.preferred_providers@.len(),
                forall|j: int| 0 <= j < i ==> self.preferred_providers@[j].0@ != capability@,
            decreases n - i,
        {
            if self.preferred_providers[i].0 == *capability {
                return Some(i);
            }
            i = i + 1;
        }
        None
    }

    /// Configures the ranking consulted by hash dispatch when no provider
    /// is named explicitly: the capability's entry is replaced or added;
    /// nothing else changes.
    pub fn set_preferred_providers(&mut self, capability: String, providers: Vec<String>)
        requires
            old(self).wf(),
        ensures
            final(self).wf(),
            final(self).providers_view() == old(self).providers_view(),
            final(self).spec_preferred(capability@) == Some(providers),
            forall|c: Seq<char>|
                c != capability@ ==> final(self).spec_preferred(c) == old(self).spec_preferred(c),
    {
        let ghost pre = self.preferred_providers@;
        proof {
            // ties the view functions to the fields they read, so that
            // the quantifiers of `wf` carry across the update below
            assert(self.preferred_view() == self.preferred_providers@);
            assert(self.providers_view() == self.providers@);
        }
        match self.preferred_position(&capability) {
            Some(i) => {
                proof {
                    lemma_assoc_get_found(pre, capability@, i as int);
                }
                self.preferred_providers[i].1 = providers;
                proof {
                    let post = self.preferred_providers@;
                    lemma_assoc_get_found(post, capability@, i as int);
                    assert forall|c: Seq<char>| c != capability@ implies assoc_get(post, c)
                        == assoc_get(pre, c) by {
                        lemma_assoc_get_keeps_others(pre, post, c);
                    }
                    assert forall|a: int, b: int|
                        0 <= a < b < post.len() implies post[a].0@ != post[b].0@ by {
                        assert(pre[a].0@ != pre[b].0@);
                        assert(post[a].0 == pre[a].0);
                        assert(post[b].0 == pre[b].0);
                    }
                }
            },
            None => {
                proof {
                    lemma_assoc_get_absent(pre, capability@);
                }
                self.preferred_providers.push((capability, providers));
                proof {
                    let post = self.preferred_providers@;
                    lemma_assoc_get_found(post, post[post.len() - 1].0@, post.len() - 1);
                    assert forall|c: Seq<char>| c != post[post.len() - 1].0@ implies assoc_get(
                        post,
                        c,
                    ) == assoc_get(pre, c) by {
                        lemma_assoc_get_keeps_others(pre, post, c);
                    }
                    assert forall|a: int, b: int|
                        0 <= a < b < post.len() implies post[a].0@ != post[b].0@ by {
                        if b < pre.len() {
                            assert(pre[a].0@ != pre[b].0@);
                            assert(post[a] == pre[a]);
                            assert(post[b] == pre[b]);
                        } else {
                            assert(post[a] == pre[a]);
                            assert(pre[a].0@ != capability@);
                        }
                    }
                }
            },
        }
    }

    /// Loads a plugin as a named provider, the embedding layer's call
    /// outcomes given as `replies`. Fail-fast: the first step to fail is
    /// the error, and a failed load leaves the registry unchanged. On
    /// success the provider is appended, its hash capability bound at the
    /// negotiated version if one was advertised.
    pub fn load_plugin(&mut self, name: String, replies: LoadReplies) -> (r: Result<(), Error>)
        requires
            old(self).wf(),
        ensures
            final(self).wf(),
            final(self).preferred_view() == old(self).preferred_view(),
            r is Err ==> final(self).providers_view() == old(self).providers_view(),
            match spec_load_outcome(old(self).providers_view(), name@, replies) {
                LoadOutcome::Collision => r matches Err(Error::PluginNameCollision { name: n })
                    && n@ == name@,
                LoadOutcome::OpenFailed => r matches Err(Error::PluginLoadFailed { name: n })
                    && n@ == name@,
                LoadOutcome::VersionSymbolMissing => {
                    &&& r matches Err(Error::PluginSymbolError { name: n, symbol: s }) && n@
                        == name@ && (replies.interface_version matches Err(ms) && s@ == ms@)
                },
                LoadOutcome::VersionUnsupported { .. } => r matches Err(
                    Error::PluginInterfaceVersionUnsupported { name: n },
                ) && n@ == name@,
                LoadOutcome::CoreSymbolMissing => {
                    &&& r matches Err(Error::PluginSymbolError { name: n, symbol: s }) && n@
                        == name@ && (replies.core_symbols matches SymbolsReply::Missing {
                        symbol: ms,
                    } && s@ == ms@)
                },
                LoadOutcome::InitFailed { code } => r matches Err(
                    Error::PluginInternalError { name: n, code: c },
                ) && n@ == name@ && c == code,
                LoadOutcome::BadAdvertisement => r matches Err(e) && e is InvalidUTF8,
                LoadOutcome::HashSymbolMissing { .. } => {
                    &&& r matches Err(Error::PluginSymbolError { name: n, symbol: s }) && n@
                        == name@ && (replies.hash_symbols matches SymbolsReply::Missing {
                        symbol: ms,
                    } && s@ == ms@)
                },
                LoadOutcome::Loaded { version } => {
                    &&& r is Ok
                    &&& final(self).providers_view().drop_last() == old(self).providers_view()
                    &&& final(self).providers_view().len() == old(self).providers_view().len() + 1
                    &&& final(self).providers_view().last().name@ == name@
                    &&& final(self).providers_view().last().plugin.library
                        == replies.library.unwrap()
                    &&& replies.core_symbols matches SymbolsReply::Bound { handle }
                        && final(self).providers_view().last().plugin.vtable == PluginVTable::V0(
                        PluginV0 { vtable: handle },
                    )
                    &&& version is None
                        ==> final(self).providers_view().last().plugin.interfaces@
                        == Seq::<PluginInterface>::empty()
                    &&& version is Some ==> hash_interface_bound(
                        final(self).providers_view().last().plugin.interfaces@,
                        replies.hash_symbols,
                    )
                },
            },
    {
        let ghost pre = self.providers_view();
        // step 1: reject a duplicate provider name
        if self.provider_position(&name).is_some() {
            return Err(Error::PluginNameCollision { name });
        }
        // step 2: the embedding layer tried the candidate paths in order
        let library = match replies.library {
            Some(lib) => lib,
            None => {
                return Err(Error::PluginLoadFailed { name });
            },
        };
        // step 3: the mandatory `interface-version` entry point
        let version = match replies.interface_version {
            Ok(v) => v,
            Err(symbol) => {
                return Err(Error::PluginSymbolError { name, symbol });
            },
        };
        match check_interface_version(&name, version) {
            Ok(u) => u,
            Err(e) => {
                return Err(e);
            },
        };
        // step 4, generation 0: the three required entry points, then
        // `initialize`
        let core_handle = match replies.core_symbols {
            SymbolsReply::Bound { handle } => handle,
            SymbolsReply::Missing { symbol } => {
                return Err(Error::PluginSymbolError { name, symbol });
            },
        };
        match check_init_status(&name, replies.init_status) {
            Ok(u) => u,
            Err(e) => {
                return Err(e);
            },
        };
        // step 5: decode the advertisement and bind the negotiated hash
        // version; the embedding layer finalizes the plugin when this
        // fails, so that no initialized plugin is left unregistered
        let caps = match decode_capabilities(&replies.advertisement) {
            Ok(caps) => caps,
            Err(e) => {
                return Err(e);
            },
        };
        let mut interfaces: Vec<PluginInterface> = Vec::new();
        match plan_hash_bind(&caps) {
            None => {},
            Some(hv) => {
                proof {
                    crate::plugin::lemma_hash_bind_version_supported(
                        protocol::caps_view(caps@),
                    );
                }
                match bind_hash_interface(&name, hv, replies.hash_symbols) {
                    Ok(iface) => {
                        interfaces.push(iface);
                        proof {
                            assert(interfaces@ =~= seq![iface]);
                        }
                    },
                    Err(e) => {
                        return Err(e);
                    },
                }
            },
        };
        // step 6: append the provider
        let plugin = Plugin {
            library,
            vtable: PluginVTable::V0(PluginV0 { vtable: core_handle }),
            interfaces,
        };
        self.providers.push(Provider { name, plugin });
        proof {
            let post = self.providers_view();
            assert(post.drop_last() =~= pre);
            lemma_provider_index_none(pre, post.last().name@, 0);
            assert forall|a: int, b: int|
                0 <= a < b < post.len() implies post[a].name@ != post[b].name@ by {
                assert(post[a] == pre[a]);
                if b < pre.len() {
                    assert(pre[a].name@ != pre[b].name@);
                    assert(post[b] == pre[b]);
                }
            }
            assert(self.preferred_view() == old(self).preferred_view());
            assert forall|a: int, b: int|
                0 <= a < b < self.preferred_view().len() implies self.preferred_view()[a].0@
                != self.preferred_view()[b].0@ by {
                assert(old(self).preferred_view()[a].0@ != old(self).preferred_view()[b].0@);
            }
        }
        Ok(())
    }

    /// Tears the registry down: every provider is handed back exactly
    /// once, in load order, for the embedding layer to finalize; the
    /// registry is left empty.
    pub fn teardown(&mut self) -> (r: Vec<Provider>)
        requires
            old(self).wf(),
        ensures
            final(self).wf(),
            final(self).providers_view() == Seq::<Provider>::empty(),
            final(self).preferred_view() == old(self).preferred_view(),
            r@ == old(self).providers_view(),
    {
        let mut out: Vec<Provider> = Vec::new();
        std::mem::swap(&mut out, &mut self.providers);
        proof {
            assert(self.providers_view() =~= Seq::<Provider>::empty());
            assert(self.preferred_view() == old(self).preferred_view());
            assert forall|a: int, b: int|
                0 <= a < b < self.preferred_view().len() implies self.preferred_view()[a].0@
                != self.preferred_view()[b].0@ by {
                assert(old(self).preferred_view()[a].0@ != old(self).preferred_view()[b].0@);
            }
        }
        out
    }
}

/// The version string of this library.
pub fn version_string() -> (r: &'static str)
    ensures
        r@ == "0.1.0"@,
{
    "0.1.0"
}

/// Which value component `n` of the version string holds.
pub open spec fn spec_version_component(n: int) -> u32 {
    if n == 1 {
        1
    } else {
        0
    }
}

/// Component `n` of the version string: major, minor, patch. Every
/// component of this version string is a single digit, so each sits at
/// every other character position.
pub fn cfm_version_component(n: usize) -> (r: u32)
    requires
        n < 3,
    ensures
        r == spec_version_component(n as int),
{
    let s = version_string();
    proof {
        reveal_strlit("0.1.0");
    }
    let c = s.get_char(2 * n);
    (c as u32) - 48
}

} // verus!
