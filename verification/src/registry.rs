use vstd::prelude::*;

use crate::collections::KeyedSet;
use crate::package::PackageName;
use crate::request::{Request, RequestView};
use crate::step::{Effect, EffectView};

verus! {

/// What was already asked for: the packages whose versions are fetched, by their names, and the
/// distributions whose metadata is fetched, by their identifiers.
pub struct Registry {
    packages: KeyedSet<PackageName>,
    distributions: KeyedSet<String>,
}

/// What a [`Registry`] holds.
#[verifier::ext_equal]
pub struct RegistryView {
    pub packages: Set<Seq<char>>,
    pub distributions: Set<Seq<char>>,
}

impl View for Registry {
    type V = RegistryView;

    closed spec fn view(&self) -> RegistryView {
        RegistryView { packages: self.packages@, distributions: self.distributions@ }
    }
}

impl RegistryView {
    /// The request that an effect leads to: what is registered is not asked for again.
    pub open spec fn request(self, effect: EffectView) -> Option<RequestView> {
        match effect {
            EffectView::Send(request) => Some(request),
            EffectView::FetchVersions(name) => if self.packages.contains(name) {
                None
            } else {
                Some(RequestView::Package(name))
            },
            EffectView::FetchMetadata { id, request } => if self.distributions.contains(id) {
                None
            } else {
                Some(request)
            },
            _ => None,
        }
    }

    /// The registry after an effect.
    pub open spec fn after(self, effect: EffectView) -> RegistryView {
        match effect {
            EffectView::FetchVersions(name) => RegistryView {
                packages: self.packages.insert(name),
                ..self
            },
            EffectView::FetchMetadata { id, .. } => RegistryView {
                distributions: self.distributions.insert(id),
                ..self
            },
            _ => self,
        }
    }

    /// The registry after a number of effects.
    pub open spec fn after_all(self, effects: Seq<EffectView>) -> RegistryView
        decreases effects.len(),
    {
        if effects.len() == 0 {
            self
        } else {
            self.after_all(effects.drop_last()).after(effects.last())
        }
    }
}

impl Registry {
    /// Whether nothing is registered twice.
    pub closed spec fn wf(&self) -> bool {
        self.packages.wf() && self.distributions.wf()
    }

    /// A registry of nothing.
    pub fn new() -> (registry: Registry)
        ensures
            registry.wf(),
            registry@ == (RegistryView { packages: Set::empty(), distributions: Set::empty() }),
    {
        Registry { packages: KeyedSet::new(), distributions: KeyedSet::new() }
    }

    /// Register that somebody fetches the versions of a package. Returns whether nobody did before.
    pub fn register_package(&mut self, name: &PackageName) -> (first: bool)
        requires
            old(self).wf(),
        ensures
            final(self).wf(),
            first == !old(self)@.packages.contains(name@),
            final(self)@ == old(self)@.after(EffectView::FetchVersions(name@)),
    {
        self.packages.insert(name.clone())
    }

    /// Register that somebody fetches the metadata of a distribution. Returns whether nobody did
    /// before.
    pub fn register_distribution(&mut self, id: &String) -> (first: bool)
        requires
            old(self).wf(),
        ensures
            final(self).wf(),
            first == !old(self)@.distributions.contains(id@),
            final(self)@ == (RegistryView {
                distributions: old(self)@.distributions.insert(id@),
                ..old(self)@
            }),
    {
        self.distributions.insert(id.clone())
    }

    /// The request that an effect leads to, which is registered with it.
    pub fn submit(&mut self, effect: &Effect) -> (request: Option<Request>)
        requires
            old(self).wf(),
        ensures
            final(self).wf(),
            final(self)@ == old(self)@.after(effect@),
            old(self)@.request(effect@) == match request {
                Some(request) => Some(request@),
                None => None,
            },
    {
        match effect {
            Effect::Send(request) => Some(request.clone()),
            Effect::FetchVersions(name) => {
                if self.register_package(name) {
                    Some(Request::Package(name.clone()))
                } else {
                    None
                }
            },
            Effect::FetchMetadata { id, request } => {
                if self.register_distribution(id) {
                    Some(request.clone())
                } else {
                    None
                }
            },
            _ => None,
        }
    }
}

/// A request that is sent as it is reaches the registry however often it was sent. An effect that
/// asks for nothing leads to no request, and registers nothing.
pub proof fn law_only_fetching_is_registered(registry: RegistryView, effect: EffectView)
    ensures
        effect matches EffectView::Send(request) ==> registry.request(effect) == Some(request),
        !(effect is Send) && !(effect is FetchVersions) && !(effect is FetchMetadata)
            ==> registry.request(effect) is None,
        !(effect is FetchVersions) ==> registry.after(effect).packages == registry.packages,
        !(effect is FetchMetadata) ==> registry.after(effect).distributions
            == registry.distributions,
{
}

/// Fetching registers its package or its distribution, and no other.
pub proof fn law_fetching_registers_one_key(
    registry: RegistryView,
    name: Seq<char>,
    request: RequestView,
    key: Seq<char>,
)
    ensures
        registry.after(EffectView::FetchVersions(name)).packages.contains(key) <==> key == name
            || registry.packages.contains(key),
        registry.after(EffectView::FetchMetadata { id: name, request }).distributions.contains(key)
            <==> key == name || registry.distributions.contains(key),
{
}

/// Whether an effect registers the package.
pub open spec fn fetches_versions(effect: EffectView, name: Seq<char>) -> bool {
    effect matches EffectView::FetchVersions(own) && own == name
}

/// Whether an effect registers the distribution.
pub open spec fn fetches_metadata(effect: EffectView, id: Seq<char>) -> bool {
    effect matches EffectView::FetchMetadata { id: own, .. } && own == id
}

/// What is registered after a number of effects was registered before or by one of them.
proof fn lemma_registered(registry: RegistryView, effects: Seq<EffectView>, key: Seq<char>)
    ensures
        registry.after_all(effects).packages.contains(key) <==> registry.packages.contains(key)
            || exists|i: int|
            0 <= i < effects.len() && fetches_versions(#[trigger] effects[i], key),
        registry.after_all(effects).distributions.contains(key)
            <==> registry.distributions.contains(key) || exists|i: int|
            0 <= i < effects.len() && fetches_metadata(#[trigger] effects[i], key),
    decreases effects.len(),
{
    if effects.len() > 0 {
        let before = effects.drop_last();
        let n = effects.len() - 1;
        lemma_registered(registry, before, key);
        assert(effects[n] == effects.last());
        assert forall|i: int| 0 <= i < before.len() implies before[i] == #[trigger] effects[i] by {}
        if exists|i: int| 0 <= i < before.len() && fetches_versions(#[trigger] before[i], key) {
            let i = choose|i: int|
                0 <= i < before.len() && fetches_versions(#[trigger] before[i], key);
            assert(fetches_versions(effects[i], key));
        }
        if exists|i: int| 0 <= i < before.len() && fetches_metadata(#[trigger] before[i], key) {
            let i = choose|i: int|
                0 <= i < before.len() && fetches_metadata(#[trigger] before[i], key);
            assert(fetches_metadata(effects[i], key));
        }
        if exists|i: int| 0 <= i < effects.len() && fetches_versions(#[trigger] effects[i], key) {
            let i = choose|i: int|
                0 <= i < effects.len() && fetches_versions(#[trigger] effects[i], key);
            if i < n {
                assert(fetches_versions(before[i], key));
            }
        }
        if exists|i: int| 0 <= i < effects.len() && fetches_metadata(#[trigger] effects[i], key) {
            let i = choose|i: int|
                0 <= i < effects.len() && fetches_metadata(#[trigger] effects[i], key);
            if i < n {
                assert(fetches_metadata(before[i], key));
            }
        }
    }
}

/// The versions of a package are asked for once, however often it is visited: of a number of
/// effects, one that fetches them leads to a request exactly if the package was not registered
/// before and no earlier effect fetches them.
pub proof fn law_versions_are_requested_once(
    registry: RegistryView,
    effects: Seq<EffectView>,
    name: Seq<char>,
    i: int,
)
    requires
        0 <= i < effects.len(),
        fetches_versions(effects[i], name),
    ensures
        registry.after_all(effects.take(i)).request(effects[i]) is Some
            <==> !registry.packages.contains(name) && forall|j: int|
            0 <= j < i ==> !fetches_versions(#[trigger] effects[j], name),
        registry.after_all(effects.take(i)).request(effects[i]) matches Some(request) ==> request
            == RequestView::Package(name),
{
    let before = effects.take(i);
    lemma_registered(registry, before, name);
    assert forall|j: int| 0 <= j < i implies before[j] == #[trigger] effects[j] by {}
    if exists|j: int| 0 <= j < i && fetches_versions(#[trigger] effects[j], name) {
        let j = choose|j: int| 0 <= j < i && fetches_versions(#[trigger] effects[j], name);
        assert(fetches_versions(before[j], name));
    }
}

/// The metadata of a distribution is asked for once, however often it is visited: of a number of
/// effects, one that fetches it leads to its request exactly if the distribution was not
/// registered before and no earlier effect fetches it.
pub proof fn law_metadata_is_requested_once(
    registry: RegistryView,
    effects: Seq<EffectView>,
    id: Seq<char>,
    i: int,
)
    requires
        0 <= i < effects.len(),
        fetches_metadata(effects[i], id),
    ensures
        registry.after_all(effects.take(i)).request(effects[i]) is Some
            <==> !registry.distributions.contains(id) && forall|j: int|
            0 <= j < i ==> !fetches_metadata(#[trigger] effects[j], id),
        registry.after_all(effects.take(i)).request(effects[i]) matches Some(request) ==> request
            == effects[i]->request,
{
    let before = effects.take(i);
    lemma_registered(registry, before, id);
    assert forall|j: int| 0 <= j < i implies before[j] == #[trigger] effects[j] by {}
    if exists|j: int| 0 <= j < i && fetches_metadata(#[trigger] effects[j], id) {
        let j = choose|j: int| 0 <= j < i && fetches_metadata(#[trigger] effects[j], id);
        assert(fetches_metadata(before[j], id));
    }
}

} // verus!
