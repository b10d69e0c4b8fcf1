//! The facade that builds the store and the reasoner from settings.
use vstd::prelude::*;

use crate::config::{OntologyBackend, OntologySettings, ReasonerBackend, ReasonerSettings, SeedPath, SeedPathKind};
use crate::reasoner::InMemoryReasoner;
use crate::store::{OntologyServiceError, OntologyStore};

verus! {

/// The seed path can be read as seed material: a file or a directory.
pub open spec fn seed_usable(seed: SeedPath) -> bool {
    seed.kind is File || seed.kind is Directory
}

/// The first seed path that is neither a file nor a directory.
pub open spec fn first_unusable_seed(seeds: Seq<SeedPath>) -> Option<int> {
    if exists|i: int| 0 <= i < seeds.len() && !seed_usable(#[trigger] seeds[i]) {
        Some(
            choose|i: int|
                0 <= i < seeds.len() && !seed_usable(#[trigger] seeds[i]) && forall|j: int|
                    0 <= j < i ==> seed_usable(#[trigger] seeds[j]),
        )
    } else {
        None
    }
}

/// The ontology store and the reasoner settings, handed out together.
pub struct OntologyService {
    store: OntologyStore,
    reasoner_settings: ReasonerSettings,
}

impl OntologyService {
    pub closed spec fn store_view(&self) -> OntologyStore {
        self.store
    }

    pub closed spec fn settings_view(&self) -> ReasonerSettings {
        self.reasoner_settings
    }

    /// A service over `store` under `reasoner_settings`.
    pub fn new(store: OntologyStore, reasoner_settings: ReasonerSettings) -> (r: OntologyService)
        ensures
            r.store_view() == store,
            r.settings_view() == reasoner_settings,
    {
        OntologyService { store, reasoner_settings }
    }

    /// Builds an empty store and the native reasoner after checking that every
    /// seed path is a file or a directory; the first one that is not is reported.
    pub fn from_config(ontology: &OntologySettings, reasoner: &ReasonerSettings) -> (r: Result<
        OntologyService,
        OntologyServiceError,
    >)
        ensures
            r is Ok <==> first_unusable_seed(ontology.seeds@) is None,
            r matches Ok(s) ==> s.store_view().wf() && s.store_view().map() == Map::<
                Seq<char>,
                crate::entities::OntologyView,
            >::empty() && s.settings_view() == *reasoner,
            r matches Err(e) ==> (e matches OntologyServiceError::SeedIo { path, reason }
                && first_unusable_seed(ontology.seeds@) matches Some(i) && path@
                == ontology.seeds@[i].path@),
    {
        let store = match ontology.backend {
            OntologyBackend::InMemory => OntologyStore::new(),
        };
        let mut i: usize = 0;
        while i < ontology.seeds.len()
            invariant
                i <= ontology.seeds.len(),
                forall|j: int| 0 <= j < i ==> seed_usable(#[trigger] ontology.seeds@[j]),
            decreases ontology.seeds.len() - i,
        {
            let seed = &ontology.seeds[i];
            let reason = match &seed.kind {
                SeedPathKind::File => None,
                SeedPathKind::Directory => None,
                SeedPathKind::Other => Some("unsupported seed path type".to_owned()),
                SeedPathKind::Inaccessible(why) => Some(why.clone()),
            };
            if let Some(reason) = reason {
                proof {
                    assert(!seed_usable(ontology.seeds@[i as int]));
                    let k = first_unusable_seed(ontology.seeds@).unwrap();
                    if k < i {
                        assert(seed_usable(ontology.seeds@[k]));
                    } else if k > i {
                        assert(seed_usable(ontology.seeds@[i as int]));
                    }
                }
                return Err(OntologyServiceError::SeedIo { path: seed.path.clone(), reason });
            }
            i = i + 1;
        }
        let settings = match reasoner.backend {
            ReasonerBackend::Native => *reasoner,
        };
        Ok(OntologyService::new(store, settings))
    }

    /// The store, for changes through the repository port.
    pub fn repository(&mut self) -> (r: &mut OntologyStore)
        ensures
            *r == old(self).store_view(),
            final(self).store_view() == *final(r),
            final(self).settings_view() == old(self).settings_view(),
    {
        &mut self.store
    }

    /// A reasoner over the store under the service's settings.
    pub fn reasoner(&self) -> (r: InMemoryReasoner<'_>)
        ensures
            r.store_view() == self.store_view(),
            r.settings_view() == self.settings_view(),
    {
        InMemoryReasoner::new(&self.store, self.reasoner_settings)
    }

    /// The reasoner settings in force.
    pub fn reasoner_settings(&self) -> (r: &ReasonerSettings)
        ensures
            *r == self.settings_view(),
    {
        &self.reasoner_settings
    }
}

} // verus!
