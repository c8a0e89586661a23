//! The provider transport snapshot that the OpenCode logic reads, and the
//! header map that it fills.
use vstd::prelude::*;

use crate::json::{
    entries_map, key_index, lemma_entries_map_empty, lemma_entries_map_push, lemma_entries_map_update,
    lemma_key_index, lemma_key_index_is, JsonData, JsonValue,
};
use crate::text::{chars_eq, chars_of};

verus! {

/// The provider of a transport snapshot (the fields that the logic reads).
#[derive(Debug)]
pub struct GatewayProviderTransportProvider {
    pub provider_type: String,
}

/// The endpoint of a transport snapshot.
#[derive(Debug)]
pub struct GatewayProviderTransportEndpoint {
    pub base_url: String,
}

/// The key of a transport snapshot.
#[derive(Debug)]
pub struct GatewayProviderTransportKey {
    /// Per-key metadata (a JSON value) configured on the key.
    pub upstream_metadata: Option<JsonValue>,
    /// The key's decrypted API key.
    pub decrypted_api_key: String,
}

/// What a request is sent through: provider, endpoint and key.
#[derive(Debug)]
pub struct GatewayProviderTransportSnapshot {
    pub provider: GatewayProviderTransportProvider,
    pub endpoint: GatewayProviderTransportEndpoint,
    pub key: GatewayProviderTransportKey,
}

/// The names, from the gateway's transport contracts, that a pinned
/// transport profile carries: its connection backend, its HTTP mode and
/// the scope of its connection pool.
#[derive(Debug)]
pub struct TransportProfileNames {
    pub backend: String,
    pub http_mode: String,
    pub pool_scope: String,
}

impl View for TransportProfileNames {
    type V = (Seq<char>, Seq<char>, Seq<char>);

    open spec fn view(&self) -> (Seq<char>, Seq<char>, Seq<char>) {
        (self.backend@, self.http_mode@, self.pool_scope@)
    }
}

/// How the execution layer connects a request: a resolved transport
/// profile.
#[derive(Debug)]
pub struct ResolvedTransportProfile {
    pub profile_id: String,
    pub backend: String,
    pub http_mode: String,
    pub pool_scope: String,
    pub header_fingerprint: Option<JsonValue>,
    /// Provider-specific data for the execution layer.
    pub extra: Option<JsonValue>,
}

/// The mathematical view of a [`ResolvedTransportProfile`].
pub struct ProfileView {
    pub profile_id: Seq<char>,
    pub backend: Seq<char>,
    pub http_mode: Seq<char>,
    pub pool_scope: Seq<char>,
    pub header_fingerprint: Option<JsonData>,
    pub extra: Option<JsonData>,
}

impl View for ResolvedTransportProfile {
    type V = ProfileView;

    open spec fn view(&self) -> ProfileView {
        ProfileView {
            profile_id: self.profile_id@,
            backend: self.backend@,
            http_mode: self.http_mode@,
            pool_scope: self.pool_scope@,
            header_fingerprint: match self.header_fingerprint {
                Some(v) => Some(v.data()),
                None => None,
            },
            extra: match self.extra {
                Some(v) => Some(v.data()),
                None => None,
            },
        }
    }
}

/// An optional profile by its view.
pub open spec fn profile_opt_view(r: Option<ResolvedTransportProfile>) -> Option<ProfileView> {
    match r {
        Some(p) => Some(p@),
        None => None,
    }
}

/// Pool adapter for the `opencode` provider type.
///
/// OpenCode upstreams share a fixed `Bearer public` credential across all
/// keys; each pool key represents one front-proxy exit IP with a fixed
/// daily quota, so the default pool behaviour (health and round-robin
/// scheduling, per-key cooldown) is all the rotation the pool needs.
#[derive(Debug, Clone, Copy, Default)]
pub struct OpenCodeProviderPoolAdapter;

impl OpenCodeProviderPoolAdapter {
    /// The provider type that the adapter serves.
    pub fn provider_type(&self) -> (t: &'static str)
        ensures
            t@ == "opencode"@,
    {
        "opencode"
    }
}

/// The entries of a header map as character sequences.
pub open spec fn header_entries(e: Seq<(String, String)>) -> Seq<(Seq<char>, Seq<char>)> {
    Seq::new(e.len(), |i: int| (e[i].0@, e[i].1@))
}

/// Header names to values, as a `BTreeMap<String, String>` holds them.
#[derive(Debug)]
pub struct HeaderMap {
    entries: Vec<(String, String)>,
}

impl View for HeaderMap {
    type V = Map<Seq<char>, Seq<char>>;

    closed spec fn view(&self) -> Map<Seq<char>, Seq<char>> {
        entries_map(header_entries(self.entries@))
    }
}

impl HeaderMap {
    /// An empty map.
    pub fn new() -> (m: HeaderMap)
        ensures
            m@ == Map::<Seq<char>, Seq<char>>::empty(),
    {
        let m = HeaderMap { entries: Vec::new() };
        proof {
            lemma_entries_map_empty(header_entries(m.entries@));
        }
        m
    }

    fn index_of(&self, key: &str) -> (r: Option<usize>)
        ensures
            r matches Some(i) ==> i < self.entries@.len() && key_index(
                header_entries(self.entries@),
                key@,
            ) == Some(i as int),
            r is None ==> key_index(header_entries(self.entries@), key@) is None,
    {
        let ghost he = header_entries(self.entries@);
        let k = chars_of(key);
        let n = self.entries.len();
        let mut i: usize = 0;
        while i < n
            invariant
                n == self.entries@.len(),
                he == header_entries(self.entries@),
                k@ == key@,
                i <= n,
                forall|j: int| 0 <= j < i ==> he[j].0 != key@,
            decreases n - i,
        {
            let ek = chars_of(self.entries[i].0.as_str());
            if chars_eq(&ek, &k) {
                proof {
                    lemma_key_index_is(he, key@, i as int);
                }
                return Some(i);
            }
            i = i + 1;
        }
        proof {
            lemma_key_index(he, key@);
        }
        None
    }

    /// `BTreeMap::insert`: sets the value of `key`.
    pub fn insert(&mut self, key: String, value: String)
        ensures
            final(self)@ == old(self)@.insert(key@, value@),
    {
        let ghost he = header_entries(self.entries@);
        let ghost kv = key@;
        let ghost vv = value@;
        match self.index_of(key.as_str()) {
            Some(i) => {
                self.entries.set(i, (key, value));
                assert(header_entries(self.entries@) =~= he.update(i as int, (kv, vv)));
                proof {
                    lemma_entries_map_update(he, kv, vv, i as int);
                }
            },
            None => {
                self.entries.push((key, value));
                assert(header_entries(self.entries@) =~= he.push((kv, vv)));
                proof {
                    lemma_entries_map_push(he, kv, vv);
                }
            },
        }
    }

    /// `BTreeMap::get`.
    pub fn get(&self, key: &str) -> (r: Option<&String>)
        ensures
            match r {
                Some(v) => self@.contains_key(key@) && self@[key@] == v@,
                None => !self@.contains_key(key@),
            },
    {
        match self.index_of(key) {
            Some(i) => Some(&self.entries[i].1),
            None => None,
        }
    }

    /// `BTreeMap::contains_key`.
    pub fn contains_key(&self, key: &str) -> (b: bool)
        ensures
            b == self@.contains_key(key@),
    {
        self.index_of(key).is_some()
    }

    /// The name-value pairs of the map.
    pub fn into_entries(self) -> (r: Vec<(String, String)>)
        ensures
            entries_map(header_entries(r@)) == self@,
    {
        self.entries
    }

    /// `BTreeMap::is_empty`.
    pub fn is_empty(&self) -> (b: bool)
        ensures
            b == (self@ == Map::<Seq<char>, Seq<char>>::empty()),
    {
        let ghost he = header_entries(self.entries@);
        if self.entries.len() == 0 {
            proof {
                lemma_entries_map_empty(he);
            }
            true
        } else {
            proof {
                lemma_key_index(he, he[0].0);
                assert(self@.contains_key(he[0].0));
            }
            false
        }
    }
}

} // verus!
