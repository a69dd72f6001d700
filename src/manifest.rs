//! Resolved plugins, manifests, and the generation store that caches a manifest per
//! configuration hash under monotonic generation numbers.
use vstd::prelude::*;
use crate::smith::LoaderType;

verus! {

/// The locked reference a loader resolved a plugin to, tagged by the loader that made it.
#[derive(Debug, Clone)]
pub enum LoaderData {
    Git(LoaderType),
}

/// A descriptor as plain values: the loader's tag and its fields.
pub struct LoaderDataView {
    pub loader: Seq<char>,
    pub commit: Seq<char>,
    pub remote: Seq<char>,
}

impl View for LoaderData {
    type V = LoaderDataView;

    open spec fn view(&self) -> LoaderDataView {
        match self {
            LoaderData::Git(d) => LoaderDataView {
                loader: "git"@,
                commit: d.commit_hash@,
                remote: d.remote@,
            },
        }
    }
}

/// A plugin, as recorded in a manifest.
#[derive(Debug, Clone)]
pub struct Plugin {
    /// The plugin's install name, as its loader computed it
    pub name: String,
    /// The key the plugin was declared under; dependencies refer to plugins by it
    pub unresolved_name: String,
    /// Rename the plugin to this name when loading
    pub rename: Option<String>,
    /// If the plugin is optional
    pub optional: bool,
    /// The declared (unresolved) names of the plugin's dependencies
    pub dependencies: Vec<String>,
    /// The name of the loader this plugin is loaded by
    pub smith: String,
    /// A command which is run in the plugin's directory after loading; empty for none
    pub build: String,
    /// The data which is used for the loader
    pub loader_data: LoaderData,
}

pub struct PluginView {
    pub name: Seq<char>,
    pub unresolved_name: Seq<char>,
    pub rename: Option<Seq<char>>,
    pub optional: bool,
    pub dependencies: Seq<Seq<char>>,
    pub smith: Seq<char>,
    pub build: Seq<char>,
    pub loader_data: LoaderDataView,
}

impl View for Plugin {
    type V = PluginView;

    open spec fn view(&self) -> PluginView {
        PluginView {
            name: self.name@,
            unresolved_name: self.unresolved_name@,
            rename: match self.rename {
                Some(r) => Some(r@),
                None => None,
            },
            optional: self.optional,
            dependencies: self.dependencies@.map_values(|d: String| d@),
            smith: self.smith@,
            build: self.build@,
            loader_data: self.loader_data@,
        }
    }
}

/// A manifest: the resolved plugins and the editor version it was built for.
#[derive(Debug, Clone)]
pub struct Manifest {
    /// The editor version this manifest was built for
    pub neovim_version: String,
    pub plugins: Vec<Plugin>,
}

pub struct ManifestView {
    pub host_version: Seq<char>,
    pub plugins: Seq<PluginView>,
}

impl View for Manifest {
    type V = ManifestView;

    open spec fn view(&self) -> ManifestView {
        ManifestView {
            host_version: self.neovim_version@,
            plugins: self.plugins@.map_values(|p: Plugin| p@),
        }
    }
}

impl Manifest {
    pub fn new(neovim_version: String, plugins: Vec<Plugin>) -> (r: Manifest)
        ensures
            r.neovim_version == neovim_version,
            r.plugins == plugins,
    {
        Manifest { neovim_version, plugins }
    }
}

/// A key of the generation store: the hash of a configuration, then a generation number.
#[derive(Debug, Clone, Copy, PartialEq, Eq, PartialOrd, Ord, Hash, Structural)]
pub struct GenerationHash(pub u64, pub u64);

/// Keys are ordered by hash, then by generation number.
pub open spec fn key_lt(a: GenerationHash, b: GenerationHash) -> bool {
    a.0 < b.0 || (a.0 == b.0 && a.1 < b.1)
}

/// The store as plain values: its entries in key order.
pub type StoreView = Seq<(GenerationHash, ManifestView)>;

/// Keys strictly increase along the store.
pub open spec fn sorted_keys(s: StoreView) -> bool {
    forall|i: int, j: int| 0 <= i < j < s.len() ==> key_lt(#[trigger] s[i].0, #[trigger] s[j].0)
}

/// The highest generation number stored for a hash.
pub open spec fn latest_of(s: StoreView, h: u64) -> Option<u64>
    decreases s.len(),
{
    if s.len() == 0 {
        None
    } else {
        let r = latest_of(s.drop_last(), h);
        let k = s.last().0;
        if k.0 == h && (r is None || r->0 < k.1) {
            Some(k.1)
        } else {
            r
        }
    }
}

/// The number the next generation of a hash gets: one past the highest, 1 for a new hash.
pub open spec fn next_of(s: StoreView, h: u64) -> int {
    match latest_of(s, h) {
        None => 1,
        Some(n) => n + 1,
    }
}

/// The manifest stored under a key.
pub open spec fn manifest_at(s: StoreView, k: GenerationHash) -> Option<ManifestView> {
    if exists|i: int| 0 <= i < s.len() && s[i].0 == k {
        Some(s[choose|i: int| 0 <= i < s.len() && s[i].0 == k].1)
    } else {
        None
    }
}

/// The manifest of the highest generation of a hash.
pub open spec fn latest_manifest_of(s: StoreView, h: u64) -> Option<ManifestView> {
    match latest_of(s, h) {
        None => None,
        Some(n) => manifest_at(s, GenerationHash(h, n)),
    }
}

/// Where a key goes in the store: after the entries whose key is below it.
pub open spec fn insert_pos(s: StoreView, k: GenerationHash) -> int
    decreases s.len(),
{
    if s.len() == 0 {
        0
    } else if key_lt(s.last().0, k) {
        s.len() as int
    } else {
        insert_pos(s.drop_last(), k)
    }
}

/// The entries whose key is below `k`, then `k`, then the rest.
pub open spec fn insert_key(s: StoreView, k: GenerationHash, m: ManifestView) -> StoreView {
    s.insert(insert_pos(s, k), (k, m))
}

/// The store after a new generation of `h` holding `m` is recorded.
pub open spec fn add_of(s: StoreView, h: u64, m: ManifestView) -> StoreView {
    insert_key(s, GenerationHash(h, next_of(s, h) as u64), m)
}

/// What one run does to the store: a hash already stored is a hit and changes nothing;
/// otherwise the freshly resolved manifest becomes the hash's next generation.
pub open spec fn run_of(s: StoreView, h: u64, fresh: ManifestView) -> StoreView {
    if latest_of(s, h) is Some {
        s
    } else {
        add_of(s, h, fresh)
    }
}

/// `latest_of` is the greatest number stored for the hash.
pub proof fn lemma_latest_of(s: StoreView, h: u64)
    ensures
        latest_of(s, h) is None <==> forall|i: int| 0 <= i < s.len() ==> (#[trigger] s[i].0).0 != h,
        latest_of(s, h) matches Some(n) ==> (exists|i: int|
            0 <= i < s.len() && #[trigger] s[i].0 == GenerationHash(h, n)) && forall|i: int|
            0 <= i < s.len() && (#[trigger] s[i].0).0 == h ==> s[i].0.1 <= n,
    decreases s.len(),
{
    if s.len() > 0 {
        let p = s.drop_last();
        lemma_latest_of(p, h);
        assert forall|i: int| 0 <= i < s.len() - 1 implies s[i] == #[trigger] p[i] by {}
        if latest_of(s, h) is None {
            assert forall|i: int| 0 <= i < s.len() implies (#[trigger] s[i].0).0 != h by {
                if i < s.len() - 1 {
                    assert(s[i] == p[i]);
                }
            }
        }
        if let Some(n) = latest_of(s, h) {
            if latest_of(p, h) == Some(n) && !(s.last().0 == GenerationHash(h, n)) {
                let i = choose|i: int| 0 <= i < p.len() && #[trigger] p[i].0 == GenerationHash(h, n);
                assert(s[i].0 == GenerationHash(h, n));
            }
            assert forall|i: int| 0 <= i < s.len() && (#[trigger] s[i].0).0 == h implies s[i].0.1
                <= n by {
                if i < s.len() - 1 {
                    assert(s[i] == p[i]);
                }
            }
        }
    }
}

/// Two stores with the same keys for a hash agree on its latest generation.
pub proof fn lemma_latest_same_keys(s: StoreView, t: StoreView, h: u64)
    requires
        forall|i: int|
            0 <= i < s.len() && (#[trigger] s[i]).0.0 == h ==> exists|j: int|
                0 <= j < t.len() && t[j].0 == s[i].0,
        forall|j: int|
            0 <= j < t.len() && (#[trigger] t[j]).0.0 == h ==> exists|i: int|
                0 <= i < s.len() && s[i].0 == t[j].0,
    ensures
        latest_of(s, h) == latest_of(t, h),
{
    lemma_latest_of(s, h);
    lemma_latest_of(t, h);
    if let Some(a) = latest_of(s, h) {
        let i = choose|i: int| 0 <= i < s.len() && #[trigger] s[i].0 == GenerationHash(h, a);
        assert(s[i].0.0 == h);
        let j = choose|j: int| 0 <= j < t.len() && t[j].0 == s[i].0;
        assert(t[j].0.0 == h);
    }
    if let Some(b) = latest_of(t, h) {
        let j = choose|j: int| 0 <= j < t.len() && #[trigger] t[j].0 == GenerationHash(h, b);
        assert(t[j].0.0 == h);
        let i = choose|i: int| 0 <= i < s.len() && s[i].0 == t[j].0;
        assert(s[i].0.0 == h);
    }
}

/// In a sorted store, the entries before a key's place are below it, and the rest are not.
pub proof fn lemma_insert_pos(s: StoreView, k: GenerationHash)
    requires
        sorted_keys(s),
    ensures
        0 <= insert_pos(s, k) <= s.len(),
        forall|j: int| 0 <= j < insert_pos(s, k) ==> key_lt((#[trigger] s[j]).0, k),
        forall|j: int| insert_pos(s, k) <= j < s.len() ==> !key_lt((#[trigger] s[j]).0, k),
    decreases s.len(),
{
    if s.len() > 0 {
        let p = s.drop_last();
        if key_lt(s.last().0, k) {
            assert forall|j: int| 0 <= j < s.len() implies key_lt((#[trigger] s[j]).0, k) by {
                if j < s.len() - 1 {
                    assert(key_lt(s[j].0, s[s.len() - 1].0));
                }
            }
        } else {
            assert forall|i: int, j: int| 0 <= i < j < p.len() implies key_lt(
                #[trigger] p[i].0,
                #[trigger] p[j].0,
            ) by {
                assert(key_lt(s[i].0, s[j].0));
            }
            lemma_insert_pos(p, k);
            assert forall|j: int| 0 <= j < insert_pos(s, k) implies key_lt((#[trigger] s[j]).0, k) by {
                assert(s[j] == p[j]);
            }
            assert forall|j: int| insert_pos(s, k) <= j < s.len() implies !key_lt(
                (#[trigger] s[j]).0,
                k,
            ) by {
                if j < s.len() - 1 {
                    assert(s[j] == p[j]);
                }
            }
        }
    }
}

/// Inserting a key that is not stored keeps the keys sorted.
pub proof fn lemma_insert_key_sorted(s: StoreView, k: GenerationHash, m: ManifestView)
    requires
        sorted_keys(s),
        forall|i: int| 0 <= i < s.len() ==> (#[trigger] s[i]).0 != k,
    ensures
        sorted_keys(insert_key(s, k, m)),
{
    lemma_insert_pos(s, k);
    let pos = insert_pos(s, k);
    let t = insert_key(s, k, m);
    assert forall|i: int, j: int| 0 <= i < j < t.len() implies key_lt(
        #[trigger] t[i].0,
        #[trigger] t[j].0,
    ) by {
        if i < pos && j < pos {
            assert(key_lt(s[i].0, s[j].0));
        } else if i < pos && j == pos {
        } else if i < pos {
            assert(key_lt(s[i].0, s[j - 1].0));
        } else if i == pos {
            assert(s[j - 1].0 != k);
        } else {
            assert(key_lt(s[i - 1].0, s[j - 1].0));
        }
    }
}

/// Recording a generation of `h` makes it the latest of `h`, under the next number;
/// every other hash keeps its latest generation, and every stored entry stays.
pub proof fn lemma_add_of(s: StoreView, h: u64, m: ManifestView)
    requires
        sorted_keys(s),
        latest_of(s, h) != Some(u64::MAX),
    ensures
        sorted_keys(add_of(s, h, m)),
        latest_of(add_of(s, h, m), h) == Some(next_of(s, h) as u64),
        forall|h2: u64| h2 != h ==> latest_of(add_of(s, h, m), h2) == latest_of(s, h2),
        forall|x: (GenerationHash, ManifestView)| s.contains(x) ==> add_of(s, h, m).contains(x),
        add_of(s, h, m).contains((GenerationHash(h, next_of(s, h) as u64), m)),
        add_of(s, h, m).len() == s.len() + 1,
{
    let k = GenerationHash(h, next_of(s, h) as u64);
    let t = add_of(s, h, m);
    lemma_latest_of(s, h);
    assert forall|i: int| 0 <= i < s.len() implies (#[trigger] s[i]).0 != k by {
        if s[i].0.0 == h {
            assert(s[i].0.1 <= latest_of(s, h)->0);
        }
    }
    lemma_insert_key_sorted(s, k, m);
    lemma_insert_pos(s, k);
    let pos = insert_pos(s, k);
    assert(t[pos] == (k, m));
    lemma_latest_of(t, h);
    let n = latest_of(t, h)->0;
    assert(t[pos].0.0 == h);
    let j = choose|j: int| 0 <= j < t.len() && #[trigger] t[j].0 == GenerationHash(h, n);
    if j < pos {
        assert(s[j].0.0 == h);
    } else if j > pos {
        assert(s[j - 1].0.0 == h);
    }
    assert forall|x: (GenerationHash, ManifestView)| s.contains(x) implies t.contains(x) by {
        let i = choose|i: int| 0 <= i < s.len() && s[i] == x;
        if i < pos {
            assert(t[i] == x);
        } else {
            assert(t[i + 1] == x);
        }
    }
    assert forall|h2: u64| h2 != h implies latest_of(t, h2) == latest_of(s, h2) by {
        assert forall|i: int| 0 <= i < s.len() && (#[trigger] s[i]).0.0 == h2 implies exists|
            j: int,
        | 0 <= j < t.len() && t[j].0 == s[i].0 by {
            if i < pos {
                assert(t[i].0 == s[i].0);
            } else {
                assert(t[i + 1].0 == s[i].0);
            }
        }
        assert forall|j: int| 0 <= j < t.len() && (#[trigger] t[j]).0.0 == h2 implies exists|
            i: int,
        | 0 <= i < s.len() && s[i].0 == t[j].0 by {
            if j < pos {
                assert(s[j].0 == t[j].0);
            } else {
                assert(j != pos);
                assert(s[j - 1].0 == t[j].0);
            }
        }
        lemma_latest_same_keys(s, t, h2);
    }
}

/// Caching is idempotent: once a run has recorded or found a generation for a hash, a
/// second run with the same hash finds it, adds nothing, and reports the same latest
/// generation number, whatever it resolved.
pub proof fn lemma_run_idempotent(s: StoreView, h: u64, first: ManifestView, second: ManifestView)
    requires
        sorted_keys(s),
        latest_of(s, h) != Some(u64::MAX),
    ensures
        latest_of(run_of(s, h, first), h) is Some,
        run_of(run_of(s, h, first), h, second) == run_of(s, h, first),
        latest_of(run_of(run_of(s, h, first), h, second), h) == latest_of(run_of(s, h, first), h),
{
    if latest_of(s, h) is None {
        lemma_add_of(s, h, first);
    }
}

/// The store after recording one generation of `h` per manifest, in order.
pub open spec fn add_all_of(s: StoreView, h: u64, ms: Seq<ManifestView>) -> StoreView
    decreases ms.len(),
{
    if ms.len() == 0 {
        s
    } else {
        add_of(add_all_of(s, h, ms.drop_last()), h, ms.last())
    }
}

/// Generation numbers of a hash count from 1: after `n` recorded generations of a hash
/// that had none, its latest number is `n`, and no other hash's latest number moved.
pub proof fn lemma_generations_count_from_one(s: StoreView, h: u64, ms: Seq<ManifestView>)
    requires
        sorted_keys(s),
        latest_of(s, h) is None,
        ms.len() < u64::MAX,
    ensures
        sorted_keys(add_all_of(s, h, ms)),
        latest_of(add_all_of(s, h, ms), h) == if ms.len() == 0 {
            None
        } else {
            Some(ms.len() as u64)
        },
        forall|h2: u64| h2 != h ==> latest_of(add_all_of(s, h, ms), h2) == latest_of(s, h2),
    decreases ms.len(),
{
    if ms.len() > 0 {
        lemma_generations_count_from_one(s, h, ms.drop_last());
        lemma_add_of(add_all_of(s, h, ms.drop_last()), h, ms.last());
    }
}

/// The generation store: manifests keyed by configuration hash and generation number.
/// Entries are only ever added.
#[derive(Debug, Clone)]
pub struct GenerationsFile {
    entries: Vec<(GenerationHash, Manifest)>,
}

impl View for GenerationsFile {
    type V = StoreView;

    closed spec fn view(&self) -> StoreView {
        self.entries@.map_values(|e: (GenerationHash, Manifest)| (e.0, e.1@))
    }
}

impl GenerationsFile {
    /// Keys strictly increase along the entries.
    pub open spec fn wf(&self) -> bool {
        sorted_keys(self@)
    }

    /// An empty store.
    pub fn new() -> (r: GenerationsFile)
        ensures
            r.wf(),
            r@ == Seq::<(GenerationHash, ManifestView)>::empty(),
    {
        let r = GenerationsFile { entries: Vec::new() };
        assert(r@ =~= Seq::<(GenerationHash, ManifestView)>::empty());
        r
    }

    /// The entries, in key order.
    pub fn entries(&self) -> (r: &Vec<(GenerationHash, Manifest)>)
        ensures
            r@.map_values(|e: (GenerationHash, Manifest)| (e.0, e.1@)) == self@,
    {
        &self.entries
    }

    /// Number of stored generations, over all hashes.
    pub fn len(&self) -> (r: usize)
        ensures
            r == self@.len(),
    {
        self.entries.len()
    }

    /// A store that holds the given entries, if their keys strictly increase.
    pub fn from_entries(entries: Vec<(GenerationHash, Manifest)>) -> (r: Option<GenerationsFile>)
        ensures
            match r {
                Some(g) => g.wf() && g@ == entries@.map_values(
                    |e: (GenerationHash, Manifest)| (e.0, e.1@),
                ),
                None => !sorted_keys(
                    entries@.map_values(|e: (GenerationHash, Manifest)| (e.0, e.1@)),
                ),
            },
    {
        let ghost v = entries@.map_values(|e: (GenerationHash, Manifest)| (e.0, e.1@));
        let n = entries.len();
        let mut i: usize = 1;
        while i < n
            invariant
                n == v.len(),
                v == entries@.map_values(|e: (GenerationHash, Manifest)| (e.0, e.1@)),
                1 <= i,
                forall|a: int, b: int|
                    0 <= a < b < i && b < n ==> key_lt(#[trigger] v[a].0, #[trigger] v[b].0),
            decreases n - i,
        {
            let k0 = entries[i - 1].0;
            let k1 = entries[i].0;
            proof {
                assert(v[i - 1].0 == k0 && v[i as int].0 == k1);
            }
            if !(k0.0 < k1.0 || (k0.0 == k1.0 && k0.1 < k1.1)) {
                assert(!key_lt(v[i - 1].0, v[i as int].0));
                return None;
            }
            i = i + 1;
        }
        Some(GenerationsFile { entries })
    }

    /// The manifest stored under a key.
    pub fn get(&self, key: GenerationHash) -> (r: Option<&Manifest>)
        requires
            self.wf(),
        ensures
            match r {
                Some(m) => manifest_at(self@, key) == Some(m@),
                None => manifest_at(self@, key) is None,
            },
    {
        let mut i: usize = 0;
        while i < self.entries.len()
            invariant
                i <= self@.len(),
                self.wf(),
                forall|j: int| 0 <= j < i ==> (#[trigger] self@[j]).0 != key,
            decreases self@.len() - i,
        {
            if self.entries[i].0 == key {
                proof {
                    assert(self@[i as int].0 == key);
                    let j = choose|j: int| 0 <= j < self@.len() && self@[j].0 == key;
                    if j != i {
                        if j < i {
                            assert(key_lt(self@[j].0, self@[i as int].0));
                        } else {
                            assert(key_lt(self@[i as int].0, self@[j].0));
                        }
                    }
                }
                return Some(&self.entries[i].1);
            }
            i = i + 1;
        }
        None
    }

    /// Get the latest generation number for a config hash, or `None` if there is no
    /// generation associated with that config hash.
    pub fn get_latest_generation_number(&self, config_hash: u64) -> (r: Option<u64>)
        ensures
            r == latest_of(self@, config_hash),
    {
        let mut best: Option<u64> = None;
        let mut i: usize = 0;
        while i < self.entries.len()
            invariant
                i <= self@.len(),
                best == latest_of(self@.subrange(0, i as int), config_hash),
            decreases self@.len() - i,
        {
            let k = self.entries[i].0;
            proof {
                assert(self@.subrange(0, i as int + 1).drop_last() =~= self@.subrange(0, i as int));
            }
            if k.0 == config_hash {
                match best {
                    None => {
                        best = Some(k.1);
                    },
                    Some(b) => {
                        if b < k.1 {
                            best = Some(k.1);
                        }
                    },
                }
            }
            i = i + 1;
        }
        assert(self@.subrange(0, self@.len() as int) =~= self@);
        best
    }

    /// Get the next generation number for a config hash: 1 if there is no manifest for
    /// that config hash, else one past the latest.
    pub fn get_next_generation_number(&self, config_hash: u64) -> (r: u64)
        requires
            latest_of(self@, config_hash) != Some(u64::MAX),
        ensures
            r == next_of(self@, config_hash),
    {
        match self.get_latest_generation_number(config_hash) {
            None => 1,
            Some(n) => n + 1,
        }
    }

    /// Add a new generation for a config hash, numbered one past its latest (1 for a new
    /// hash). Returns the key of the new generation.
    pub fn add_to_generations(&mut self, config_hash: u64, manifest: Manifest) -> (r:
        GenerationHash)
        requires
            old(self).wf(),
            latest_of(old(self)@, config_hash) != Some(u64::MAX),
        ensures
            final(self).wf(),
            final(self)@ == add_of(old(self)@, config_hash, manifest@),
            r == GenerationHash(config_hash, next_of(old(self)@, config_hash) as u64),
    {
        let n = self.get_next_generation_number(config_hash);
        let k = GenerationHash(config_hash, n);
        let ghost s = self@;
        let ghost mv = manifest@;
        proof {
            lemma_latest_of(s, config_hash);
        }
        let mut i: usize = 0;
        while i < self.entries.len()
            invariant
                self@ == s,
                sorted_keys(s),
                i <= s.len(),
                k == GenerationHash(config_hash, next_of(s, config_hash) as u64),
                forall|j: int| 0 <= j < i ==> key_lt((#[trigger] s[j]).0, k),
            ensures
                i <= s.len(),
                forall|j: int| 0 <= j < i ==> key_lt((#[trigger] s[j]).0, k),
                i == s.len() || !key_lt(s[i as int].0, k),
            decreases s.len() - i,
        {
            let e = self.entries[i].0;
            proof {
                assert(s[i as int].0 == e);
            }
            if !(e.0 < k.0 || (e.0 == k.0 && e.1 < k.1)) {
                break;
            }
            i = i + 1;
        }
        proof {
            lemma_insert_pos(s, k);
            let pos = insert_pos(s, k);
            if (i as int) < pos {
                assert(key_lt(s[i as int].0, k));
            }
            if (i as int) > pos {
                assert(key_lt(s[pos].0, k));
            }
            lemma_add_of(s, config_hash, mv);
        }
        self.entries.insert(i, (k, manifest));
        assert(self@ =~= s.insert(i as int, (k, mv)));
        k
    }

    /// One run against the store: on a hit the latest manifest of the hash is returned
    /// and nothing changes; on a miss `fresh` is recorded as the hash's next generation.
    /// Returns the key of the generation in use.
    pub fn lookup_or_record(&mut self, config_hash: u64, fresh: Manifest) -> (r: GenerationHash)
        requires
            old(self).wf(),
        ensures
            final(self).wf(),
            final(self)@ == run_of(old(self)@, config_hash, fresh@),
            r == GenerationHash(config_hash, latest_of(final(self)@, config_hash)->0),
            latest_of(final(self)@, config_hash) is Some,
    {
        match self.get_latest_generation_number(config_hash) {
            Some(n) => GenerationHash(config_hash, n),
            None => {
                proof {
                    lemma_add_of(self@, config_hash, fresh@);
                }
                self.add_to_generations(config_hash, fresh)
            },
        }
    }

    /// The manifest of the latest generation for a config hash, or `None` if there is no
    /// generation associated with that config hash.
    pub fn get_latest_manifest(&self, config_hash: u64) -> (r: Option<&Manifest>)
        requires
            self.wf(),
        ensures
            match r {
                Some(m) => latest_manifest_of(self@, config_hash) == Some(m@),
                None => latest_manifest_of(self@, config_hash) is None,
            },
    {
        match self.get_latest_generation_number(config_hash) {
            None => None,
            Some(n) => {
                proof {
                    lemma_latest_of(self@, config_hash);
                }
                self.get(GenerationHash(config_hash, n))
            },
        }
    }
}

/// Get the latest manifest for a config hash; `None` if the config doesn't have any
/// associated generations.
pub fn get_latest(generation_file: &GenerationsFile, config_hash: u64) -> (r: Option<&Manifest>)
    requires
        generation_file.wf(),
    ensures
        match r {
            Some(m) => latest_manifest_of(generation_file@, config_hash) == Some(m@),
            None => latest_manifest_of(generation_file@, config_hash) is None,
        },
{
    generation_file.get_latest_manifest(config_hash)
}

/// Get the latest generation number for a config hash; `None` if the config doesn't have
/// any associated generations.
pub fn get_latest_generation_number(generation_file: &GenerationsFile, config_hash: u64) -> (r:
    Option<u64>)
    ensures
        r == latest_of(generation_file@, config_hash),
{
    generation_file.get_latest_generation_number(config_hash)
}

/// Get the next generation number for a config hash; 1 if the config hash doesn't have
/// any associated generations.
pub fn get_next_generation_number(generation_file: &GenerationsFile, config_hash: u64) -> (r: u64)
    requires
        latest_of(generation_file@, config_hash) != Some(u64::MAX),
    ensures
        r == next_of(generation_file@, config_hash),
{
    generation_file.get_next_generation_number(config_hash)
}

} // verus!
