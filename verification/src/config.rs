//! The server's configuration and the decisions that read it.
use vstd::prelude::*;
use crate::text::owned;

verus! {

/// The raster tile sources of the configuration: a URL template with `{z}`, `{x}`, `{y}`
/// and `{scale}` for each identifier, each identifier at most once.
pub struct TileSources {
    entries: Vec<(String, String)>,
}

/// The index of an entry named `id` (the only one, where names are unique).
pub open spec fn entry_index(entries: Seq<(String, String)>, id: Seq<char>) -> int {
    choose|i: int| 0 <= i < entries.len() && entries[i].0@ == id
}

/// `true` when some entry is named `id`.
pub open spec fn has_entry(entries: Seq<(String, String)>, id: Seq<char>) -> bool {
    exists|i: int| 0 <= i < entries.len() && entries[i].0@ == id
}

/// `true` when no two entries share a name.
pub open spec fn unique_ids(entries: Seq<(String, String)>) -> bool {
    forall|i: int, j: int|
        0 <= i < entries.len() && 0 <= j < entries.len() && i != j ==> entries[i].0@
            != entries[j].0@
}

/// The map that inserting the entries one after the other builds, a later entry of a
/// name replacing an earlier one.
pub open spec fn inserted_all(entries: Seq<(String, String)>) -> Map<Seq<char>, Seq<char>>
    decreases entries.len(),
{
    if entries.len() == 0 {
        Map::empty()
    } else {
        inserted_all(entries.drop_last()).insert(entries.last().0@, entries.last().1@)
    }
}

impl View for TileSources {
    type V = Map<Seq<char>, Seq<char>>;

    closed spec fn view(&self) -> Map<Seq<char>, Seq<char>> {
        Map::new(
            |k: Seq<char>| has_entry(self.entries@, k),
            |k: Seq<char>| self.entries@[entry_index(self.entries@, k)].1@,
        )
    }
}

/// Among entries with unique names, an entry named `id` is the one `entry_index` finds.
proof fn lemma_entry_index(entries: Seq<(String, String)>, id: Seq<char>, i: int)
    requires
        unique_ids(entries),
        0 <= i < entries.len(),
        entries[i].0@ == id,
    ensures
        entry_index(entries, id) == i,
{
    let c = entry_index(entries, id);
    assert(0 <= c < entries.len() && entries[c].0@ == id);
}

impl TileSources {
    #[verifier::type_invariant]
    spec fn ids_unique(self) -> bool {
        unique_ids(self.entries@)
    }

    /// No tile source.
    pub fn new() -> (r: TileSources)
        ensures
            r@ == Map::<Seq<char>, Seq<char>>::empty(),
    {
        let r = TileSources { entries: Vec::new() };
        assert(r@ =~= Map::<Seq<char>, Seq<char>>::empty());
        r
    }

    /// Sets the URL template of `id`, replacing the one it had.
    pub fn insert(&mut self, id: String, url: String)
        ensures
            final(self)@ == old(self)@.insert(id@, url@),
    {
        proof {
            use_type_invariant(&*self);
        }
        let ghost before = self.entries@;
        let mut entries: Vec<(String, String)> = Vec::new();
        std::mem::swap(&mut entries, &mut self.entries);
        let mut i: usize = 0;
        let mut found = false;
        while i < entries.len()
            invariant
                entries@ == before,
                i <= entries.len(),
                !found ==> forall|j: int| 0 <= j < i ==> before[j].0@ != id@,
                found ==> i < entries.len() && before[i as int].0@ == id@,
            ensures
                !found ==> forall|j: int| 0 <= j < entries.len() ==> before[j].0@ != id@,
                found ==> i < entries.len() && before[i as int].0@ == id@,
            decreases entries.len() - i,
        {
            if entries[i].0 == id {
                found = true;
                break;
            }
            i = i + 1;
        }
        let ghost idv = id@;
        let ghost urlv = url@;
        if found {
            entries.set(i, (id, url));
        } else {
            entries.push((id, url));
        }
        let ghost after = entries@;
        assert(unique_ids(after)) by {
            assert forall|a: int, b: int|
                0 <= a < after.len() && 0 <= b < after.len() && a != b implies after[a].0@
                    != after[b].0@ by {
                if a < before.len() && b < before.len() && a != i && b != i {
                    assert(after[a] == before[a] && after[b] == before[b]);
                }
            }
        }
        self.entries = entries;
        let ghost m = self@;
        let ghost old_m = Map::new(
            |k: Seq<char>| has_entry(before, k),
            |k: Seq<char>| before[entry_index(before, k)].1@,
        );
        assert forall|k: Seq<char>| #[trigger] m.dom().contains(k) <==> old_m.insert(idv, urlv).dom().contains(k) by {
            if k == idv {
                let j = if found { i as int } else { before.len() as int };
                assert(after[j].0@ == k);
            } else if has_entry(before, k) {
                let j = choose|j: int| 0 <= j < before.len() && before[j].0@ == k;
                assert(after[j].0@ == k);
            } else if has_entry(after, k) {
                let j = choose|j: int| 0 <= j < after.len() && after[j].0@ == k;
                assert(before[j].0@ == k);
            }
        }
        assert forall|k: Seq<char>| m.dom().contains(k) implies #[trigger] m[k] == old_m.insert(idv, urlv)[k] by {
            if k == idv {
                let j = if found { i as int } else { before.len() as int };
                lemma_entry_index(after, k, j);
            } else {
                let j = choose|j: int| 0 <= j < after.len() && after[j].0@ == k;
                lemma_entry_index(after, k, j);
                assert(before[j].0@ == k);
                lemma_entry_index(before, k, j);
            }
        }
        assert(m =~= old_m.insert(idv, urlv));
    }

    /// The tile sources of `entries`, inserted in their order: where a name repeats, its
    /// last template counts (as when a `HashMap` is collected from them).
    pub fn from_entries(entries: Vec<(String, String)>) -> (r: TileSources)
        ensures
            r@ == inserted_all(entries@),
    {
        let mut r = TileSources::new();
        let mut i: usize = 0;
        assert(entries@.take(0) =~= Seq::<(String, String)>::empty());
        while i < entries.len()
            invariant
                i <= entries@.len(),
                r@ == inserted_all(entries@.take(i as int)),
            decreases entries@.len() - i,
        {
            assert(entries@.take(i + 1).drop_last() =~= entries@.take(i as int));
            let id = entries[i].0.clone();
            let url = entries[i].1.clone();
            r.insert(id, url);
            i = i + 1;
        }
        assert(entries@.take(entries@.len() as int) =~= entries@);
        r
    }

    /// The URL template of `id`, if it has one.
    pub fn get(&self, id: &str) -> (r: Option<String>)
        ensures
            r is Some <==> self@.dom().contains(id@),
            r matches Some(t) ==> self@[id@] == t@,
    {
        proof {
            use_type_invariant(self);
        }
        let wanted = owned(id);
        let mut i: usize = 0;
        while i < self.entries.len()
            invariant
                wanted@ == id@,
                unique_ids(self.entries@),
                i <= self.entries@.len(),
                forall|j: int| 0 <= j < i ==> self.entries@[j].0@ != id@,
            decreases self.entries@.len() - i,
        {
            if self.entries[i].0 == wanted {
                proof {
                    lemma_entry_index(self.entries@, id@, i as int);
                }
                return Some(self.entries[i].1.clone());
            }
            i = i + 1;
        }
        None
    }

    /// The entries, each name once, as identifier and URL template.
    pub fn entries(&self) -> (r: &Vec<(String, String)>)
        ensures
            unique_ids(r@),
            forall|i: int| 0 <= i < r@.len() ==> #[trigger] self@.dom().contains(r@[i].0@) && self@[r@[i].0@] == r@[i].1@,
            forall|k: Seq<char>| #[trigger] self@.dom().contains(k) ==> has_entry(r@, k),
    {
        proof {
            use_type_invariant(self);
            assert forall|i: int| 0 <= i < self.entries@.len() implies #[trigger] self@.dom().contains(self.entries@[i].0@) && self@[self.entries@[i].0@] == self.entries@[i].1@ by {
                lemma_entry_index(self.entries@, self.entries@[i].0@, i);
            }
        }
        &self.entries
    }
}

/// The configuration of the server (`rsts.toml`).
pub struct Config {
    /// Address of the tile server that serves vector styles.
    pub martin_url: String,
    /// Number of worker threads; the number of CPUs where absent.
    pub thread_count: Option<usize>,
    /// Size limit of the tile cache in GiB; ten where absent.
    pub cache_size_gb: Option<u64>,
    /// Raster tile sources by identifier.
    pub tile_sources: TileSources,
}

/// The URL template configured for the tile source `id`.
pub open spec fn source_for(sources: Map<Seq<char>, Seq<char>>, id: Seq<char>) -> Option<Seq<char>> {
    if sources.dom().contains(id) {
        Some(sources[id])
    } else {
        None
    }
}

/// The cache size limit, in GiB, where the configuration gives none.
pub const DEFAULT_CACHE_SIZE_GB: u64 = 10;

/// The number of logical CPUs available to the process (`num_cpus::get`), which the
/// crate documents as never less than one.
#[verifier::external_body]
fn available_cpus() -> (n: usize)
    ensures
        n >= 1,
{
    num_cpus::get()
}

impl Config {
    /// The URL template of the tile source `id`, if one is configured.
    pub fn tile_source(&self, id: &str) -> (r: Option<String>)
        ensures
            r is Some <==> source_for(self.tile_sources@, id@) is Some,
            r matches Some(t) ==> source_for(self.tile_sources@, id@) == Some(t@),
    {
        self.tile_sources.get(id)
    }

    /// Whether a tile source of that identifier is configured.
    pub fn has_tile_source(&self, id: &str) -> (b: bool)
        ensures
            b == source_for(self.tile_sources@, id@) is Some,
    {
        self.tile_source(id).is_some()
    }

    /// The number of worker threads: the configured number, or else the number of
    /// logical CPUs.
    pub fn worker_threads(&self) -> (n: usize)
        ensures
            self.thread_count matches Some(t) ==> n == t,
            self.thread_count is None ==> n >= 1,
    {
        match self.thread_count {
            Some(t) => t,
            None => available_cpus(),
        }
    }

    /// The size limit of the tile cache in GiB: the configured one, or else ten.
    pub fn cache_size_gb_or_default(&self) -> (gb: u64)
        ensures
            gb == match self.cache_size_gb {
                Some(g) => g,
                None => DEFAULT_CACHE_SIZE_GB,
            },
    {
        match self.cache_size_gb {
            Some(g) => g,
            None => DEFAULT_CACHE_SIZE_GB,
        }
    }
}

} // verus!
