use crate::errors::{ErrV, MoostacheError};
use crate::loader::{spec_norm_dir, spec_norm_ext, LoaderConfig};
use crate::template::{Template, TplV};
use vstd::prelude::*;

verus! {

/// The cache type of the lru crate, declared so that fields and
/// signatures may carry it; Verus sees nothing inside a value of it.
#[verifier::external_type_specification]
#[verifier::external_body]
#[verifier::reject_recursive_types(K)]
#[verifier::reject_recursive_types(V)]
#[verifier::reject_recursive_types(S)]
pub struct ExLruCache<K, V, S>(lru::LruCache<K, V, S>);

/// What a name-to-slot cache holds: the mapping from each cached
/// name to its slot index.
pub uninterp spec fn lru_contents(c: lru::LruCache<String, usize>) -> Map<Seq<char>, int>;

/// The fixed capacity a cache was created with.
pub uninterp spec fn lru_capacity(c: lru::LruCache<String, usize>) -> int;

/// The cache's recency order: the cached names from most recently
/// used to least recently used.
pub uninterp spec fn lru_recency(c: lru::LruCache<String, usize>) -> Seq<Seq<char>>;

/// A recency order with the first occurrence of a name taken out.
pub open spec fn spec_drop_name(r: Seq<Seq<char>>, name: Seq<char>) -> Seq<Seq<char>>
    decreases r.len(),
{
    if r.len() == 0 {
        r
    } else if r[0] == name {
        r.skip(1)
    } else {
        seq![r[0]] + spec_drop_name(r.skip(1), name)
    }
}

/// A recency order with a name moved to the front: what touching an
/// entry does to the order.
pub open spec fn spec_promote(r: Seq<Seq<char>>, name: Seq<char>) -> Seq<Seq<char>> {
    seq![name] + spec_drop_name(r, name)
}

/// Relies on lru::LruCache::new: a fresh cache of the given capacity
/// holds nothing.
#[verifier::external_body]
fn lru_new(cap: usize) -> (c: lru::LruCache<String, usize>)
    requires
        cap >= 1,
    ensures
        lru_contents(c).dom() == Set::<Seq<char>>::empty(),
        lru_capacity(c) == cap,
        lru_recency(c) == Seq::<Seq<char>>::empty(),
{
    lru::LruCache::new(core::num::NonZeroUsize::new(cap).unwrap())
}

/// Relies on lru::LruCache::get: a hit returns the stored value and
/// moves the entry to the front of the recency order, leaving the
/// mapping itself unchanged; a miss changes nothing.
#[verifier::external_body]
fn lru_get(c: &mut lru::LruCache<String, usize>, name: &str) -> (r: Option<usize>)
    ensures
        lru_contents(*final(c)) == lru_contents(*old(c)),
        lru_capacity(*final(c)) == lru_capacity(*old(c)),
        match r {
            Some(ix) => {
                &&& lru_contents(*old(c)).contains_key(name@)
                &&& lru_contents(*old(c))[name@] == ix as int
                &&& lru_recency(*final(c)) == spec_promote(lru_recency(*old(c)), name@)
            },
            None => {
                &&& !lru_contents(*old(c)).contains_key(name@)
                &&& lru_recency(*final(c)) == lru_recency(*old(c))
            },
        },
    no_unwind
{
    c.get(name).copied()
}

/// Relies on lru::LruCache::push: the pair becomes the most recent
/// entry. A pair under the same key is replaced and returned. A new
/// key is plainly added while the cache is below capacity; at
/// capacity, the last entry of the recency order — the least
/// recently used — is evicted and returned.
#[verifier::external_body]
fn lru_push(c: &mut lru::LruCache<String, usize>, name: String, ix: usize) -> (r: Option<
    (String, usize),
>)
    ensures
        lru_capacity(*final(c)) == lru_capacity(*old(c)),
        match r {
            None => {
                &&& !lru_contents(*old(c)).contains_key(name@)
                &&& lru_contents(*old(c)).dom().len() < lru_capacity(*old(c))
                &&& lru_contents(*final(c)) == lru_contents(*old(c)).insert(name@, ix as int)
                &&& lru_recency(*final(c)) == seq![name@] + lru_recency(*old(c))
            },
            Some((k, v)) => {
                &&& lru_contents(*old(c)).contains_key(k@)
                &&& lru_contents(*old(c))[k@] == v as int
                &&& if k@ == name@ {
                    &&& lru_contents(*final(c)) == lru_contents(*old(c)).insert(name@, ix as int)
                    &&& lru_recency(*final(c)) == spec_promote(lru_recency(*old(c)), name@)
                } else {
                    &&& !lru_contents(*old(c)).contains_key(name@)
                    &&& lru_contents(*old(c)).dom().len() == lru_capacity(*old(c))
                    &&& lru_recency(*old(c)).len() > 0
                    &&& k@ == lru_recency(*old(c)).last()
                    &&& lru_contents(*final(c)) == lru_contents(*old(c)).remove(k@).insert(
                        name@,
                        ix as int,
                    )
                    &&& lru_recency(*final(c)) == seq![name@] + lru_recency(
                        *old(c),
                    ).drop_last()
                }
            },
        },
    no_unwind
{
    c.push(name, ix)
}

/// Relies on lru::LruCache::pop: removes the entry of the given name
/// and returns its value.
#[verifier::external_body]
fn lru_pop(c: &mut lru::LruCache<String, usize>, name: &str) -> (r: Option<usize>)
    ensures
        lru_capacity(*final(c)) == lru_capacity(*old(c)),
        lru_contents(*final(c)) == lru_contents(*old(c)).remove(name@),
        match r {
            Some(ix) => {
                &&& lru_contents(*old(c)).contains_key(name@)
                &&& lru_contents(*old(c))[name@] == ix as int
                &&& lru_recency(*final(c)) == spec_drop_name(lru_recency(*old(c)), name@)
            },
            None => {
                &&& !lru_contents(*old(c)).contains_key(name@)
                &&& lru_recency(*final(c)) == lru_recency(*old(c))
            },
        },
    no_unwind
{
    c.pop(name)
}

/// A lazy loader's in-memory state: the normalized directory and
/// extension that template paths are built from, and a cache of
/// compiled templates bounded by least-recently-used eviction. The
/// cache maps each name to a slot holding its template; reading the
/// files themselves is its caller's part.
#[derive(Debug)]
pub struct FileLoader {
    pub(crate) templates_directory: String,
    pub(crate) templates_extension: String,
    pub(crate) cache: lru::LruCache<String, usize>,
    pub(crate) slots: Vec<Option<Template>>,
    pub(crate) free: Vec<usize>,
}

impl FileLoader {
    /// Every cached name points at a live slot of its own, freed
    /// slots are empty, and the cache never outgrows its capacity.
    #[verifier::type_invariant]
    pub(crate) open(crate) spec fn wf(&self) -> bool {
        let m = lru_contents(self.cache);
        &&& m.dom().finite()
        &&& m.dom().len() <= lru_capacity(self.cache)
        &&& forall|n: Seq<char>|
            m.contains_key(n) ==> 0 <= #[trigger] m[n] < self.slots@.len() && self.slots@[m[n]]
                is Some
        &&& forall|n1: Seq<char>, n2: Seq<char>|
            m.contains_key(n1) && m.contains_key(n2) && n1 != n2 ==> #[trigger] m[n1]
                != #[trigger] m[n2]
        &&& forall|i: int|
            0 <= i < self.free@.len() ==> 0 <= #[trigger] self.free@[i] < self.slots@.len()
                && self.slots@[self.free@[i] as int] is None
        &&& forall|i: int, j: int| 0 <= i < j < self.free@.len() ==> self.free@[i] != self.free@[j]
        &&& lru_capacity(self.cache) >= 1
    }

    /// The directory template paths start with.
    pub closed spec fn dir_model(&self) -> Seq<char> {
        self.templates_directory@
    }

    /// The extension template paths end with.
    pub closed spec fn ext_model(&self) -> Seq<char> {
        self.templates_extension@
    }

    /// The compiled templates this loader holds, by name.
    pub closed spec fn cached(&self) -> Map<Seq<char>, TplV> {
        Map::new(
            |n: Seq<char>| lru_contents(self.cache).contains_key(n),
            |n: Seq<char>| self.slots@[lru_contents(self.cache)[n]]->0@,
        )
    }

    /// The fixed number of templates the cache may hold at once.
    pub closed spec fn capacity(&self) -> int {
        lru_capacity(self.cache)
    }

    /// The cached names from most recently used to least recently
    /// used.
    pub closed spec fn recency(&self) -> Seq<Seq<char>> {
        lru_recency(self.cache)
    }

    /// Builds the loader from its configuration: the directory
    /// normalized to end with the separator, the extension to start
    /// with a dot, and an empty cache of capacity `cache_size`,
    /// which must be positive; the caller reports whether the
    /// directory exists.
    pub fn from_config(config: &LoaderConfig<'_>, dir_exists: bool) -> (r: Result<
        FileLoader,
        MoostacheError,
    >)
        ensures
            ({
                if config.cache_size == 0 {
                    r is Err && r->Err_0@ == ErrV::ConfigErrorNonPositiveCacheSize
                } else if !dir_exists {
                    r is Err && r->Err_0@ == ErrV::ConfigErrorInvalidTemplatesDirectory(
                        spec_norm_dir(config.templates_directory@),
                    )
                } else {
                    match r {
                        Ok(ld) => {
                            &&& ld.dir_model() == spec_norm_dir(config.templates_directory@)
                            &&& ld.ext_model() == spec_norm_ext(config.templates_extension@)
                            &&& ld.cached() == Map::<Seq<char>, TplV>::empty()
                            &&& ld.capacity() == config.cache_size
                            &&& ld.recency() == Seq::<Seq<char>>::empty()
                            &&& ld.cached().dom().len() <= ld.capacity()
                        },
                        Err(e) => false,
                    }
                }
            }),
    {
        let validated = match config.validate() {
            Err(e) => {
                return Err(e);
            },
            Ok(v) => v,
        };
        let (dir, ext, cache_size) = validated;
        if !dir_exists {
            return Err(MoostacheError::ConfigErrorInvalidTemplatesDirectory(dir));
        }
        let loader = FileLoader {
            templates_directory: dir,
            templates_extension: ext,
            cache: lru_new(cache_size),
            slots: Vec::new(),
            free: Vec::new(),
        };
        proof {
            assert(loader.cached() =~= Map::<Seq<char>, TplV>::empty());
            assert(loader.cached().dom() =~= Set::<Seq<char>>::empty());
        }
        Ok(loader)
    }

    /// The file path a template name maps to: directory, name,
    /// extension.
    pub fn template_path(&self, name: &str) -> (r: String)
        ensures
            r@ == self.dir_model() + name@ + self.ext_model(),
    {
        let mut path = self.templates_directory.clone();
        path.append(name);
        path.append(self.templates_extension.as_str());
        path
    }

    /// The cached template of the given name, its entry promoted to
    /// most recently used; nothing is loaded or dropped on a miss.
    pub fn get_cached(&mut self, name: &str) -> (r: Option<&Template>)
        ensures
            final(self).cached() == old(self).cached(),
            final(self).capacity() == old(self).capacity(),
            final(self).dir_model() == old(self).dir_model(),
            final(self).ext_model() == old(self).ext_model(),
            final(self).cached().dom().len() <= final(self).capacity(),
            match r {
                Some(t) => {
                    &&& old(self).cached().contains_key(name@)
                    &&& t@ == old(self).cached()[name@]
                    &&& final(self).recency() == spec_promote(old(self).recency(), name@)
                },
                None => {
                    &&& !old(self).cached().contains_key(name@)
                    &&& final(self).recency() == old(self).recency()
                },
            },
    {
        proof {
            use_type_invariant(&*self);
            assert(self.cached().dom() =~= lru_contents(self.cache).dom());
        }
        match lru_get(&mut self.cache, name) {
            None => None,
            Some(ix) => {
                proof {
                    assert(self.cached() =~= old(self).cached());
                    assert(self.cached().dom() =~= lru_contents(self.cache).dom());
                }
                self.slots[ix].as_ref()
            },
        }
    }

    /// Stores a compiled template under a name, as the most recently
    /// used entry. A template stored under the same name comes back;
    /// a new name is plainly added while the cache is below its
    /// capacity, and at capacity the least recently used entry — the
    /// last of the recency order — is evicted and dropped. The cache
    /// never holds more than `capacity()` templates.
    pub fn insert(&mut self, name: String, value: Template) -> (r: Option<Template>)
        ensures
            final(self).dir_model() == old(self).dir_model(),
            final(self).ext_model() == old(self).ext_model(),
            final(self).capacity() == old(self).capacity(),
            final(self).cached().dom().len() <= final(self).capacity(),
            ({
                let before = old(self).cached();
                let after = final(self).cached();
                if before.contains_key(name@) {
                    &&& r is Some
                    &&& r->0@ == before[name@]
                    &&& after == before.insert(name@, value@)
                    &&& final(self).recency() == spec_promote(old(self).recency(), name@)
                } else if before.dom().len() < old(self).capacity() {
                    &&& r is None
                    &&& after == before.insert(name@, value@)
                    &&& final(self).recency() == seq![name@] + old(self).recency()
                } else {
                    &&& r is None
                    &&& old(self).recency().len() > 0
                    &&& after == before.remove(old(self).recency().last()).insert(name@, value@)
                    &&& final(self).recency() == seq![name@] + old(self).recency().drop_last()
                }
            }),
    {
        proof {
            use_type_invariant(&*self);
            assert(self.cached().dom() =~= lru_contents(self.cache).dom());
        }
        let ghost nv = name@;
        let ghost vv = value@;
        // take the mutable state out, leaving a well-formed empty one
        let mut free: Vec<usize> = Vec::new();
        core::mem::swap(&mut self.free, &mut free);
        let mut cache = lru_new(1);
        core::mem::swap(&mut self.cache, &mut cache);
        let mut slots: Vec<Option<Template>> = Vec::new();
        core::mem::swap(&mut self.slots, &mut slots);
        // place the template in a slot of its own
        let ix: usize = match free.pop() {
            Some(ix) => {
                let mut slot = Some(value);
                core::mem::swap(&mut slots[ix], &mut slot);
                ix
            },
            None => {
                slots.push(Some(value));
                slots.len() - 1
            },
        };
        let evicted = lru_push(&mut cache, name.clone(), ix);
        let ghost evicted_model = match evicted {
            None => None,
            Some((ref k, v)) => Some((k@, v as int)),
        };
        let out = match evicted {
            None => None,
            Some(pair) => {
                let (ename, eix) = pair;
                let mut slot: Option<Template> = None;
                core::mem::swap(&mut slots[eix], &mut slot);
                if eix != ix {
                    free.push(eix);
                }
                if ename == name {
                    // the name's previous template comes back
                    slot
                } else {
                    // the least recently used entry was evicted and is dropped
                    None
                }
            },
        };
        // put the state back, innermost first
        core::mem::swap(&mut self.slots, &mut slots);
        core::mem::swap(&mut self.cache, &mut cache);
        core::mem::swap(&mut self.free, &mut free);
        proof {
            broadcast use vstd::set::axiom_set_insert_len;
            broadcast use vstd::set::axiom_set_remove_len;

            match evicted_model {
                None => {
                    assert(final(self).cached() =~= old(self).cached().insert(nv, vv));
                },
                Some((ek, ev)) => {
                    if ek == nv {
                        assert(final(self).cached() =~= old(self).cached().insert(nv, vv));
                    } else {
                        assert(final(self).cached() =~= old(self).cached().remove(ek).insert(
                            nv,
                            vv,
                        ));
                    }
                },
            }
            assert(final(self).cached().dom() =~= lru_contents(final(self).cache).dom());
        }
        out
    }

    /// Removes and returns the template stored under a name; its
    /// entry leaves the recency order.
    pub fn remove(&mut self, name: &str) -> (r: Option<Template>)
        ensures
            final(self).dir_model() == old(self).dir_model(),
            final(self).ext_model() == old(self).ext_model(),
            final(self).capacity() == old(self).capacity(),
            final(self).cached() == old(self).cached().remove(name@),
            final(self).cached().dom().len() <= final(self).capacity(),
            match r {
                Some(t) => {
                    &&& old(self).cached().contains_key(name@)
                    &&& t@ == old(self).cached()[name@]
                    &&& final(self).recency() == spec_drop_name(old(self).recency(), name@)
                },
                None => {
                    &&& !old(self).cached().contains_key(name@)
                    &&& final(self).recency() == old(self).recency()
                },
            },
    {
        proof {
            use_type_invariant(&*self);
            assert(self.cached().dom() =~= lru_contents(self.cache).dom());
        }
        match lru_pop(&mut self.cache, name) {
            None => {
                proof {
                    broadcast use vstd::set::axiom_set_remove_len;

                    assert(final(self).cached() =~= old(self).cached().remove(name@));
                    assert(final(self).cached().dom() =~= lru_contents(final(self).cache).dom());
                }
                None
            },
            Some(ix) => {
                let mut free: Vec<usize> = Vec::new();
                core::mem::swap(&mut self.free, &mut free);
                let mut cache = lru_new(1);
                core::mem::swap(&mut self.cache, &mut cache);
                let mut slots: Vec<Option<Template>> = Vec::new();
                core::mem::swap(&mut self.slots, &mut slots);
                let mut slot: Option<Template> = None;
                core::mem::swap(&mut slots[ix], &mut slot);
                free.push(ix);
                core::mem::swap(&mut self.slots, &mut slots);
                core::mem::swap(&mut self.cache, &mut cache);
                core::mem::swap(&mut self.free, &mut free);
                proof {
                    broadcast use vstd::set::axiom_set_remove_len;

                    assert(final(self).cached() =~= old(self).cached().remove(name@));
                    assert(final(self).cached().dom() =~= lru_contents(final(self).cache).dom());
                }
                slot
            },
        }
    }
}

} // verus!
