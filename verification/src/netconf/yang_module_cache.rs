//! Global YANG module text cache.
//!
//! The YANG specification guarantees that a `(module_name, revision)` pair
//! identifies stable content: any published change to a module MUST add a new
//! revision date ([RFC 7950], §11). A single instance of [`YangModuleCache`]
//! can therefore be shared across all routers and all SSH sessions: once a
//! module is fetched from any device, the NETCONF `get-schema` RPC ([RFC 6022])
//! can be skipped for it.
//!
//! [`ModuleStore`] is the cache of one owner, and says exactly what each
//! operation does. [`YangModuleCache`] puts one behind a lock, where other
//! threads may act between two calls: each of its operations is one operation
//! on the store as it finds it.
//!
//! ## Metrics
//!
//! | field | meaning |
//! |-------|---------|
//! | [`YangModuleCacheStats::hits`]   | `get-schema` RPC avoided (module already cached) |
//! | [`YangModuleCacheStats::misses`] | `get-schema` RPC issued (module not yet cached)  |
//! | [`YangModuleCacheStats::size`]   | number of distinct modules currently cached      |
//!
//! [RFC 6022]: https://www.rfc-editor.org/rfc/rfc6022
//! [RFC 7950]: https://www.rfc-editor.org/rfc/rfc7950
use crate::decimal::{
    is_digit, lemma_numeral_reads_back, numeral, numeral_chars, to_decimal_string,
};
use crate::text::{count, counted};
use std::marker::PhantomData;
use std::sync::Arc;
use vstd::hash_map::StringHashMap;
use vstd::prelude::*;
use vstd::rwlock::{ReadHandle, RwLock, RwLockPredicate, WriteHandle};

verus! {

/// Metrics counters exposed by [`YangModuleCache`].
#[derive(Debug, Clone, Copy, PartialEq, Eq, Structural)]
pub struct YangModuleCacheStats {
    /// Number of `get-schema` RPCs avoided because the module was already
    /// cached.
    pub hits: u64,
    /// Number of `get-schema` RPCs issued because the module was not yet
    /// cached.
    pub misses: u64,
    /// Current number of distinct `(name, revision)` entries in the cache.
    pub size: u64,
}

/// What a cache holds: the module texts by name and revision, and the counters.
pub struct StoreState {
    pub modules: Map<(Seq<char>, Seq<char>), Arc<str>>,
    pub stats: YangModuleCacheStats,
}

impl StoreState {
    /// The cache holds finitely many modules and has counted them.
    pub open spec fn consistent(self) -> bool {
        &&& self.modules.dom().finite()
        &&& self.stats.size == self.modules.len()
    }
}

/// The key that a module is filed under: `<length of name>@<name><revision>`. The
/// length tells where the name ends, so that no two modules share a key.
pub open spec fn module_key(name: Seq<char>, revision: Seq<char>) -> Seq<char> {
    numeral_chars(name.len()) + seq!['@'] + name + revision
}

/// A cache without modules.
pub open spec fn empty_store() -> StoreState {
    StoreState {
        modules: Map::empty(),
        stats: YangModuleCacheStats { hits: 0, misses: 0, size: 0 },
    }
}

/// The module text under a name and revision.
pub open spec fn cached(state: StoreState, name: Seq<char>, revision: Seq<char>) -> Option<
    Arc<str>,
> {
    if state.modules.contains_key((name, revision)) {
        Some(state.modules[(name, revision)])
    } else {
        None
    }
}

/// The cache after a lookup: a hit or a miss is counted.
pub open spec fn after_get(state: StoreState, name: Seq<char>, revision: Seq<char>) -> StoreState {
    if cached(state, name, revision) is Some {
        StoreState {
            stats: YangModuleCacheStats { hits: counted(state.stats.hits), ..state.stats },
            ..state
        }
    } else {
        StoreState {
            stats: YangModuleCacheStats { misses: counted(state.stats.misses), ..state.stats },
            ..state
        }
    }
}

/// The cache after an insertion: unchanged where the module was there.
pub open spec fn after_insert(
    state: StoreState,
    name: Seq<char>,
    revision: Seq<char>,
    text: Arc<str>,
) -> StoreState {
    if cached(state, name, revision) is Some {
        state
    } else {
        StoreState {
            modules: state.modules.insert((name, revision), text),
            stats: YangModuleCacheStats { size: (state.stats.size + 1) as u64, ..state.stats },
        }
    }
}

/// `Arc::clone` hands out another pointer to the same value.
#[verifier::external_body]
fn share<T: ?Sized>(pointer: &Arc<T>) -> (shared: Arc<T>)
    ensures
        shared == *pointer,
{
    Arc::clone(pointer)
}

/// A cache of raw YANG module texts with one owner.
pub struct ModuleStore {
    filed: StringHashMap<Arc<str>>,
    stats: YangModuleCacheStats,
    modules: Ghost<Map<(Seq<char>, Seq<char>), Arc<str>>>,
    /// Tells this store from others: it stays through every operation, and nothing
    /// is known of that of a new store.
    id: Ghost<int>,
}

impl View for ModuleStore {
    type V = StoreState;

    closed spec fn view(&self) -> StoreState {
        StoreState { modules: self.modules@, stats: self.stats }
    }
}

impl ModuleStore {
    /// What tells this store from others.
    pub closed spec fn id(self) -> int {
        self.id@
    }

    /// Each module is filed under its key, nothing else is, and the modules are
    /// counted.
    pub closed spec fn wf(self) -> bool {
        &&& self@.consistent()
        &&& self.filed@.dom().finite()
        &&& self.filed@.len() == self@.modules.len()
        &&& forall|name: Seq<char>, revision: Seq<char>| #[trigger]
            self.filed@.contains_key(module_key(name, revision)) == self@.modules.contains_key(
                (name, revision),
            )
        &&& forall|name: Seq<char>, revision: Seq<char>| #[trigger]
            self@.modules.contains_key((name, revision)) ==> self.filed@[module_key(
                name,
                revision,
            )] == self@.modules[(name, revision)]
    }

    /// The modules of a store are counted.
    pub proof fn lemma_wf_consistent(self)
        requires
            self.wf(),
        ensures
            self@.consistent(),
    {
    }

    pub fn new() -> (store: Self)
        ensures
            store@ == empty_store(),
            store.wf(),
    {
        ModuleStore {
            filed: StringHashMap::new(),
            stats: YangModuleCacheStats { hits: 0, misses: 0, size: 0 },
            modules: Ghost(Map::empty()),
            id: Ghost(arbitrary()),
        }
    }

    pub fn stats(&self) -> (stats: YangModuleCacheStats)
        ensures
            stats == self@.stats,
    {
        self.stats
    }

    /// Return the cached module text for `(name, revision)`, or `None` on miss.
    /// Increments the appropriate stats counter.
    pub fn get(&mut self, name: &str, revision: &str) -> (r: Option<Arc<str>>)
        requires
            old(self).wf(),
        ensures
            r == cached(old(self)@, name@, revision@),
            final(self)@ == after_get(old(self)@, name@, revision@),
            final(self).wf(),
            final(self).id() == old(self).id(),
    {
        let key = YangModuleCache::make_key(name, revision);
        let result = match self.filed.get(key.as_str()) {
            Some(text) => Some(share(text)),
            None => None,
        };
        if result.is_some() {
            self.stats.hits = count(self.stats.hits);
        } else {
            self.stats.misses = count(self.stats.misses);
        }
        result
    }

    /// Insert a module text.  First writer wins: if `(name, revision)` is
    /// already present the call is a no-op.  This is safe because identical
    /// `(name, revision)` always has identical content per the YANG spec.
    pub fn insert(&mut self, name: &str, revision: &str, text: Arc<str>)
        requires
            old(self).wf(),
        ensures
            final(self)@ == after_insert(old(self)@, name@, revision@, text),
            final(self).wf(),
            final(self).id() == old(self).id(),
    {
        let key = YangModuleCache::make_key(name, revision);
        if !self.filed.contains_key(key.as_str()) {
            self.filed.insert(key, text);
            let len: usize = self.filed.len();
            self.stats.size = len as u64;
            proof {
                self.modules@ = self.modules@.insert((name@, revision@), text);
                assert forall|n: Seq<char>, r: Seq<char>| #[trigger] module_key(n, r) == module_key(
                    name@,
                    revision@,
                ) implies n == name@ && r == revision@ by {
                    lemma_keys_are_distinct(n, r, name@, revision@);
                }
            }
        }
    }

    /// Number of entries currently in the cache.
    pub fn len(&self) -> (len: usize)
        requires
            self.wf(),
        ensures
            len == self@.modules.len(),
    {
        self.filed.len()
    }

    pub fn is_empty(&self) -> (r: bool)
        requires
            self.wf(),
        ensures
            r == self@.modules.dom().is_empty(),
    {
        self.filed.len() == 0
    }
}

/// What everyone who inserts modules into a shared cache promises of them.
pub trait ModulePromise {
    /// Whether the promise is kept by `text` as the text of a module.
    spec fn kept(name: Seq<char>, revision: Seq<char>, text: Arc<str>) -> bool;
}

/// No promise at all.
pub struct AnyText {}

impl ModulePromise for AnyText {
    open spec fn kept(name: Seq<char>, revision: Seq<char>, text: Arc<str>) -> bool {
        true
    }
}

/// What the lock of a shared cache guards: the one store with this id, which
/// operations have led to from `origin`, with consistent counters, of modules that
/// keep the promise.
pub struct PromisedStore<P> {
    pub id: int,
    pub origin: StoreState,
    pub promise: PhantomData<P>,
}

impl<P: ModulePromise> RwLockPredicate<ModuleStore> for PromisedStore<P> {
    open spec fn inv(self, store: ModuleStore) -> bool {
        &&& store.id() == self.id
        &&& store.wf()
        &&& promised::<P>(store@)
        &&& reached::<P>(self.origin, store@)
    }
}

/// An operation that changes a cache.
pub enum CacheOp {
    Get { name: Seq<char>, revision: Seq<char> },
    Insert { name: Seq<char>, revision: Seq<char>, text: Arc<str> },
}

/// The cache after an operation.
pub open spec fn after_op(state: StoreState, op: CacheOp) -> StoreState {
    match op {
        CacheOp::Get { name, revision } => after_get(state, name, revision),
        CacheOp::Insert { name, revision, text } => after_insert(state, name, revision, text),
    }
}

/// The cache after a history of operations, the first of them first.
pub open spec fn after_ops(state: StoreState, ops: Seq<CacheOp>) -> StoreState
    decreases ops.len(),
{
    if ops.len() == 0 {
        state
    } else {
        after_op(after_ops(state, ops.drop_last()), ops.last())
    }
}

/// Every insertion of a history keeps the promise.
pub open spec fn ops_kept<P: ModulePromise>(ops: Seq<CacheOp>) -> bool {
    forall|i: int|
        0 <= i < ops.len() ==> match #[trigger] ops[i] {
            CacheOp::Get { .. } => true,
            CacheOp::Insert { name, revision, text } => P::kept(name, revision, text),
        }
}

/// Lookups, and insertions that keep the promise, have led from one state to the
/// other.
pub open spec fn reached<P: ModulePromise>(origin: StoreState, state: StoreState) -> bool {
    exists|ops: Seq<CacheOp>| ops_kept::<P>(ops) && state == #[trigger] after_ops(origin, ops)
}

/// A history that is one operation longer.
proof fn lemma_reached_op<P: ModulePromise>(origin: StoreState, state: StoreState, op: CacheOp)
    requires
        reached::<P>(origin, state),
        ops_kept::<P>(seq![op]),
    ensures
        reached::<P>(origin, after_op(state, op)),
{
    let ops = choose|ops: Seq<CacheOp>|
        ops_kept::<P>(ops) && state == #[trigger] after_ops(origin, ops);
    let longer = ops.push(op);
    assert(longer.drop_last() =~= ops);
    assert forall|i: int| 0 <= i < longer.len() implies match #[trigger] longer[i] {
        CacheOp::Get { .. } => true,
        CacheOp::Insert { name, revision, text } => P::kept(name, revision, text),
    } by {
        if i < ops.len() {
            assert(longer[i] == ops[i]);
        } else {
            assert(longer[i] == seq![op][0]);
        }
    }
    assert(after_ops(origin, longer) == after_op(state, op));
}

/// A store with consistent counters, of modules that keep the promise.
pub open spec fn promised<P: ModulePromise>(state: StoreState) -> bool {
    &&& state.consistent()
    &&& forall|name: Seq<char>, revision: Seq<char>| #[trigger]
        state.modules.contains_key((name, revision)) ==> P::kept(
            name,
            revision,
            state.modules[(name, revision)],
        )
}

/// The text of the first insertion of a module in a history.
pub open spec fn first_text(ops: Seq<CacheOp>, name: Seq<char>, revision: Seq<char>) -> Option<
    Arc<str>,
>
    decreases ops.len(),
{
    if ops.len() == 0 {
        None
    } else {
        match first_text(ops.drop_last(), name, revision) {
            Some(text) => Some(text),
            None => match ops.last() {
                CacheOp::Insert { name: n, revision: r, text } => if n == name && r == revision {
                    Some(text)
                } else {
                    None
                },
                CacheOp::Get { .. } => None,
            },
        }
    }
}

/// The modules that a history inserts.
pub open spec fn inserted(ops: Seq<CacheOp>) -> Set<(Seq<char>, Seq<char>)> {
    Set::new(|module: (Seq<char>, Seq<char>)| first_text(ops, module.0, module.1) is Some)
}

/// After any history from the empty cache, the cache holds exactly the modules
/// that were inserted, each with the text that was inserted first, and their
/// number is what `len` tells, and `size` as far as it can count.
pub proof fn lemma_cache_is_its_history(ops: Seq<CacheOp>)
    ensures
        ({
            let state = after_ops(empty_store(), ops);
            &&& forall|name: Seq<char>, revision: Seq<char>| #[trigger]
                cached(state, name, revision) == first_text(ops, name, revision)
            &&& state.modules.dom() == inserted(ops)
            &&& state.modules.dom().finite()
            &&& state.modules.len() == inserted(ops).len()
            &&& state.modules.dom().is_empty() <==> inserted(ops).len() == 0
            &&& inserted(ops).len() <= u64::MAX ==> state.stats.size == inserted(ops).len()
        }),
{
    lemma_history(ops);
    let state = after_ops(empty_store(), ops);
    assert forall|name: Seq<char>, revision: Seq<char>| state.modules.contains_key(
        (name, revision),
    ) == #[trigger] inserted(ops).contains((name, revision)) by {
        assert(cached(state, name, revision) == first_text(ops, name, revision));
    }
    assert(state.modules.dom() =~= inserted(ops)) by {
        assert forall|module: (Seq<char>, Seq<char>)| state.modules.dom().contains(module)
            == inserted(ops).contains(module) by {
            assert(module == (module.0, module.1));
            assert(state.modules.contains_key((module.0, module.1)) == inserted(ops).contains(
                (module.0, module.1),
            ));
        }
    }
}

proof fn lemma_history(ops: Seq<CacheOp>)
    ensures
        ({
            let state = after_ops(empty_store(), ops);
            &&& forall|name: Seq<char>, revision: Seq<char>| #[trigger]
                cached(state, name, revision) == first_text(ops, name, revision)
            &&& state.modules.dom().finite()
            &&& state.modules.len() <= u64::MAX ==> state.stats.size == state.modules.len()
        }),
    decreases ops.len(),
{
    let state = after_ops(empty_store(), ops);
    if ops.len() > 0 {
        let before = ops.drop_last();
        let earlier = after_ops(empty_store(), before);
        lemma_history(before);
        assert forall|name: Seq<char>, revision: Seq<char>| #[trigger]
            cached(state, name, revision) == first_text(ops, name, revision) by {
            assert(cached(earlier, name, revision) == first_text(before, name, revision));
        }
    }
}

/// A thread-safe, globally-shared cache of raw YANG module texts.
///
/// Keyed by `(module_name, revision)`.  The value is the raw module text as
/// returned by a NETCONF `get-schema` RPC, stored as `Arc<str>` so that cache
/// hits are cheap pointer clones rather than full string copies.
///
/// Clone is cheap — clones share the same backing store and stats.
///
/// Other threads may act between two calls, so a call promises what it did to
/// the store that it found, not which store that was. That store is one which
/// lookups and insertions have led to from the empty cache, and through which
/// the promise `P` is handed on: what everyone who inserts a module promises of
/// it, everyone who gets one can rely on.
pub struct YangModuleCache<P: ModulePromise = AnyText> {
    inner: Arc<RwLock<ModuleStore, PromisedStore<P>>>,
}

impl<P: ModulePromise> Clone for YangModuleCache<P> {
    fn clone(&self) -> (copy: Self)
        ensures
            copy == *self,
    {
        YangModuleCache { inner: share(&self.inner) }
    }
}

impl YangModuleCache {
    /// A cache without modules, for modules of which nothing is promised.
    pub fn new() -> (cache: Self)
        ensures
            cache.origin() == empty_store(),
            cache.started_with(empty_store()),
    {
        Self::with_promise()
    }

    /// The key of a module.
    pub fn make_key(name: &str, revision: &str) -> (key: String)
        ensures
            key@ == module_key(name@, revision@),
    {
        proof {
            reveal_strlit("@");
        }
        let key = to_decimal_string(name.unicode_len()).concat("@").concat(name).concat(revision);
        assert(key@ =~= module_key(name@, revision@));
        key
    }
}

impl<P: ModulePromise> YangModuleCache<P> {
    /// The state that the history of the cache starts from.
    pub closed spec fn origin(self) -> StoreState {
        self.inner.pred().origin
    }

    /// Whether a call may find the cache in this state.
    pub open spec fn may_hold(self, state: StoreState) -> bool {
        promised::<P>(state) && reached::<P>(self.origin(), state)
    }

    /// The lock was made with this store in it.
    pub closed spec fn started_with(self, state: StoreState) -> bool {
        exists|store: ModuleStore, pred: Ghost<PromisedStore<P>>|
            {
                &&& #[trigger] call_ensures(
                    RwLock::<ModuleStore, PromisedStore<P>>::new,
                    (store, pred),
                    *self.inner,
                )
                &&& store@ == state
            }
    }

    /// A call found the store `seen` under the lock, and put the store `left` back
    /// in its place, with nothing in between. A call that promises this has to take
    /// the lock and to release it with that store: no other stores are known to
    /// have been found or put back.
    pub closed spec fn replaced(self, seen: StoreState, left: StoreState) -> bool {
        exists|found: ModuleStore, put: ModuleStore, handle: WriteHandle<ModuleStore, PromisedStore<P>>|
            {
                &&& #[trigger] call_ensures(
                    RwLock::<ModuleStore, PromisedStore<P>>::acquire_write,
                    (&*self.inner,),
                    (found, handle),
                )
                &&& #[trigger] call_ensures(
                    WriteHandle::<ModuleStore, PromisedStore<P>>::release_write,
                    (handle, put),
                    (),
                )
                &&& found@ == seen
                &&& put@ == left
            }
    }

    /// A call found the store `seen` under the lock, and left it as it was.
    pub closed spec fn observed(self, seen: StoreState) -> bool {
        exists|handle: ReadHandle<ModuleStore, PromisedStore<P>>|
            {
                &&& #[trigger] call_ensures(
                    RwLock::<ModuleStore, PromisedStore<P>>::acquire_read,
                    (&*self.inner,),
                    handle,
                )
                &&& handle@@ == seen
            }
    }

    /// A cache without modules, for modules that keep the promise `P`.
    pub fn with_promise() -> (cache: Self)
        ensures
            cache.origin() == empty_store(),
            cache.started_with(empty_store()),
    {
        let store = ModuleStore::new();
        proof {
            let ops = Seq::<CacheOp>::empty();
            assert(ops_kept::<P>(ops));
            assert(after_ops(empty_store(), ops) == store@);
        }
        let ghost start = store;
        let pred = Ghost(
            PromisedStore { id: store.id(), origin: empty_store(), promise: PhantomData },
        );
        let lock = RwLock::new(store, pred);
        let cache = YangModuleCache { inner: Arc::new(lock) };
        proof {
            assert(call_ensures(
                RwLock::<ModuleStore, PromisedStore<P>>::new,
                (start, pred),
                *cache.inner,
            ));
        }
        cache
    }

    /// The counters, all read at one moment.
    pub fn stats(&self) -> (stats: YangModuleCacheStats)
        ensures
            exists|seen: StoreState| #[trigger]
                self.observed(seen) && self.may_hold(seen) && stats == seen.stats,
    {
        let handle = self.inner.acquire_read();
        let stats = handle.borrow().stats();
        assert(self.observed(handle@@) && self.may_hold(handle@@));
        handle.release_read();
        stats
    }

    /// Return the cached module text for `(name, revision)`, or `None` on miss.
    /// Increments the appropriate stats counter.
    pub fn get(&self, name: &str, revision: &str) -> (r: Option<Arc<str>>)
        ensures
            exists|seen: StoreState, left: StoreState|
                {
                    &&& #[trigger] self.replaced(seen, left)
                    &&& self.may_hold(seen)
                    &&& self.may_hold(left)
                    &&& r == cached(seen, name@, revision@)
                    &&& left == after_get(seen, name@, revision@)
                    &&& r is Some <==> seen.modules.contains_key((name@, revision@))
                    &&& r is Some ==> r == Some(seen.modules[(name@, revision@)])
                    &&& left.modules == seen.modules
                },
            r matches Some(text) ==> P::kept(name@, revision@, text),
    {
        let (mut store, handle) = self.inner.acquire_write();
        let ghost found = store;
        let ghost held = handle;
        let result = store.get(name, revision);
        let ghost put = store;
        proof {
            let op = CacheOp::Get { name: name@, revision: revision@ };
            lemma_reached_op::<P>(self.origin(), found@, op);
        }
        handle.release_write(store);
        proof {
            assert(self.replaced(found@, put@)) by {
                assert(call_ensures(
                    RwLock::<ModuleStore, PromisedStore<P>>::acquire_write,
                    (&*self.inner,),
                    (found, held),
                ));
                assert(call_ensures(
                    WriteHandle::<ModuleStore, PromisedStore<P>>::release_write,
                    (held, put),
                    (),
                ));
            }
        }
        result
    }

    /// Insert a module text.  First writer wins: if `(name, revision)` is
    /// already present the call is a no-op.  This is safe because identical
    /// `(name, revision)` always has identical content per the YANG spec.
    pub fn insert(&self, name: &str, revision: &str, text: Arc<str>)
        requires
            P::kept(name@, revision@, text),
        ensures
            exists|seen: StoreState, left: StoreState|
                {
                    let module = (name@, revision@);
                    &&& #[trigger] self.replaced(seen, left)
                    &&& self.may_hold(seen)
                    &&& self.may_hold(left)
                    &&& left == after_insert(seen, name@, revision@, text)
                    &&& left.modules.contains_key(module)
                    &&& left.modules[module] == (if seen.modules.contains_key(module) {
                        seen.modules[module]
                    } else {
                        text
                    })
                    &&& left.modules.remove(module) == seen.modules.remove(module)
                },
    {
        let (mut store, handle) = self.inner.acquire_write();
        let ghost found = store;
        let ghost held = handle;
        proof {
            let op = CacheOp::Insert { name: name@, revision: revision@, text };
            assert(ops_kept::<P>(seq![op]));
            lemma_reached_op::<P>(self.origin(), store@, op);
        }
        store.insert(name, revision, text);
        let ghost put = store;
        handle.release_write(store);
        proof {
            assert(self.replaced(found@, put@)) by {
                assert(call_ensures(
                    RwLock::<ModuleStore, PromisedStore<P>>::acquire_write,
                    (&*self.inner,),
                    (found, held),
                ));
                assert(call_ensures(
                    WriteHandle::<ModuleStore, PromisedStore<P>>::release_write,
                    (held, put),
                    (),
                ));
            }
            assert(put@.modules.remove((name@, revision@)) =~= found@.modules.remove(
                (name@, revision@),
            ));
        }
    }

    /// Number of entries currently in the cache.
    pub fn len(&self) -> (len: usize)
        ensures
            exists|seen: StoreState| #[trigger]
                self.observed(seen) && self.may_hold(seen) && len == seen.modules.len(),
    {
        let handle = self.inner.acquire_read();
        let len: usize = handle.borrow().len();
        assert(self.observed(handle@@) && self.may_hold(handle@@));
        handle.release_read();
        len
    }

    pub fn is_empty(&self) -> (r: bool)
        ensures
            exists|seen: StoreState| #[trigger]
                self.observed(seen) && self.may_hold(seen) && r == seen.modules.dom().is_empty(),
    {
        let handle = self.inner.acquire_read();
        let empty = handle.borrow().is_empty();
        assert(self.observed(handle@@) && self.may_hold(handle@@));
        handle.release_read();
        empty
    }
}

impl Default for YangModuleCache {
    fn default() -> (cache: Self)
        ensures
            cache.origin() == empty_store(),
            cache.started_with(empty_store()),
    {
        Self::new()
    }
}

/// What a key is made of.
proof fn lemma_key_parts(name: Seq<char>, revision: Seq<char>)
    ensures
        ({
            let key = module_key(name, revision);
            let len = numeral(name.len());
            let start = len.len() as int + 1;
            &&& key.len() == start + name.len() + revision.len()
            &&& key[len.len() as int] == '@'
            &&& forall|i: int|
                0 <= i < len.len() ==> #[trigger] key[i] == len[i] as char && key[i] != '@' && 48
                    <= len[i] <= 57
            &&& key.subrange(start, start + name.len()) == name
            &&& key.skip(start + name.len()) == revision
        }),
{
    let key = module_key(name, revision);
    let len = numeral(name.len());
    let start = len.len() as int + 1;
    lemma_numeral_reads_back(name.len());
    assert(numeral_chars(name.len()).len() == len.len());
    assert forall|i: int| 0 <= i < len.len() implies #[trigger] key[i] == len[i] as char && key[i]
        != '@' && 48 <= len[i] <= 57 by {
        assert(is_digit(len[i]));
        assert(key[i] == numeral_chars(name.len())[i]);
    }
    assert(key.subrange(start, start + name.len()) =~= name);
    assert(key.skip(start + name.len()) =~= revision);
}

/// Modules share a key only where name and revision are the same.
pub proof fn lemma_keys_are_distinct(
    name1: Seq<char>,
    revision1: Seq<char>,
    name2: Seq<char>,
    revision2: Seq<char>,
)
    requires
        module_key(name1, revision1) == module_key(name2, revision2),
    ensures
        name1 == name2,
        revision1 == revision2,
{
    let key = module_key(name1, revision1);
    let len1 = numeral(name1.len());
    let len2 = numeral(name2.len());
    lemma_key_parts(name1, revision1);
    lemma_key_parts(name2, revision2);
    lemma_numeral_reads_back(name1.len());
    lemma_numeral_reads_back(name2.len());
    if len1.len() < len2.len() {
        assert(key[len1.len() as int] != '@');
    }
    if len2.len() < len1.len() {
        assert(key[len2.len() as int] != '@');
    }
    assert forall|i: int| 0 <= i < len1.len() implies len1[i] == len2[i] by {
        assert(key[i] == len1[i] as char);
        assert(key[i] == len2[i] as char);
        let a = len1[i];
        let b = len2[i];
        assert(a as char == b as char);
        assert(a == b);
    }
    assert(len1 =~= len2);
}

/// First writer wins: a module that is there stays as it is, whatever is
/// inserted later, and a module that is inserted first is what every later
/// lookup finds.
pub proof fn lemma_first_writer_wins(
    state: StoreState,
    name: Seq<char>,
    revision: Seq<char>,
    first: Arc<str>,
    second: Arc<str>,
)
    ensures
        ({
            let once = after_insert(state, name, revision, first);
            let twice = after_insert(once, name, revision, second);
            &&& twice == once
            &&& cached(once, name, revision) == (match cached(state, name, revision) {
                Some(text) => Some(text),
                None => Some(first),
            })
        }),
{
}

/// An insertion leaves every other module as it is, and a lookup leaves them all.
pub proof fn lemma_other_modules_untouched(
    state: StoreState,
    name: Seq<char>,
    revision: Seq<char>,
    text: Arc<str>,
    other_name: Seq<char>,
    other_revision: Seq<char>,
)
    requires
        name != other_name || revision != other_revision,
    ensures
        cached(after_insert(state, name, revision, text), other_name, other_revision) == cached(
            state,
            other_name,
            other_revision,
        ),
        after_get(state, name, revision).modules == state.modules,
{
}

/// A store counts as replaced only where the lock was taken and released with the
/// other store.
proof fn lemma_replaced_under_the_lock<P: ModulePromise>(
    cache: YangModuleCache<P>,
    seen: StoreState,
    left: StoreState,
)
    requires
        cache.replaced(seen, left),
    ensures
        exists|found: ModuleStore, put: ModuleStore, handle: WriteHandle<
            ModuleStore,
            PromisedStore<P>,
        >|
            {
                &&& #[trigger] call_ensures(
                    RwLock::<ModuleStore, PromisedStore<P>>::acquire_write,
                    (&*cache.inner,),
                    (found, handle),
                )
                &&& #[trigger] call_ensures(
                    WriteHandle::<ModuleStore, PromisedStore<P>>::release_write,
                    (handle, put),
                    (),
                )
                &&& found@ == seen
                &&& put@ == left
            },
{
}

/// A cache counts as started with a store only where its lock was made with it.
proof fn lemma_started_with_the_lock<P: ModulePromise>(
    cache: YangModuleCache<P>,
    state: StoreState,
)
    requires
        cache.started_with(state),
    ensures
        exists|store: ModuleStore, pred: Ghost<PromisedStore<P>>|
            {
                &&& #[trigger] call_ensures(
                    RwLock::<ModuleStore, PromisedStore<P>>::new,
                    (store, pred),
                    *cache.inner,
                )
                &&& store@ == state
            },
{
}

/// A store counts as observed only where the lock was taken for reading.
proof fn lemma_observed_under_the_lock<P: ModulePromise>(
    cache: YangModuleCache<P>,
    seen: StoreState,
)
    requires
        cache.observed(seen),
    ensures
        exists|handle: ReadHandle<ModuleStore, PromisedStore<P>>|
            {
                &&& #[trigger] call_ensures(
                    RwLock::<ModuleStore, PromisedStore<P>>::acquire_read,
                    (&*cache.inner,),
                    handle,
                )
                &&& handle@@ == seen
            },
{
}

/// A lookup finds a module exactly where it is cached, is counted as a hit or as a
/// miss, and changes nothing else.
pub proof fn lemma_lookups_are_counted(state: StoreState, name: Seq<char>, revision: Seq<char>)
    ensures
        ({
            let module = (name, revision);
            let after = after_get(state, name, revision);
            &&& cached(state, name, revision) is Some <==> state.modules.contains_key(module)
            &&& state.modules.contains_key(module) ==> {
                &&& cached(state, name, revision) == Some(state.modules[module])
                &&& after.stats.hits == (if state.stats.hits == u64::MAX {
                    0
                } else {
                    state.stats.hits + 1
                })
                &&& after.stats.misses == state.stats.misses
            }
            &&& !state.modules.contains_key(module) ==> {
                &&& after.stats.hits == state.stats.hits
                &&& after.stats.misses == (if state.stats.misses == u64::MAX {
                    0
                } else {
                    state.stats.misses + 1
                })
            }
            &&& after.stats.size == state.stats.size
            &&& after.modules == state.modules
        }),
{
}

/// An insertion stores a module that is not there, whatever else is there, and
/// leaves one that is. Lookups are not counted by it.
pub proof fn lemma_insertion_stores(
    state: StoreState,
    name: Seq<char>,
    revision: Seq<char>,
    text: Arc<str>,
)
    requires
        state.consistent(),
    ensures
        ({
            let module = (name, revision);
            let after = after_insert(state, name, revision, text);
            &&& after.modules.contains_key(module)
            &&& state.modules.contains_key(module) ==> after == state
            &&& !state.modules.contains_key(module) ==> {
                &&& after.modules == state.modules.insert(module, text)
                &&& after.modules.len() == state.modules.len() + 1
                &&& state.stats.size < u64::MAX ==> after.stats.size == state.stats.size + 1
            }
            &&& after.stats.hits == state.stats.hits
            &&& after.stats.misses == state.stats.misses
        }),
{
}

/// A module that is cached stays cached with its text, whatever operations follow:
/// every store that lookups and insertions lead to from here gives that text.
pub proof fn lemma_cached_module_stays<P: ModulePromise>(
    state: StoreState,
    later: StoreState,
    name: Seq<char>,
    revision: Seq<char>,
)
    requires
        cached(state, name, revision) is Some,
        reached::<P>(state, later),
    ensures
        cached(later, name, revision) == cached(state, name, revision),
{
    let ops = choose|ops: Seq<CacheOp>|
        ops_kept::<P>(ops) && later == #[trigger] after_ops(state, ops);
    lemma_cached_after_ops(state, ops, name, revision);
}

proof fn lemma_cached_after_ops(
    state: StoreState,
    ops: Seq<CacheOp>,
    name: Seq<char>,
    revision: Seq<char>,
)
    requires
        cached(state, name, revision) is Some,
    ensures
        cached(after_ops(state, ops), name, revision) == cached(state, name, revision),
    decreases ops.len(),
{
    if ops.len() > 0 {
        lemma_cached_after_ops(state, ops.drop_last(), name, revision);
    }
}

/// A module that was inserted is found by every later lookup: the store that a call
/// of `insert` leaves behind holds it, with the text that was there before or else
/// with the given one, and so does every store that operations lead to from there.
pub proof fn lemma_inserted_module_is_found<P: ModulePromise>(
    seen: StoreState,
    later: StoreState,
    name: Seq<char>,
    revision: Seq<char>,
    text: Arc<str>,
)
    requires
        reached::<P>(after_insert(seen, name, revision, text), later),
    ensures
        later.modules.contains_key((name, revision)),
        cached(later, name, revision) == Some(
            if seen.modules.contains_key((name, revision)) {
                seen.modules[(name, revision)]
            } else {
                text
            },
        ),
{
    lemma_cached_module_stays::<P>(
        after_insert(seen, name, revision, text),
        later,
        name,
        revision,
    );
}

/// The first text of a module in a history is that of an insertion of this module,
/// in front of which there is no other.
pub proof fn lemma_first_text(ops: Seq<CacheOp>, name: Seq<char>, revision: Seq<char>, i: int)
    requires
        0 <= i < ops.len(),
        ops[i] matches CacheOp::Insert { name: n, revision: r, text } && n == name && r
            == revision,
        forall|j: int|
            0 <= j < i ==> (#[trigger] ops[j] matches CacheOp::Insert { name: n, revision: r, text }
                ==> n != name || r != revision),
    ensures
        first_text(ops, name, revision) == Some(ops[i]->text),
    decreases ops.len(),
{
    let before = ops.drop_last();
    if i == ops.len() - 1 {
        lemma_no_text(before, name, revision);
    } else {
        assert(before[i] == ops[i]);
        assert forall|j: int| 0 <= j < i implies (#[trigger] before[j] matches CacheOp::Insert {
            name: n,
            revision: r,
            text,
        } ==> n != name || r != revision) by {
            assert(before[j] == ops[j]);
        }
        lemma_first_text(before, name, revision, i);
    }
}

/// A module that a history does not insert has no text.
pub proof fn lemma_no_text(ops: Seq<CacheOp>, name: Seq<char>, revision: Seq<char>)
    requires
        forall|j: int|
            0 <= j < ops.len() ==> (#[trigger] ops[j] matches CacheOp::Insert {
                name: n,
                revision: r,
                text,
            } ==> n != name || r != revision),
    ensures
        first_text(ops, name, revision) is None,
    decreases ops.len(),
{
    if ops.len() > 0 {
        let before = ops.drop_last();
        assert forall|j: int| 0 <= j < before.len() implies (
        #[trigger] before[j] matches CacheOp::Insert { name: n, revision: r, text } ==> n != name
            || r != revision) by {
            assert(before[j] == ops[j]);
        }
        assert(ops[ops.len() - 1] == ops.last());
        lemma_no_text(before, name, revision);
    }
}

} // verus!
