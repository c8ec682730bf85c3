use crate::asset::AssetValue;
use crate::error::{Error, Status};
use crate::formats::Format;
use crate::path::{display_spec, open_byte_source, parse_spec, Path, PathV, Source};
use crate::strutil::{chars_to_string, str_to_chars};
use std::collections::HashMap;
use std::rc::Rc;
use std::sync::Arc;
use vstd::prelude::*;
use vstd::rwlock::{RwLock, RwLockPredicate};

verus! {

broadcast use vstd::std_specs::hash::group_hash_axioms;

/// A strong handle to a cached asset: a per-thread wrapper around the
/// cross-thread shared asset, so that reuse within one thread touches no
/// atomic reference count.
pub type Handle = Rc<Arc<AssetValue>>;

/// A non-owning reference to a shared asset, held by the process-wide cache
/// tier. Relies on std::sync::Weak, which never keeps its target alive.
#[verifier::external_body]
pub struct WeakShared {
    w: std::sync::Weak<AssetValue>,
}

/// Relies on std::sync::Arc::downgrade: makes a non-owning reference to the
/// shared asset.
#[verifier::external_body]
fn weak_shared_of(a: &Arc<AssetValue>) -> WeakShared {
    WeakShared { w: Arc::downgrade(a) }
}

/// Relies on std::sync::Weak::upgrade: yields a strong reference while the
/// asset is still owned somewhere, and nothing once every strong owner is
/// gone. Which of the two happens depends on the process's runtime state, so
/// nothing is assumed of the outcome; the loader re-checks the tag of
/// whatever comes back before handing it out.
#[verifier::external_body]
fn weak_shared_get(w: &WeakShared) -> Option<Arc<AssetValue>> {
    w.w.upgrade()
}

/// A non-owning reference to a thread-local handle, held by the per-thread
/// cache tier. Relies on std::rc::Weak.
#[verifier::external_body]
pub struct WeakLocal {
    w: std::rc::Weak<Arc<AssetValue>>,
}

/// Relies on std::rc::Rc::downgrade: makes a non-owning reference to the
/// thread-local handle.
#[verifier::external_body]
fn weak_local_of(h: &Handle) -> WeakLocal {
    WeakLocal { w: Rc::downgrade(h) }
}

/// Relies on std::rc::Weak::upgrade: yields the handle while it is still
/// owned in this thread, and nothing once it is gone. Nothing is assumed of
/// the outcome; the loader re-checks the tag of whatever comes back.
#[verifier::external_body]
fn weak_local_get(w: &WeakLocal) -> Option<Handle> {
    w.w.upgrade()
}

pub struct CachePred;

impl RwLockPredicate<HashMap<u64, WeakShared>> for CachePred {
    open spec fn inv(self, v: HashMap<u64, WeakShared>) -> bool {
        true
    }
}

/// The process-wide cache tier: a table from cache key to a non-owning
/// reference to the shared asset, guarded by a reader/writer lock. Lookups
/// take the lock for reading; only the brief table mutation on insert takes
/// it for writing — parsing happens outside the lock.
pub struct AssetCache {
    table: RwLock<HashMap<u64, WeakShared>, CachePred>,
}

impl AssetCache {
    /// A fresh, empty cache. Constructed explicitly so that callers (and
    /// tests) can hold isolated cache instances.
    pub fn new() -> AssetCache {
        AssetCache { table: RwLock::new(HashMap::new(), Ghost(CachePred)) }
    }
}

/// The per-thread cache tier: a table from cache key to a non-owning
/// reference to this thread's handle. Never shared, so never locked.
pub struct LocalCache {
    table: HashMap<u64, WeakLocal>,
}

impl LocalCache {
    /// The table's contents, so contracts can speak of the thread-local tier.
    pub closed spec fn entries(&self) -> Map<u64, WeakLocal> {
        self.table@
    }

    pub fn new() -> (c: LocalCache)
        ensures
            c.entries() == Map::<u64, WeakLocal>::empty(),
    {
        LocalCache { table: HashMap::new() }
    }
}

// ------------------------------------------------------------------
// Cache key derivation.
// ------------------------------------------------------------------

/// One mixing step of the 64-bit digest.
pub open spec fn fnv_step(h: u64, s: u64) -> u64 {
    (h ^ s).wrapping_mul(0x100000001b3)
}

/// The digest of a symbol sequence.
pub open spec fn fnv_fold(syms: Seq<u64>) -> u64
    decreases syms.len(),
{
    if syms.len() == 0 {
        0xcbf29ce484222325
    } else {
        fnv_step(fnv_fold(syms.drop_last()), syms.last())
    }
}

pub open spec fn char_syms(q: Seq<char>) -> Seq<u64> {
    Seq::new(q.len(), |i: int| q[i] as u64)
}

/// The locator's identity as a symbol sequence: a variant marker, the path's
/// characters, and the chunk id when present. Two textually different but
/// semantically equal locators yield the same symbols.
pub open spec fn path_syms(p: PathV) -> Seq<u64> {
    match p {
        PathV::File(q) => seq![0u64] + char_syms(q),
        PathV::Chunk(q, oid) => match oid {
            None => seq![1u64] + char_syms(q) + seq![2u64],
            Some(id) => seq![1u64] + char_syms(q) + seq![3u64, id as u64, (id >> 64) as u64],
        },
    }
}

/// The cache key: the locator's identity folded with the format type's
/// identity. Deterministic; collisions across distinct pairs are possible and
/// are guarded against by the tag check on retrieval.
pub open spec fn key_spec(p: PathV, format_id: u64) -> u64 {
    fnv_fold(path_syms(p) + seq![format_id])
}

/// The context wrapped around a byte-source or parse failure: the locator's
/// canonical text and the format's name, then the underlying message.
pub open spec fn load_err_msg(p: PathV, label: Seq<char>, inner: Seq<char>) -> Seq<char> {
    "parsing asset "@ + display_spec(p) + " with format "@ + label + ": "@ + inner
}

/// The diagnostic for an asset whose recorded type is not the expected one.
pub open spec fn mismatch_msg(label: Seq<char>) -> Seq<char> {
    "Expected didn't find asset of type: "@ + label
}

fn push_chars(syms: &mut Vec<u64>, q: &String)
    ensures
        final(syms)@ == old(syms)@ + char_syms(q@),
{
    let cs = str_to_chars(q.as_str());
    let mut i: usize = 0;
    while i < cs.len()
        invariant
            i <= cs.len(),
            cs@ == q@,
            syms@ == old(syms)@ + char_syms(q@).take(i as int),
        decreases cs.len() - i,
    {
        syms.push(cs[i] as u64);
        i = i + 1;
        proof {
            assert(char_syms(q@).take(i as int) =~= char_syms(q@).take(i as int - 1).push(
                q@[i as int - 1] as u64,
            ));
        }
    }
    proof {
        assert(char_syms(q@).take(q@.len() as int) =~= char_syms(q@));
    }
}

fn fnv_exec(syms: &Vec<u64>) -> (k: u64)
    ensures
        k == fnv_fold(syms@),
{
    let mut h: u64 = 0xcbf29ce484222325;
    let mut i: usize = 0;
    while i < syms.len()
        invariant
            i <= syms.len(),
            h == fnv_fold(syms@.take(i as int)),
        decreases syms.len() - i,
    {
        h = (h ^ syms[i]).wrapping_mul(0x100000001b3);
        i = i + 1;
        proof {
            assert(syms@.take(i as int).drop_last() =~= syms@.take(i as int - 1));
            assert(syms@.take(i as int).last() == syms@[i as int - 1]);
        }
    }
    proof {
        assert(syms@.take(syms@.len() as int) =~= syms@);
    }
    h
}

/// Derives the cache key for a locator under a format type's identity.
pub fn derive_key(p: &Path, format_id: u64) -> (k: u64)
    ensures
        k == key_spec(p@, format_id),
{
    let mut syms: Vec<u64> = Vec::new();
    match p {
        Path::File(q) => {
            syms.push(0);
            proof {
                assert(syms@ =~= seq![0u64]);
            }
            push_chars(&mut syms, q);
        },
        Path::Chunk(q, oid) => {
            syms.push(1);
            proof {
                assert(syms@ =~= seq![1u64]);
            }
            push_chars(&mut syms, q);
            match oid {
                None => syms.push(2),
                Some(id) => {
                    syms.push(3);
                    syms.push(*id as u64);
                    syms.push((*id >> 64) as u64);
                },
            }
        },
    }
    syms.push(format_id);
    proof {
        assert(syms@ =~= path_syms(p@) + seq![format_id]);
    }
    fnv_exec(&syms)
}

// ------------------------------------------------------------------
// The loader.
// ------------------------------------------------------------------

/// Opens the locator's byte source and parses it; the cache is not involved.
/// Every failure — an open failure as much as a parse failure — is wrapped
/// with the locator's canonical text and the format's name, its category kept.
fn load_asset<F: Format, S: Source>(path: &Path, format: &F, io: &S) -> (r: Result<
    AssetValue,
    Error,
>)
    ensures
        r matches Ok(a) ==> a.tag_spec() == F::tag_spec(),
        r matches Err(e) ==> exists|inner: Seq<char>|
            e.message@ == load_err_msg(path@, F::label_spec(), inner),
        (path@ matches PathV::Chunk(_, oid) && oid is None) ==> (r matches Err(e) && e.status
            == Status::Unimplemented),
{
    let parsed: Result<F::Output, Error> = match open_byte_source(path, io) {
        Ok(src) => format.parse(&src),
        Err(e) => Err(e),
    };
    match parsed {
        Ok(out) => Ok(F::into_asset(out)),
        Err(e) => {
            let mut msg = str_to_chars("parsing asset ");
            let shown = path.display();
            let mut d = str_to_chars(shown.as_str());
            msg.append(&mut d);
            let mut mid = str_to_chars(" with format ");
            msg.append(&mut mid);
            let lbl = F::label();
            let mut lb = str_to_chars(lbl.as_str());
            msg.append(&mut lb);
            let mut sep = str_to_chars(": ");
            msg.append(&mut sep);
            let mut em = str_to_chars(e.message.as_str());
            msg.append(&mut em);
            proof {
                assert(msg@ =~= load_err_msg(path@, F::label_spec(), e.message@));
            }
            Err(Error::new(e.status, chars_to_string(&msg)))
        },
    }
}

/// Installs a freshly parsed asset into the process-wide tier, overwriting
/// any stale entry under that key, and returns the strong reference.
fn insert_cache(key: u64, value: AssetValue, global: &AssetCache) -> (a: Arc<AssetValue>)
    ensures
        a == value,
{
    let asset = Arc::new(value);
    let w = weak_shared_of(&asset);
    let (mut tbl, write_handle) = global.table.acquire_write();
    tbl.insert(key, w);
    write_handle.release_write(tbl);
    asset
}

/// How the process-wide tier satisfied a request: by upgrading a still-live
/// entry, or by parsing anew and installing the result. An upgraded entry's
/// type is whatever an earlier load put there, so only a fresh parse carries
/// a tag promise; the loader re-checks the tag in either case.
enum CacheOutcome {
    Hit(Arc<AssetValue>),
    Fresh(Arc<AssetValue>),
}

/// Consults the process-wide tier under a read lock; on a miss or a stale
/// entry, releases the lock, parses, and installs the result. Two racing
/// misses may both parse; each still returns a fresh, correctly tagged asset.
fn load_cache<F: Format, S: Source>(
    key: u64,
    path: &Path,
    format: &F,
    global: &AssetCache,
    io: &S,
) -> (r: Result<CacheOutcome, Error>)
    ensures
        r matches Ok(o) ==> (o matches CacheOutcome::Fresh(a) ==> (*a).tag_spec()
            == F::tag_spec()),
        r matches Err(e) ==> exists|inner: Seq<char>|
            e.message@ == load_err_msg(path@, F::label_spec(), inner),
{
    let read_handle = global.table.acquire_read();
    let hit: Option<Arc<AssetValue>> = match read_handle.borrow().get(&key) {
        Some(w) => weak_shared_get(w),
        None => None,
    };
    read_handle.release_read();
    match hit {
        Some(a) => Ok(CacheOutcome::Hit(a)),
        None => match load_asset(path, format, io) {
            Ok(v) => Ok(CacheOutcome::Fresh(insert_cache(key, v, global))),
            Err(e) => Err(e),
        },
    }
}

/// Loads the asset the locator text names, parsed by `format`, through the
/// two cache tiers: the thread-local table first, then the process-wide
/// table, and only then the format's parser against a byte source opened from
/// the locator through `io`.
///
/// Every handle returned carries an asset of exactly the format's declared
/// output type: before returning, the recorded tag of the (possibly cached)
/// asset is compared with the format's tag, and a mismatch — a key collision,
/// or a different format type reusing the key — fails with `InvalidArgument`
/// naming the expected type, never yielding a mistyped value. A malformed
/// locator text fails with the parse error before any cache or source is
/// touched.
pub fn load<F: Format, S: Source>(
    text: &str,
    format: &F,
    global: &AssetCache,
    local: &mut LocalCache,
    io: &S,
) -> (r: Result<Handle, Error>)
    ensures
        r matches Ok(h) ==> (**h).tag_spec() == F::tag_spec(),
        parse_spec(text@) matches Err(st) ==> (r matches Err(e) && e.status == st),
        parse_spec(text@) is Err ==> final(local).entries() == old(local).entries(),
        parse_spec(text@) matches Ok(pv) ==> final(local).entries().remove(
            key_spec(pv, F::id_spec()),
        ) == old(local).entries().remove(key_spec(pv, F::id_spec())),
        parse_spec(text@) matches Ok(pv) ==> (r is Ok
            ==> final(local).entries().dom().contains(key_spec(pv, F::id_spec()))),
        parse_spec(text@) matches Ok(pv) ==> (r matches Err(e) ==> (e.message@ == mismatch_msg(
            F::label_spec(),
        ) || exists|inner: Seq<char>|
            e.message@ == load_err_msg(pv, F::label_spec(), inner))),
{
    let path = match Path::parse(text) {
        Ok(p) => p,
        Err(e) => {
            return Err(e);
        },
    };
    let key = derive_key(&path, F::format_id());
    let local_hit: Option<Handle> = match local.table.get(&key) {
        Some(w) => weak_local_get(w),
        None => None,
    };
    let handle: Handle = match local_hit {
        Some(h) => h,
        None => {
            let outcome = match load_cache(key, &path, format, global, io) {
                Ok(o) => o,
                Err(e) => {
                    return Err(e);
                },
            };
            let a: Arc<AssetValue> = match outcome {
                CacheOutcome::Hit(a) => a,
                CacheOutcome::Fresh(a) => a,
            };
            let h: Handle = Rc::new(a);
            let w = weak_local_of(&h);
            local.table.insert(key, w);
            proof {
                assert(local.entries().remove(key) =~= old(local).entries().remove(key));
            }
            h
        },
    };
    // recover the concrete type: compare the recorded identity with the
    // format's expectation before handing the asset out
    let stored: &AssetValue = &**handle;
    if stored.tag() == F::tag() {
        Ok(handle)
    } else {
        let mut msg = str_to_chars("Expected didn't find asset of type: ");
        let lbl = F::label();
        let mut lb = str_to_chars(lbl.as_str());
        msg.append(&mut lb);
        proof {
            assert(msg@ =~= mismatch_msg(F::label_spec()));
        }
        Err(Error::new(Status::InvalidArgument, chars_to_string(&msg)))
    }
}

} // verus!
