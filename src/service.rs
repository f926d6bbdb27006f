//! The façade used by the viewer: renders through the cache, and keeps the
//! cache coherent with the file-watch multiplexer.
//!
//! The host does the file system work: it reads a file's metadata to build a
//! fingerprint, asks `cached`, and only on a miss reads the file and calls
//! `render_and_store`. It runs the OS watches and debounce timers as
//! `subscribe`, `signal` and `timer_elapsed` direct.

use vstd::prelude::*;
use crate::cache::{cache_wf, get_result, get_spec, put_spec, without_path, Entry, Fingerprint, RenderCache};
use crate::document::{document_kind, document_kind_spec, render_document, render_ok, result_view};
use crate::highlight::Registry;
use crate::watch::{
    consumer_path, elapse_notified, elapse_spec, next_after, signal_spec, subscribe_spec, timer_current,
    unsubscribe_spec, watches_wf, Watch, WatchMultiplexer,
};

verus! {

/// The cache capacity used by `RenderService::with_default_capacity`.
pub const DEFAULT_CACHE_CAPACITY: usize = 50;

/// Renders documents through the render cache and keeps the cache coherent
/// with file changes reported through the watch multiplexer.
pub struct RenderService {
    registry: Registry,
    cache: RenderCache,
    watches: WatchMultiplexer,
}

impl RenderService {
    /// The cached renderings, most recently used first.
    pub closed spec fn entries(&self) -> Seq<Entry> {
        self.cache.entries()
    }

    /// The cache capacity.
    pub closed spec fn capacity(&self) -> nat {
        self.cache.capacity()
    }

    /// Each watched path and its state.
    pub closed spec fn watches(&self) -> Map<Seq<char>, Watch> {
        self.watches.watches()
    }

    /// The number the next debounce timer gets.
    pub closed spec fn next_timer(&self) -> u64 {
        self.watches.next_timer()
    }

    pub closed spec fn wf(&self) -> bool {
        self.cache.wf() && self.watches.wf()
    }

    /// A service with an empty cache of `capacity` renderings that watches
    /// nothing.
    pub fn new(capacity: usize) -> (r: RenderService)
        requires
            capacity > 0,
        ensures
            r.wf(),
            cache_wf(r.entries(), r.capacity()),
            watches_wf(r.watches()),
            r.entries() == Seq::<Entry>::empty(),
            r.capacity() == capacity,
            r.watches() == Map::<Seq<char>, Watch>::empty(),
    {
        let r = RenderService {
            registry: Registry::new(),
            cache: RenderCache::new(capacity),
            watches: WatchMultiplexer::new(),
        };
        proof {
            r.watches.lemma_wf();
        }
        r
    }

    /// A service whose cache holds `DEFAULT_CACHE_CAPACITY` renderings.
    pub fn with_default_capacity() -> (r: RenderService)
        ensures
            r.wf(),
            cache_wf(r.entries(), r.capacity()),
            watches_wf(r.watches()),
            r.entries() == Seq::<Entry>::empty(),
            r.capacity() == DEFAULT_CACHE_CAPACITY,
            r.watches() == Map::<Seq<char>, Watch>::empty(),
    {
        RenderService::new(DEFAULT_CACHE_CAPACITY)
    }

    /// The rendering cached for `f`, if any (a hit becomes the most recent).
    pub fn cached(&mut self, f: &Fingerprint) -> (r: Option<String>)
        requires
            old(self).wf(),
        ensures
            final(self).wf(),
            cache_wf(final(self).entries(), final(self).capacity()),
            watches_wf(final(self).watches()),
            final(self).capacity() == old(self).capacity(),
            final(self).watches() == old(self).watches(),
            final(self).next_timer() == old(self).next_timer(),
            final(self).entries() == get_spec(old(self).entries(), f@),
            match r {
                Some(h) => get_result(old(self).entries(), f@) == Some(h@),
                None => get_result(old(self).entries(), f@) is None,
            },
    {
        let r = self.cache.get(f);
        proof {
            self.watches.lemma_wf();
        }
        r
    }

    /// Renders `content`, the text of the file that `f` fingerprints, by the
    /// kind of its path, and caches a success under `f`. A failure leaves the
    /// cache as it was.
    pub fn render_and_store(&mut self, f: Fingerprint, content: &str) -> (r: Result<String, String>)
        requires
            old(self).wf(),
        ensures
            final(self).wf(),
            cache_wf(final(self).entries(), final(self).capacity()),
            watches_wf(final(self).watches()),
            final(self).capacity() == old(self).capacity(),
            final(self).watches() == old(self).watches(),
            final(self).next_timer() == old(self).next_timer(),
            render_ok(document_kind_spec(f.path@), content@, result_view(r)),
            match r {
                Ok(h) => final(self).entries() == put_spec(old(self).entries(), old(self).capacity(), f@, h@),
                Err(_) => final(self).entries() == old(self).entries(),
            },
    {
        let kind = document_kind(f.path.as_str());
        let r = render_document(&self.registry, kind, content);
        proof {
            self.watches.lemma_wf();
        }
        match r {
            Ok(h) => {
                self.cache.put(f, h.clone());
                Ok(h)
            },
            Err(e) => Err(e),
        }
    }

    /// Whether `path` has an OS watch.
    pub fn is_watched(&self, path: &str) -> (r: bool)
        requires
            self.wf(),
        ensures
            r == self.watches().contains_key(path@),
    {
        self.watches.is_watched(path)
    }

    /// Consumer `consumer` starts observing `path` (see
    /// `WatchMultiplexer::subscribe`).
    pub fn subscribe(&mut self, path: &str, consumer: &str) -> (r: Option<String>)
        requires
            old(self).wf(),
        ensures
            final(self).wf(),
            cache_wf(final(self).entries(), final(self).capacity()),
            watches_wf(final(self).watches()),
            final(self).entries() == old(self).entries(),
            final(self).capacity() == old(self).capacity(),
            final(self).next_timer() == old(self).next_timer(),
            final(self).watches() == subscribe_spec(old(self).watches(), path@, consumer@).0,
            match r {
                Some(p) => subscribe_spec(old(self).watches(), path@, consumer@).1 == Some(p@),
                None => subscribe_spec(old(self).watches(), path@, consumer@).1 is None,
            },
    {
        let r = self.watches.subscribe(path, consumer);
        proof {
            self.watches.lemma_wf();
        }
        r
    }

    /// Consumer `consumer` stops observing (see `WatchMultiplexer::unsubscribe`).
    pub fn unsubscribe(&mut self, consumer: &str) -> (r: Option<String>)
        requires
            old(self).wf(),
        ensures
            final(self).wf(),
            cache_wf(final(self).entries(), final(self).capacity()),
            watches_wf(final(self).watches()),
            final(self).entries() == old(self).entries(),
            final(self).capacity() == old(self).capacity(),
            final(self).next_timer() == old(self).next_timer(),
            final(self).watches() == unsubscribe_spec(old(self).watches(), consumer@).0,
            match r {
                Some(p) => unsubscribe_spec(old(self).watches(), consumer@).1 == Some(p@),
                None => unsubscribe_spec(old(self).watches(), consumer@).1 is None,
            },
            consumer_path(final(self).watches(), consumer@) is None,
    {
        let r = self.watches.unsubscribe(consumer);
        proof {
            self.watches.lemma_wf();
        }
        r
    }

    /// A raw change signal for `path` (see `WatchMultiplexer::signal`).
    pub fn signal(&mut self, path: &str) -> (r: Option<u64>)
        requires
            old(self).wf(),
        ensures
            final(self).wf(),
            cache_wf(final(self).entries(), final(self).capacity()),
            watches_wf(final(self).watches()),
            final(self).entries() == old(self).entries(),
            final(self).capacity() == old(self).capacity(),
            match r {
                Some(t) => old(self).watches().contains_key(path@) && t == old(self).next_timer()
                    && final(self).watches() == signal_spec(old(self).watches(), path@, t)
                    && final(self).next_timer() == next_after(t),
                None => !old(self).watches().contains_key(path@) && final(self).watches() == old(self).watches()
                    && final(self).next_timer() == old(self).next_timer(),
            },
    {
        let r = self.watches.signal(path);
        proof {
            self.watches.lemma_wf();
        }
        r
    }

    /// Debounce timer `timer` for `path` has elapsed. When it is the timer in
    /// flight, every cached rendering of `path` is dropped first, and then the
    /// subscribers to notify are returned, once each; otherwise nothing
    /// changes and nobody is returned.
    pub fn timer_elapsed(&mut self, path: &str, timer: u64) -> (r: Vec<String>)
        requires
            old(self).wf(),
        ensures
            final(self).wf(),
            cache_wf(final(self).entries(), final(self).capacity()),
            watches_wf(final(self).watches()),
            final(self).capacity() == old(self).capacity(),
            final(self).next_timer() == old(self).next_timer(),
            final(self).watches() == elapse_spec(old(self).watches(), path@, timer),
            r@.map_values(|s: String| s@) == elapse_notified(old(self).watches(), path@, timer),
            timer_current(old(self).watches(), path@, timer) ==> final(self).entries() == without_path(
                old(self).entries(),
                path@,
            ),
            !timer_current(old(self).watches(), path@, timer) ==> final(self).entries() == old(self).entries(),
    {
        let notified = self.watches.timer_elapsed(path, timer);
        if notified.len() > 0 {
            self.cache.invalidate_path(path);
        }
        proof {
            self.watches.lemma_wf();
        }
        notified
    }
}

} // verus!
