use markrust_core::cache::{Fingerprint, RenderCache};
use markrust_core::service::RenderService;
use markrust_core::watch::WatchMultiplexer;

fn fp(path: &str, size: u64, time: u64, theme: &str) -> Fingerprint {
    Fingerprint::new(path, size, time, theme)
}

#[test]
fn put_then_get_returns_html() {
    let mut c = RenderCache::new(3);
    c.put(fp("a.md", 1, 1, "dark"), "A".to_string());
    assert_eq!(c.get(&fp("a.md", 1, 1, "dark")), Some("A".to_string()));
    assert_eq!(c.get(&fp("a.md", 1, 1, "light")), None);
    assert_eq!(c.get(&fp("a.md", 2, 1, "dark")), None);
    assert_eq!(c.len(), 1);
}

#[test]
fn least_recently_used_is_evicted() {
    let mut c = RenderCache::new(2);
    c.put(fp("a", 1, 1, "t"), "A".to_string());
    c.put(fp("b", 1, 1, "t"), "B".to_string());
    assert_eq!(c.get(&fp("a", 1, 1, "t")), Some("A".to_string()));
    c.put(fp("c", 1, 1, "t"), "C".to_string());
    assert_eq!(c.get(&fp("b", 1, 1, "t")), None);
    assert_eq!(c.get(&fp("a", 1, 1, "t")), Some("A".to_string()));
    assert_eq!(c.get(&fp("c", 1, 1, "t")), Some("C".to_string()));
    c.put(fp("c", 1, 1, "t"), "C2".to_string());
    assert_eq!(c.get(&fp("c", 1, 1, "t")), Some("C2".to_string()));
    assert_eq!(c.len(), 2);
}

#[test]
fn invalidation_is_scoped_to_the_path() {
    let mut c = RenderCache::new(10);
    c.put(fp("doc.md", 1, 1, "dark"), "D1".to_string());
    c.put(fp("doc.md", 1, 1, "light"), "L1".to_string());
    c.put(fp("doc.md", 5, 9, "dark"), "D2".to_string());
    c.put(fp("other.md", 1, 1, "dark"), "O".to_string());
    c.invalidate_path("doc.md");
    assert_eq!(c.len(), 1);
    assert_eq!(c.get(&fp("doc.md", 1, 1, "dark")), None);
    assert_eq!(c.get(&fp("doc.md", 1, 1, "light")), None);
    assert_eq!(c.get(&fp("doc.md", 5, 9, "dark")), None);
    assert_eq!(c.get(&fp("other.md", 1, 1, "dark")), Some("O".to_string()));
    c.invalidate_path("missing.md");
    assert_eq!(c.len(), 1);
}

#[test]
fn second_render_is_served_from_the_cache() {
    let mut s = RenderService::with_default_capacity();
    let f = fp("doc.md", 7, 100, "dark");
    assert_eq!(s.cached(&f), None);
    let first = s.render_and_store(f.copy(), "# Hi\n").unwrap();
    // the second request finds the rendering without reading the file
    let second = s.cached(&f).expect("cached");
    assert_eq!(first, second);
    assert!(first.contains("<h1>Hi</h1>"));
}

#[test]
fn failed_render_is_not_cached() {
    let mut s = RenderService::new(4);
    let f = fp("bad.json", 3, 1, "dark");
    assert!(s.render_and_store(f.copy(), "{").unwrap_err().starts_with("Invalid JSON: "));
    assert_eq!(s.cached(&f), None);
}

#[test]
fn renders_by_extension() {
    let mut s = RenderService::new(4);
    let t = s.render_and_store(fp("a.txt", 1, 1, "dark"), "<b>").unwrap();
    assert_eq!(t, "<div class=\"markdown-body\"><pre class=\"plain-text\">&lt;b&gt;</pre></div>");
    let j = s.render_and_store(fp("a.json", 1, 1, "dark"), "[1]").unwrap();
    assert!(j.contains("language-json"));
    let y = s.render_and_store(fp("a.yml", 1, 1, "dark"), "k: v").unwrap();
    assert!(y.contains("language-yaml"));
    let m = s.render_and_store(fp("a.md", 1, 1, "dark"), "# T").unwrap();
    assert!(m.contains("<h1>T</h1>"));
    let u = s.render_and_store(fp("notes", 1, 1, "dark"), "# T").unwrap();
    assert_eq!(u, "<div class=\"markdown-body\"><pre class=\"plain-text\"># T</pre></div>");
}

#[test]
fn burst_of_signals_notifies_once() {
    let mut w = WatchMultiplexer::new();
    assert!(!w.is_watched("f.md"));
    assert_eq!(w.subscribe("f.md", "win1"), None);
    assert_eq!(w.subscribe("f.md", "win2"), None);
    let timers: Vec<u64> = (0..5).map(|_| w.signal("f.md").unwrap()).collect();
    let mut notified: Vec<String> = Vec::new();
    for t in timers.iter() {
        notified.extend(w.timer_elapsed("f.md", *t));
    }
    assert_eq!(notified, vec!["win1".to_string(), "win2".to_string()]);
    assert!(w.timer_elapsed("f.md", *timers.last().unwrap()).is_empty());
}

#[test]
fn signals_for_unwatched_paths_are_ignored() {
    let mut w = WatchMultiplexer::new();
    assert_eq!(w.signal("nobody.md"), None);
    assert!(w.timer_elapsed("nobody.md", 0).is_empty());
}

#[test]
fn one_watch_for_two_consumers() {
    let mut w = WatchMultiplexer::new();
    let mut installs = 0;
    for c in ["a", "b"] {
        if !w.is_watched("p.md") {
            installs += 1;
        }
        assert_eq!(w.subscribe("p.md", c), None);
    }
    assert_eq!(installs, 1);
    assert_eq!(w.subscribers("p.md"), vec!["a".to_string(), "b".to_string()]);
    assert_eq!(w.unsubscribe("a"), None);
    assert!(w.is_watched("p.md"));
    assert_eq!(w.unsubscribe("b"), Some("p.md".to_string()));
    assert!(!w.is_watched("p.md"));
    assert_eq!(w.unsubscribe("b"), None);
}

#[test]
fn subscribing_twice_is_idempotent_and_moving_releases() {
    let mut w = WatchMultiplexer::new();
    assert_eq!(w.subscribe("x.md", "a"), None);
    assert_eq!(w.subscribe("x.md", "a"), None);
    assert_eq!(w.subscribers("x.md"), vec!["a".to_string()]);
    assert_eq!(w.subscribe("y.md", "a"), Some("x.md".to_string()));
    assert!(!w.is_watched("x.md"));
    assert_eq!(w.subscribers("y.md"), vec!["a".to_string()]);
}

#[test]
fn unsubscribing_cancels_pending_timer() {
    let mut w = WatchMultiplexer::new();
    w.subscribe("p.md", "a");
    let t = w.signal("p.md").unwrap();
    assert_eq!(w.unsubscribe("a"), Some("p.md".to_string()));
    w.subscribe("p.md", "b");
    assert!(w.timer_elapsed("p.md", t).is_empty());
}

#[test]
fn change_invalidates_before_notifying() {
    let mut s = RenderService::new(8);
    let old = fp("doc.md", 5, 10, "dark");
    let first = s.render_and_store(old.copy(), "old text").unwrap();
    assert!(first.contains("old text"));
    assert!(!s.is_watched("doc.md"));
    s.subscribe("doc.md", "view1");
    // two modifications within the debounce window
    let t1 = s.signal("doc.md").unwrap();
    let t2 = s.signal("doc.md").unwrap();
    assert!(s.timer_elapsed("doc.md", t1).is_empty());
    assert_eq!(s.cached(&old), Some(first.clone()));
    assert_eq!(s.timer_elapsed("doc.md", t2), vec!["view1".to_string()]);
    assert_eq!(s.cached(&old), None);
    let fresh = fp("doc.md", 8, 10, "dark");
    assert_eq!(s.cached(&fresh), None);
    let second = s.render_and_store(fresh, "new text").unwrap();
    assert!(second.contains("new text"));
}
