use soundcloud_desktop::cache_dir::{
    cache_size, files_to_clear, list_cached_urns, CacheEntry, EntryMeta, Evictor,
};

fn file(name: &str, len: u64, last_used: i128) -> CacheEntry {
    CacheEntry {
        file_name: name.to_string(),
        meta: Some(EntryMeta { is_file: true, len, last_used }),
    }
}

fn dir(name: &str) -> CacheEntry {
    CacheEntry {
        file_name: name.to_string(),
        meta: Some(EntryMeta { is_file: false, len: 4096, last_used: 0 }),
    }
}

fn unreadable(name: &str) -> CacheEntry {
    CacheEntry { file_name: name.to_string(), meta: None }
}

const MB: u64 = 1024 * 1024;

#[test]
fn cache_size_counts_regular_files_only() {
    let es = vec![file("a.audio", 10, 0), dir("sub"), unreadable("b.audio"), file("c", 5, 0)];
    assert_eq!(cache_size(&es), 15);
    assert_eq!(cache_size(&vec![]), 0);
}

#[test]
fn clear_removes_every_regular_file() {
    let es = vec![file("a.audio", 10, 0), dir("sub"), unreadable("b"), file("c", 5, 0)];
    assert_eq!(files_to_clear(&es), vec![0, 3]);
}

#[test]
fn listing_keeps_complete_tracks_and_flags_short_ones() {
    let es = vec![
        file("soundcloud_tracks_1.audio", 8192, 0),
        file("soundcloud_tracks_2.audio", 100, 0),
        file("notes.txt", 1, 0),
        unreadable("soundcloud_tracks_3.audio"),
        file("x_y.audio", 9000, 0),
    ];
    let l = list_cached_urns(&es);
    assert_eq!(l.urns, vec!["soundcloud:tracks:1".to_string(), "x:y".to_string()]);
    assert_eq!(l.stale, vec![1, 3]);
}

#[test]
fn no_eviction_without_limit_or_when_it_fits() {
    let es = vec![file("a", 3 * MB, 1), file("b", 3 * MB, 2)];
    assert!(Evictor::start(&es, 0).is_none());
    assert!(Evictor::start(&es, 6).is_none());
    assert!(Evictor::start(&es, 5).is_some());
}

#[test]
fn eviction_deletes_least_recently_used_until_it_fits() {
    let es = vec![
        file("new", 2 * MB, 300),
        file("old", 2 * MB, 100),
        dir("d"),
        file("mid", 2 * MB, 200),
    ];
    let mut ev = Evictor::start(&es, 3).unwrap();
    assert_eq!(ev.next_victim(), Some(1));
    ev.record(true);
    assert_eq!(ev.next_victim(), Some(3));
    ev.record(true);
    assert_eq!(ev.next_victim(), None);
    assert_eq!(ev.removed_count(), 2);
    assert_eq!(ev.freed_bytes(), 4 * MB);
}

#[test]
fn eviction_ties_keep_listing_order() {
    let es = vec![file("b", 2 * MB, 50), file("a", 2 * MB, 50), file("c", 2 * MB, 10)];
    let mut ev = Evictor::start(&es, 1).unwrap();
    assert_eq!(ev.next_victim(), Some(2));
    ev.record(true);
    assert_eq!(ev.next_victim(), Some(0));
    ev.record(true);
    assert_eq!(ev.next_victim(), Some(1));
    ev.record(true);
    assert_eq!(ev.next_victim(), None);
    assert_eq!(ev.freed_bytes(), 6 * MB);
}

#[test]
fn failed_deletion_keeps_counting_and_moves_on() {
    let es = vec![file("a", 2 * MB, 1), file("b", 2 * MB, 2), file("c", 2 * MB, 3)];
    let mut ev = Evictor::start(&es, 4).unwrap();
    assert_eq!(ev.next_victim(), Some(0));
    ev.record(false);
    assert_eq!(ev.next_victim(), Some(1));
    ev.record(true);
    assert_eq!(ev.next_victim(), None);
    assert_eq!(ev.removed_count(), 1);
    assert_eq!(ev.freed_bytes(), 2 * MB);
}

#[test]
fn eviction_gives_up_when_every_file_was_offered() {
    let es = vec![file("a", 3 * MB, 1), file("b", 3 * MB, 2)];
    let mut ev = Evictor::start(&es, 1).unwrap();
    ev.record(false);
    ev.record(false);
    assert_eq!(ev.next_victim(), None);
    assert_eq!(ev.removed_count(), 0);
    assert_eq!(ev.freed_bytes(), 0);
}
