use qaqh_workspace::file_cache::{check, clear, hash_content, invalidate, store, FileCache, MAX_CACHE};
use qaqh_workspace::file_shared::content_hash;

#[test]
fn unchanged_content_is_not_sent_again() {
    let mut cache = FileCache::new();
    store(&mut cache, "a.rs", "fn a() {}\n", 1);
    let hit = check(&mut cache, "a.rs", "fn a() {}\n").expect("it has not changed");
    let short = hash_content("fn a() {}\n")[..8].to_string();
    assert_eq!(hit.hash, content_hash("fn a() {}\n"));
    assert_eq!(hit.cache_hash, short);
    assert_eq!(hit.total_lines, 1);
    assert_eq!(hit.content, format!("a.rs unchanged (hash={short})"));
}

#[test]
fn changed_content_is_sent() {
    let mut cache = FileCache::new();
    store(&mut cache, "a.rs", "one", 1);
    assert_eq!(check(&mut cache, "a.rs", "two"), None);
    assert_eq!(check(&mut cache, "b.rs", "one"), None);
    assert!(check(&mut cache, "a.rs", "one").is_some());
}

#[test]
fn a_file_read_twice_in_a_row_is_sent_again() {
    let mut cache = FileCache::new();
    store(&mut cache, "a.rs", "one", 1);
    assert!(check(&mut cache, "a.rs", "one").is_some());
    assert_eq!(check(&mut cache, "a.rs", "one"), None);
    assert_eq!(check(&mut cache, "b.rs", "x"), None);
    assert!(check(&mut cache, "a.rs", "one").is_some());
}

#[test]
fn forgotten_files_are_sent_again() {
    let mut cache = FileCache::new();
    store(&mut cache, "a.rs", "one", 1);
    store(&mut cache, "b.rs", "two", 1);
    invalidate(&mut cache, "a.rs");
    assert_eq!(cache.len(), 1);
    assert_eq!(check(&mut cache, "a.rs", "one"), None);
    assert!(check(&mut cache, "b.rs", "two").is_some());
    clear(&mut cache);
    assert_eq!(cache.len(), 0);
    assert_eq!(check(&mut cache, "b.rs", "two"), None);
}

#[test]
fn the_oldest_file_makes_room() {
    let mut cache = FileCache::new();
    for i in 0..MAX_CACHE {
        store(&mut cache, &format!("{i}.rs"), "x", 1);
    }
    store(&mut cache, "0.rs", "x", 1);
    assert_eq!(cache.len(), MAX_CACHE);
    store(&mut cache, "new.rs", "x", 1);
    assert_eq!(cache.len(), MAX_CACHE);
    assert_eq!(check(&mut cache, "1.rs", "x"), None);
    assert!(check(&mut cache, "0.rs", "x").is_some());
    assert!(check(&mut cache, "new.rs", "x").is_some());
}

#[test]
fn fingerprints_are_sixteen_hexadecimal_digits() {
    let a = hash_content("a");
    assert_eq!(a.len(), 16);
    assert!(a.chars().all(|c| c.is_ascii_digit() || ('a'..='f').contains(&c)), "{a}");
    assert_eq!(a, hash_content("a"));
    assert_ne!(a, hash_content("b"));
    let mut h = std::collections::hash_map::DefaultHasher::new();
    std::hash::Hash::hash("a", &mut h);
    assert_eq!(a, format!("{:016x}", std::hash::Hasher::finish(&h)));
}

#[test]
fn a_file_just_used_is_not_the_one_to_go() {
    let mut cache = FileCache::new();
    for i in 0..MAX_CACHE {
        store(&mut cache, &format!("p{i}"), &format!("c{i}"), 1);
    }
    assert!(check(&mut cache, "p0", "c0").is_some());
    store(&mut cache, "p64", "c64", 1);
    assert_eq!(cache.len(), MAX_CACHE);
    assert_eq!(check(&mut cache, "x", ""), None);
    assert!(check(&mut cache, "p0", "c0").is_some());
    assert_eq!(check(&mut cache, "p1", "c1"), None);
    assert!(check(&mut cache, "p64", "c64").is_some());
}
