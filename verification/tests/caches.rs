use isac::lru_vector::LruVector;
use isac::search_cache::{SearchCache, UserSearchCache};

fn contents(v: &LruVector<String>) -> Vec<String> {
    v.iter().cloned().collect()
}

#[test]
fn lru_vector_puts_in_front_and_evicts_last() {
    let mut v: LruVector<String> = LruVector::new(3);
    assert!(v.is_empty());
    assert_eq!(v.put("a".to_string()), None);
    assert_eq!(v.put("b".to_string()), None);
    assert_eq!(v.put("c".to_string()), None);
    assert_eq!(contents(&v), vec!["c", "b", "a"]);
    assert_eq!(v.put("d".to_string()), Some("a".to_string()));
    assert_eq!(contents(&v), vec!["d", "c", "b"]);
    assert_eq!(v.len(), 3);
}

#[test]
fn lru_vector_put_present_moves_it() {
    let mut v: LruVector<String> = LruVector::new(3);
    v.put("a".to_string());
    v.put("b".to_string());
    v.put("c".to_string());
    assert_eq!(v.put("a".to_string()), None);
    assert_eq!(contents(&v), vec!["a", "c", "b"]);
}

#[test]
fn lru_vector_get_moves_to_front() {
    let mut v: LruVector<String> = LruVector::new(5);
    v.put("x".to_string());
    v.put("y".to_string());
    assert_eq!(v.get(&"x".to_string()).cloned(), Some("x".to_string()));
    assert_eq!(contents(&v), vec!["x", "y"]);
    assert_eq!(v.get(&"z".to_string()), None);
    assert!(v.contains(&"y".to_string()));
    assert!(!v.contains(&"z".to_string()));
}

#[test]
fn lru_vector_zero_capacity_keeps_nothing() {
    let mut v: LruVector<String> = LruVector::new(0);
    assert_eq!(v.put("a".to_string()), Some("a".to_string()));
    assert!(v.is_empty());
}

#[test]
fn search_cache_get_after_push() {
    let mut c = SearchCache::new();
    assert!(c.get(&7).is_none());
    let mut u = UserSearchCache::new(7);
    u.autocomplete_player.put("B2U (ASIA)".to_string());
    assert!(c.push_save(7, u).is_none());
    let found = c.get(&7).expect("pushed");
    assert_eq!(found.user_id, 7);
    assert_eq!(found.autocomplete_player.len(), 1);
}

#[test]
fn search_cache_evicts_the_least_recent_user() {
    let mut c = SearchCache::new();
    for id in 0..50u64 {
        assert!(c.push_save(id, UserSearchCache::new(id)).is_none());
    }
    // user 0 becomes the most recent, so user 1 is the least recent
    assert!(c.get(&0).is_some());
    let evicted = c.push_save(100, UserSearchCache::new(100)).expect("full cache");
    assert_eq!(evicted.user_id, 1);
    assert!(c.get(&1).is_none());
    assert!(c.get(&0).is_some());
    // pushing a user who is cached hands nothing back to save
    assert!(c.push_save(100, UserSearchCache::new(100)).is_none());
}

#[test]
fn user_cache_path() {
    assert_eq!(
        UserSearchCache::get_path(&1234),
        "./web_src/cache/user_search_history/1234.json"
    );
    let u = UserSearchCache::new(5);
    assert!(u.autocomplete_player.is_empty());
}

#[test]
fn lru_vector_holds_the_most_recent_values() {
    let mut v: LruVector<String> = LruVector::new(2);
    assert_eq!(v.capacity(), 2);
    v.put("a".to_string());
    v.put("b".to_string());
    assert!(v.get(&"a".to_string()).is_some());
    assert!(v.get(&"q".to_string()).is_none());
    v.put("c".to_string());
    v.put("a".to_string());
    assert_eq!(contents(&v), vec!["a", "c"]);
}

#[test]
fn record_lookup_puts_it_in_front_of_the_users_lookups() {
    let mut c = SearchCache::new();
    assert!(c.record_lookup(7, None, "B2U (ASIA)".to_string()).is_none());
    assert!(c.record_lookup(7, None, "CVptsd (EU)".to_string()).is_none());
    let found = c.get(&7).expect("recorded");
    assert_eq!(contents(&found.autocomplete_player), vec!["CVptsd (EU)", "B2U (ASIA)"]);
    let mut stored = UserSearchCache::new(8);
    stored.autocomplete_player.put("old".to_string());
    assert!(c.record_lookup(8, Some(stored), "new".to_string()).is_none());
    let found = c.get(&8).expect("recorded");
    assert_eq!(contents(&found.autocomplete_player), vec!["new", "old"]);
}

#[test]
fn record_lookup_hands_back_the_user_who_left() {
    let mut c = SearchCache::new();
    for u in 0..50u64 {
        assert!(c.record_lookup(u, None, "x".to_string()).is_none());
    }
    let left = c.record_lookup(99, None, "y".to_string()).expect("one user leaves");
    assert_eq!(left.user_id, 0);
}
