use hello_actix::{
    assign_ranks, display_name, find_jwk, greeting, isqrt, joke_cache_key, my_rank_entry,
    pick_joke_id, u64_to_dec, Jwk,
};

#[test]
fn greeting_matches_the_hello_route() {
    assert_eq!(greeting("world"), "hello world".to_string());
    assert_eq!(greeting(""), "hello ".to_string());
}

#[test]
fn decimal_rendering_is_exact() {
    assert_eq!(u64_to_dec(0), "0".to_string());
    assert_eq!(u64_to_dec(7), "7".to_string());
    assert_eq!(u64_to_dec(10), "10".to_string());
    assert_eq!(u64_to_dec(98765), "98765".to_string());
    assert_eq!(u64_to_dec(u64::MAX), u64::MAX.to_string());
}

#[test]
fn joke_cache_keys_follow_the_id_format() {
    assert_eq!(joke_cache_key(1), "joke:1".to_string());
    assert_eq!(joke_cache_key(10), "joke:10".to_string());
}

#[test]
fn joke_ids_stay_in_the_deck() {
    let mut seen = [false; 11];
    for _ in 0..200 {
        let id = pick_joke_id();
        assert!((1..=10).contains(&id));
        seen[id as usize] = true;
    }
    // A real draw varies; 200 identical ids would mean the source is stuck.
    assert!(seen.iter().filter(|&&s| s).count() > 1);
}

#[test]
fn integer_square_root_is_the_floor() {
    assert_eq!(isqrt(0), 0);
    assert_eq!(isqrt(1), 1);
    assert_eq!(isqrt(3), 1);
    assert_eq!(isqrt(4), 2);
    assert_eq!(isqrt(490000000000), 700000);
    assert_eq!(isqrt(692500000000), 832165);
}

#[test]
fn ranks_are_one_based_and_ordered() {
    let results = vec![
        ("alice".to_string(), 90),
        ("bob".to_string(), 75),
        ("carol".to_string(), 60),
    ];
    let entries = assign_ranks(&results);
    assert_eq!(entries.len(), 3);
    assert_eq!(entries[0].username, "alice");
    assert_eq!(entries[0].score, 90);
    assert_eq!(entries[0].rank, Some(1));
    assert_eq!(entries[2].username, "carol");
    assert_eq!(entries[2].rank, Some(3));
}

#[test]
fn my_rank_needs_both_score_and_rank() {
    assert!(my_rank_entry("dave".to_string(), None, Some(3)).is_none());
    assert!(my_rank_entry("dave".to_string(), Some(50), None).is_none());
    let e = my_rank_entry("dave".to_string(), Some(50), Some(3)).unwrap();
    assert_eq!(e.username, "dave");
    assert_eq!(e.score, 50);
    assert_eq!(e.rank, Some(4));
}

#[test]
fn display_name_prefers_the_preferred_username() {
    assert_eq!(
        display_name(Some("pref".to_string()), Some("full".to_string())),
        "pref".to_string()
    );
    assert_eq!(display_name(None, Some("full".to_string())), "full".to_string());
    assert_eq!(display_name(None, None), "Anonymous".to_string());
}

#[test]
fn jwks_lookup_finds_the_first_matching_key() {
    let keys = vec![
        Jwk { kid: "a".to_string(), n: "n1".to_string(), e: "e1".to_string() },
        Jwk { kid: "b".to_string(), n: "n2".to_string(), e: "e2".to_string() },
        Jwk { kid: "b".to_string(), n: "n3".to_string(), e: "e3".to_string() },
    ];
    let hit = find_jwk(&keys, &"b".to_string()).expect("key b exists");
    assert_eq!(hit.n, "n2");
    assert!(find_jwk(&keys, &"zz".to_string()).is_none());
}
