use eddie_crawler::visited::hash_title;
use eddie_crawler::visited::VisitedSet;

#[test]
fn hash_is_the_fnv_hash_of_the_bytes() {
    assert_eq!(hash_title(""), 0xcbf2_9ce4_8422_2325);
    assert_eq!(hash_title("a"), 0xaf63_dc4c_8601_ec8c);
    assert_eq!(hash_title("foobar"), 0x8594_4171_f739_67e8);
    assert_ne!(hash_title("é"), hash_title("e"));
}

#[test]
fn a_title_is_new_once() {
    let mut set = VisitedSet::new();
    assert_eq!(set.len(), 0);
    assert!(!set.contains(&"A".to_string()));
    assert!(set.insert(&"A".to_string()));
    assert!(set.contains(&"A".to_string()));
    assert!(!set.insert(&"A".to_string()));
    assert!(set.insert(&"a".to_string()));
    assert!(set.insert(&"".to_string()));
    assert!(!set.insert(&"".to_string()));
    assert_eq!(set.len(), 3);
}

#[test]
fn many_titles_are_kept_apart() {
    let mut set = VisitedSet::new();
    for number in 0..5000 {
        assert!(set.insert(&format!("Article {}", number)));
    }
    assert_eq!(set.len(), 5000);
    for number in 0..5000 {
        assert!(set.contains(&format!("Article {}", number)));
        assert!(!set.insert(&format!("Article {}", number)));
    }
    assert!(!set.contains(&"Article 5000".to_string()));
    assert_eq!(set.len(), 5000);
}
