use kvstore::namespace::{data_file, name_char, recent_log, validate_namespace};
use kvstore::KvError;

#[test]
fn namespaces_of_safe_characters_are_accepted() {
    for name in ["default", "Work_2024", "a", "a.b-c", "...", ".hidden", "-", "_"] {
        assert!(validate_namespace(name).is_ok(), "{}", name);
    }
}

#[test]
fn dot_names_and_unsafe_characters_are_rejected() {
    for name in ["", ".", "..", "a/b", "a b", "é", "a\\b", "a:b", "../x", "a\n"] {
        match validate_namespace(name) {
            Err(KvError::InvalidInput(message)) => assert_eq!(message, format!("invalid namespace: {}", name)),
            other => panic!("unexpected for {:?}: {:?}", name, other),
        }
    }
}

#[test]
fn name_characters() {
    for c in ['a', 'z', 'A', 'Z', '0', '9', '_', '-', '.'] {
        assert!(name_char(c));
    }
    for c in ['/', ' ', '`', '{', '@', '[', ':', 'é', '\0'] {
        assert!(!name_char(c));
    }
}

#[test]
fn files_of_a_namespace() {
    assert_eq!(data_file("work").unwrap(), "work/data.db");
    assert_eq!(recent_log("work").unwrap(), "work/logs/recent.log");
    assert!(matches!(data_file(".."), Err(KvError::InvalidInput(_))));
    assert!(matches!(recent_log("a/b"), Err(KvError::InvalidInput(_))));
}
