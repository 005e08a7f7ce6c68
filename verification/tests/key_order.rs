use hummock_core::key::{bytes_le_exec, PointRange, UserKey};

#[test]
fn bytes_order_is_lexicographic() {
    assert!(bytes_le_exec(b"", b""));
    assert!(bytes_le_exec(b"", b"a"));
    assert!(!bytes_le_exec(b"a", b""));
    assert!(bytes_le_exec(b"abc", b"abd"));
    assert!(bytes_le_exec(b"ab", b"abc"));
    assert!(!bytes_le_exec(b"b", b"abc"));
}

#[test]
fn point_after_a_key_follows_the_key() {
    let at = PointRange::from_user_key(UserKey::new(1, b"cccc".to_vec()), false);
    let after = PointRange::from_user_key(UserKey::new(1, b"cccc".to_vec()), true);
    assert!(at.le(&after));
    assert!(!after.le(&at));
    assert!(at.le(&at));
    assert!(after.le(&after));
}
