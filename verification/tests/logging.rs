use keifu::logging::{should_rotate, MAX_LOG_SIZE};

#[test]
fn rotates_only_past_the_threshold() {
    assert!(!should_rotate(0));
    assert!(!should_rotate(MAX_LOG_SIZE));
    assert!(should_rotate(MAX_LOG_SIZE + 1));
}
