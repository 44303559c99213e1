use lib::kernel::{should_shutdown, MAX_PRINTS};

#[test]
fn shutdown_after_last_print() {
    assert!(!should_shutdown(0));
    assert!(!should_shutdown(MAX_PRINTS - 2));
    assert!(should_shutdown(MAX_PRINTS - 1));
    assert!(should_shutdown(MAX_PRINTS + 5));
}
