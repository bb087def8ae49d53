use rift_bus::correlation::{correlation_id, new_correlation_id};

#[test]
fn ids_are_unique() {
    let a = new_correlation_id(0);
    let b = new_correlation_id(1);
    assert_ne!(a, b);
}

#[test]
fn id_starts_with_prefix() {
    let id = new_correlation_id(0);
    assert!(id.starts_with("corr-"));
}

#[test]
fn id_is_hex_time_then_hex_counter() {
    assert_eq!(correlation_id(0, 0), "corr-0-0");
    assert_eq!(correlation_id(255, 16), "corr-ff-10");
    assert_eq!(correlation_id(0x18f2a3b4c5d, 0xabc), "corr-18f2a3b4c5d-abc");
    assert_eq!(correlation_id(u64::MAX, 1), "corr-ffffffffffffffff-1");
}

#[test]
fn distinct_pairs_give_distinct_ids() {
    // "1-11" against "11-1": the separator keeps the pairs apart.
    assert_ne!(correlation_id(1, 0x11), correlation_id(0x11, 1));
    assert_ne!(correlation_id(16, 1), correlation_id(1, 16));
}
