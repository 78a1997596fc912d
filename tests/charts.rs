use chart_registry::{ChartEvent, ChartRegistry, ChartRegistryError};

fn hash(b: u8) -> [u8; 32] {
    [b; 32]
}

fn owner(b: u8) -> [u8; 20] {
    [b; 20]
}

#[test]
fn first_registration_succeeds_second_fails() {
    let mut reg = ChartRegistry::init();
    assert_eq!(reg.register_chart("c1".to_string(), hash(1), owner(7), false, 1000), Ok(()));
    assert_eq!(
        reg.register_chart("c1".to_string(), hash(2), owner(8), true, 2000),
        Err(ChartRegistryError::ChartAlreadyExists)
    );
    let (h, u, t, v, id) = reg.get_chart("c1".to_string());
    assert_eq!(h, hash(1));
    assert_eq!(u, owner(7));
    assert_eq!(t, 1000);
    assert!(!v);
    assert_eq!(id, "c1");
    assert_eq!(reg.total_charts(), 1);
}

#[test]
fn zero_hash_or_owner_is_refused() {
    let mut reg = ChartRegistry::init();
    assert_eq!(
        reg.register_chart("c".to_string(), [0u8; 32], owner(1), false, 5),
        Err(ChartRegistryError::InvalidChartHash)
    );
    assert_eq!(
        reg.register_chart("c".to_string(), hash(1), [0u8; 20], false, 5),
        Err(ChartRegistryError::InvalidUserAddress)
    );
    assert_eq!(
        reg.register_chart("c".to_string(), [0u8; 32], [0u8; 20], false, 5),
        Err(ChartRegistryError::InvalidChartHash)
    );
    assert_eq!(reg.total_charts(), 0);
    assert!(reg.events().is_empty());
    assert_eq!(reg.register_chart("c".to_string(), hash(1), owner(1), false, 5), Ok(()));
}

#[test]
fn a_hash_with_one_nonzero_byte_is_accepted() {
    let mut reg = ChartRegistry::init();
    let mut h = [0u8; 32];
    h[31] = 1;
    let mut u = [0u8; 20];
    u[0] = 1;
    assert_eq!(reg.register_chart("c".to_string(), h, u, false, 0), Ok(()));
    assert!(reg.verify_chart("c".to_string(), h));
}

#[test]
fn verify_chart_matches_only_the_stored_hash() {
    let mut reg = ChartRegistry::init();
    reg.register_chart("c1".to_string(), hash(3), owner(1), false, 10).unwrap();
    assert!(reg.verify_chart("c1".to_string(), hash(3)));
    assert!(!reg.verify_chart("c1".to_string(), hash(4)));
    let mut near = hash(3);
    near[0] = 2;
    assert!(!reg.verify_chart("c1".to_string(), near));
    assert!(!reg.verify_chart("missing".to_string(), hash(3)));
    assert!(reg.verify_chart("missing".to_string(), [0u8; 32]));
}

#[test]
fn mark_as_verified_is_monotonic() {
    let mut reg = ChartRegistry::init();
    assert_eq!(
        reg.mark_as_verified("nope".to_string()),
        Err(ChartRegistryError::ChartDoesNotExist)
    );
    reg.register_chart("c1".to_string(), hash(5), owner(1), false, 10).unwrap();
    assert!(!reg.is_zk_verified("c1".to_string()));
    assert_eq!(reg.mark_as_verified("c1".to_string()), Ok(()));
    assert!(reg.is_zk_verified("c1".to_string()));
    assert_eq!(reg.mark_as_verified("c1".to_string()), Ok(()));
    assert!(reg.is_zk_verified("c1".to_string()));
    assert!(!reg.is_zk_verified("nope".to_string()));
    let (h, _, t, v, _) = reg.get_chart("c1".to_string());
    assert_eq!(h, hash(5));
    assert_eq!(t, 10);
    assert!(v);
    let verified_events = reg
        .events()
        .iter()
        .filter(|e| matches!(e, ChartEvent::ChartVerified { .. }))
        .count();
    assert_eq!(verified_events, 2);
}

#[test]
fn owner_index_keeps_registration_order() {
    let mut reg = ChartRegistry::init();
    reg.register_chart("a".to_string(), hash(1), owner(1), false, 1).unwrap();
    reg.register_chart("b".to_string(), hash(2), owner(2), false, 2).unwrap();
    reg.register_chart("c".to_string(), hash(3), owner(1), true, 3).unwrap();
    let _ = reg.register_chart("a".to_string(), hash(4), owner(1), false, 4);
    assert_eq!(reg.get_user_charts(owner(1)), vec!["a".to_string(), "c".to_string()]);
    assert_eq!(reg.get_user_charts(owner(2)), vec!["b".to_string()]);
    assert!(reg.get_user_charts(owner(3)).is_empty());
    assert_eq!(reg.total_charts(), 3);
}

#[test]
fn unknown_chart_reads_as_zero_record() {
    let reg = ChartRegistry::init();
    let (h, u, t, v, id) = reg.get_chart("x".to_string());
    assert_eq!(h, [0u8; 32]);
    assert_eq!(u, [0u8; 20]);
    assert_eq!(t, 0);
    assert!(!v);
    assert_eq!(id, "x");
}

#[test]
fn events_record_creation_and_verification() {
    let mut reg = ChartRegistry::init();
    reg.register_chart("c1".to_string(), hash(9), owner(4), true, 77).unwrap();
    reg.mark_as_verified("c1".to_string()).unwrap();
    let events = reg.events();
    assert_eq!(events.len(), 2);
    match &events[0] {
        ChartEvent::ChartCreated { chart_id, chart_hash, user, timestamp, zk_verified } => {
            assert_eq!(chart_id, "c1");
            assert_eq!(*chart_hash, hash(9));
            assert_eq!(*user, owner(4));
            assert_eq!(*timestamp, 77);
            assert!(*zk_verified);
        }
        _ => panic!("expected a creation event"),
    }
    match &events[1] {
        ChartEvent::ChartVerified { chart_id, chart_hash } => {
            assert_eq!(chart_id, "c1");
            assert_eq!(*chart_hash, hash(9));
        }
        _ => panic!("expected a verification event"),
    }
}
