use chart_registry::{FarcasterPredictions, PredictionError};

fn who(b: u8) -> [u8; 20] {
    [b; 20]
}

fn h(b: u8) -> [u8; 32] {
    [b; 32]
}

#[test]
fn test_register_user() {
    let mut ledger = FarcasterPredictions::new();
    assert_eq!(ledger.register_user(who(1), h(9)), Ok(()));
    assert!(ledger.is_user_registered(who(1)));
    assert_eq!(ledger.get_user_commitment(who(1)), h(9));
}

#[test]
fn registration_happens_once_and_needs_a_commitment() {
    let mut ledger = FarcasterPredictions::new();
    assert_eq!(ledger.register_user(who(1), [0u8; 32]), Err(PredictionError::InvalidCommitment));
    assert!(!ledger.is_user_registered(who(1)));
    assert_eq!(ledger.register_user(who(1), h(1)), Ok(()));
    assert_eq!(ledger.register_user(who(1), h(2)), Err(PredictionError::UserAlreadyRegistered));
    assert_eq!(ledger.register_user(who(1), [0u8; 32]), Err(PredictionError::InvalidCommitment));
    assert_eq!(ledger.get_user_commitment(who(1)), h(1));
    assert_eq!(ledger.get_user_commitment(who(2)), [0u8; 32]);
    assert_eq!(ledger.get_global_stats(), (1, 0));
}

#[test]
fn predictions_need_registration_and_are_unique_per_date() {
    let mut ledger = FarcasterPredictions::new();
    assert_eq!(
        ledger.store_prediction(who(1), 20000, h(3)),
        Err(PredictionError::UserNotRegistered)
    );
    ledger.register_user(who(1), h(1)).unwrap();
    assert_eq!(
        ledger.store_prediction(who(1), 20000, [0u8; 32]),
        Err(PredictionError::InvalidPredictionHash)
    );
    assert_eq!(ledger.store_prediction(who(1), 20000, h(3)), Ok(()));
    assert_eq!(
        ledger.store_prediction(who(1), 20000, h(4)),
        Err(PredictionError::PredictionAlreadyExists)
    );
    assert_eq!(ledger.store_prediction(who(1), 20001, h(4)), Ok(()));
    assert!(ledger.has_prediction(who(1), 20000));
    assert!(!ledger.has_prediction(who(1), 19999));
    assert!(!ledger.has_prediction(who(2), 20000));
    assert_eq!(ledger.get_prediction(who(1), 20000), h(3));
    assert_eq!(ledger.get_prediction(who(1), 19999), [0u8; 32]);
    assert_eq!(ledger.get_user_stats(who(1)), (2, 0, 0));
    assert_eq!(ledger.get_global_stats(), (1, 2));
}

#[test]
fn rating_errors() {
    let mut ledger = FarcasterPredictions::new();
    ledger.register_user(who(1), h(1)).unwrap();
    ledger.store_prediction(who(1), 7, h(2)).unwrap();
    assert_eq!(ledger.rate_prediction(who(1), 7, 6), Err(PredictionError::InvalidRating));
    assert_eq!(ledger.rate_prediction(who(1), 8, 6), Err(PredictionError::InvalidRating));
    assert_eq!(ledger.rate_prediction(who(1), 8, 3), Err(PredictionError::PredictionNotFound));
    assert_eq!(ledger.rate_prediction(who(2), 7, 3), Err(PredictionError::PredictionNotFound));
    assert_eq!(ledger.get_user_stats(who(1)), (1, 0, 0));
}

#[test]
fn rating_sequence_keeps_last_value() {
    let mut ledger = FarcasterPredictions::new();
    ledger.register_user(who(1), h(1)).unwrap();
    ledger.store_prediction(who(1), 7, h(2)).unwrap();
    for v in [4u8, 2, 5, 3] {
        ledger.rate_prediction(who(1), 7, v).unwrap();
    }
    assert_eq!(ledger.get_rating(who(1), 7), 3);
    assert_eq!(ledger.get_user_stats(who(1)), (1, 1, 30));
}

#[test]
fn a_zero_rating_reads_as_none() {
    let mut ledger = FarcasterPredictions::new();
    ledger.register_user(who(1), h(1)).unwrap();
    ledger.store_prediction(who(1), 7, h(2)).unwrap();
    ledger.rate_prediction(who(1), 7, 0).unwrap();
    assert_eq!(ledger.get_user_stats(who(1)), (1, 1, 0));
    ledger.rate_prediction(who(1), 7, 3).unwrap();
    assert_eq!(ledger.get_rating(who(1), 7), 3);
    assert_eq!(ledger.get_user_stats(who(1)), (1, 2, 15));
    ledger.rate_prediction(who(1), 7, 0).unwrap();
    ledger.rate_prediction(who(1), 7, 4).unwrap();
    assert_eq!(ledger.get_user_stats(who(1)), (1, 3, 13));
}

#[test]
fn average_is_truncated_over_predictions() {
    let mut ledger = FarcasterPredictions::new();
    ledger.register_user(who(1), h(1)).unwrap();
    for d in 1..=3u64 {
        ledger.store_prediction(who(1), d, h(2)).unwrap();
    }
    ledger.rate_prediction(who(1), 1, 5).unwrap();
    ledger.rate_prediction(who(1), 2, 4).unwrap();
    ledger.rate_prediction(who(1), 3, 4).unwrap();
    assert_eq!(ledger.get_user_stats(who(1)), (3, 3, 43));
    assert_eq!(ledger.get_user_stats(who(9)), (0, 0, 0));
    assert_eq!(ledger.get_rating(who(1), 4), 0);
}

#[test]
fn owners_are_kept_apart() {
    let mut ledger = FarcasterPredictions::new();
    ledger.register_user(who(1), h(1)).unwrap();
    ledger.register_user(who(2), h(2)).unwrap();
    ledger.store_prediction(who(1), 5, h(3)).unwrap();
    ledger.store_prediction(who(2), 5, h(4)).unwrap();
    ledger.rate_prediction(who(2), 5, 2).unwrap();
    assert_eq!(ledger.get_rating(who(1), 5), 0);
    assert_eq!(ledger.get_rating(who(2), 5), 2);
    assert_eq!(ledger.get_prediction(who(2), 5), h(4));
    assert_eq!(ledger.get_user_stats(who(1)), (1, 0, 0));
    assert_eq!(ledger.get_user_stats(who(2)), (1, 1, 20));
    assert_eq!(ledger.get_global_stats(), (2, 2));
}
