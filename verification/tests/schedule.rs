use core_lib::adapter::{current_threshold, TrainStart, TrainingSlot};
use core_lib::training::{should_train, training_due_between};

#[test]
fn threshold_without_training_is_base() {
    assert_eq!(current_threshold(0, 0), 7);
    assert_eq!(current_threshold(0, 1_700_000_000), 7);
}

#[test]
fn threshold_decays_with_time_since_training() {
    let last = 1_000_000;
    assert_eq!(current_threshold(last, last), 56);
    assert_eq!(current_threshold(last, last + 119), 56);
    assert_eq!(current_threshold(last, last + 120), 28);
    assert_eq!(current_threshold(last, last + 299), 28);
    assert_eq!(current_threshold(last, last + 300), 14);
    assert_eq!(current_threshold(last, last + 899), 14);
    assert_eq!(current_threshold(last, last + 900), 7);
    assert_eq!(current_threshold(last, last - 50), 56);
}

#[test]
fn slot_admits_one_training_at_a_time() {
    let mut slot = TrainingSlot::new();
    assert_eq!(slot.try_begin(0), TrainStart::NothingToTrain);
    assert!(!slot.is_training);
    assert_eq!(slot.try_begin(3), TrainStart::Started);
    assert_eq!(slot.try_begin(3), TrainStart::AlreadyRunning);
    slot.finish(5000);
    assert!(!slot.is_training);
    assert_eq!(slot.last_train_secs, 5000);
    assert_eq!(slot.threshold(5010), 56);
    assert_eq!(slot.try_begin(1), TrainStart::Started);
}

#[test]
fn training_due_every_fifty_pairs() {
    assert!(!should_train(0));
    assert!(!should_train(1));
    assert!(!should_train(49));
    assert!(should_train(50));
    assert!(!should_train(51));
    assert!(should_train(100));
    assert!(should_train(5000));
}

#[test]
fn training_due_when_a_batch_passes_a_multiple_of_fifty() {
    assert!(training_due_between(49, 51));
    assert!(training_due_between(49, 50));
    assert!(training_due_between(0, 150));
    assert!(!training_due_between(50, 51));
    assert!(!training_due_between(51, 99));
    assert!(!training_due_between(0, 49));
    assert!(!training_due_between(0, 0));
    assert!(!training_due_between(50, 50));
    assert!(training_due_between(99, 100));
}
