use felix_backend::possible_beginnings_updater::PossibleBeginningsUpdater;
use felix_backend::time::Time;

#[test]
fn updater_tracks_out_of_date_activities() {
    let mut updater = PossibleBeginningsUpdater::new();
    updater.notify_new_activity(0);
    updater.notify_new_activity(1);
    assert!(updater.activity_beginnings_are_up_to_date(0));
    assert!(updater.activity_beginnings_are_up_to_date(1));

    updater.mark_out_of_date(&vec![1]);
    assert!(updater.activity_beginnings_are_up_to_date(0));
    assert!(!updater.activity_beginnings_are_up_to_date(1));

    // Nothing is fused while a result is missing.
    assert_eq!(updater.poll_and_fuse_possible_beginnings(None, 1), None);
    assert!(!updater.activity_beginnings_are_up_to_date(1));

    let jean = vec![Time::new(9, 0), Time::new(8, 0), Time::new(8, 30)];
    let bob = vec![Time::new(8, 30), Time::new(9, 0), Time::new(10, 0)];
    assert_eq!(
        updater.poll_and_fuse_possible_beginnings(Some(vec![jean, bob]), 1),
        Some(vec![Time::new(8, 30), Time::new(9, 0)])
    );
    assert!(updater.activity_beginnings_are_up_to_date(1));

    updater.notify_activity_removed(0);
    updater.notify_new_activity(0);
    assert!(updater.activity_beginnings_are_up_to_date(0));
}
