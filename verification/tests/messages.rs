use felix_backend::errors::add_entity_to_inserted_activity_invalid_spot::AddEntityToInsertedActivityInvalidSpot;
use felix_backend::errors::add_entity_to_inserted_activity_spot_taken::AddEntityToInsertedActivitySpotTaken;
use felix_backend::errors::already_in::AlreadyIn;
use felix_backend::errors::does_not_exist::DoesNotExist;
use felix_backend::errors::invalid_insertion::InvalidInsertion;
use felix_backend::errors::name_taken::NameTaken;
use felix_backend::errors::not_enough_time::NotEnoughTime;
use felix_backend::errors::not_in::NotIn;
use felix_backend::text::format_time;
use felix_backend::time::Time;
use felix_backend::time_interval::TimeInterval;

#[test]
fn times_are_written_as_hours_and_minutes() {
    assert_eq!(format_time(Time::new(10, 0)), "10:00");
    assert_eq!(format_time(Time::new(8, 5)), "8:05");
    assert_eq!(format_time(Time::new(0, 0)), "0:00");
    assert_eq!(format_time(Time::from_total_minutes(-1)), "-1:59");
}

#[test]
fn not_in_message_names_the_container() {
    let error = NotIn::entity_not_in_group("Entity Name".to_owned(), "Group Name".to_owned());
    assert_eq!(
        error.message("is not in", "the activity", "the group", "The group"),
        "Entity Name is not in the group 'Group Name'."
    );
    let error = NotIn::group_not_in_activity("Group Name".to_owned(), "Activity Name".to_owned());
    assert_eq!(
        error.message("is not in", "the activity", "the group", "The group"),
        "The group 'Group Name' is not in the activity 'Activity Name'."
    );
}

#[test]
fn already_in_message_names_the_container() {
    let error = AlreadyIn::entity_already_in_group("Entity Name".to_owned(), "Group Name".to_owned());
    assert_eq!(
        error.message("is already in", "the activity", "the group", "The group"),
        "Entity Name is already in the group 'Group Name'."
    );
}

#[test]
fn name_taken_message_names_the_holder() {
    let error = NameTaken::name_taken_by_entity("New Name".to_owned());
    assert_eq!(
        error.message("The name", "is already taken by", "an entity", "a group"),
        "The name 'New Name' is already taken by an entity."
    );
}

fn insertion_message(error: &InvalidInsertion) -> String {
    error.message(
        "The possible beginnings of the activity",
        "have not been computed yet",
        "cannot be inserted with beginning",
        "because",
        "this beginning is invalid or will cause problems in the future",
        "it would overlap with",
    )
}

#[test]
fn invalid_insertion_message_gives_the_beginning_and_the_reason() {
    let error = InvalidInsertion::would_overlap_with_activity(
        "Activity".to_owned(),
        Time::new(10, 0),
        "Other Activity".to_owned(),
    );
    assert_eq!(
        insertion_message(&error),
        "Activity cannot be inserted with beginning 10:00 because it would overlap with 'Other Activity'."
    );
    let error = InvalidInsertion::cannot_fit_or_would_block_other_activities(
        "Activity".to_owned(),
        Time::new(9, 30),
    );
    assert_eq!(
        insertion_message(&error),
        "Activity cannot be inserted with beginning 9:30 because this beginning is invalid or will cause problems in the future."
    );
    let error = InvalidInsertion::insertions_not_computed_yet("Activity".to_owned());
    assert_eq!(
        insertion_message(&error),
        "The possible beginnings of the activity 'Activity' have not been computed yet."
    );
}

#[test]
fn spot_messages_name_the_activities() {
    let error = AddEntityToInsertedActivitySpotTaken::new(
        "Entity".to_owned(),
        "Activity".to_owned(),
        "BlockingActivity".to_owned(),
    );
    assert_eq!(
        error.message("cannot be added to", "because it would overlap with"),
        "Entity cannot be added to 'Activity' because it would overlap with 'BlockingActivity'."
    );
    let error =
        AddEntityToInsertedActivityInvalidSpot::outside_of_work_hours("Entity".to_owned(), "Activity".to_owned());
    assert_eq!(
        error.message(
            "cannot be added to",
            "because",
            "it would overlap with",
            "it would be outside of their work hours"
        ),
        "Entity cannot be added to 'Activity' because it would be outside of their work hours."
    );
}

#[test]
fn other_error_messages() {
    let missing = DoesNotExist::interval_does_not_exist(TimeInterval::new(Time::new(8, 0), Time::new(12, 0)));
    assert_eq!(
        missing.message("The entity", "The group", "The activity with id", "The interval", "does not exist"),
        "The interval 8:00 - 12:00 does not exist."
    );
    let missing = DoesNotExist::activity_does_not_exist(42);
    assert_eq!(
        missing.message("The entity", "The group", "The activity with id", "The interval", "does not exist"),
        "The activity with id 42 does not exist."
    );
    let lacking = NotEnoughTime::activity_added_for("Jean".to_owned(), "Meeting".to_owned());
    assert_eq!(
        lacking.message(
            "would not have enough time for their activities with these work hours",
            "does not have enough time for",
            "does not have enough time for the new duration of"
        ),
        "Jean does not have enough time for 'Meeting'."
    );
}
