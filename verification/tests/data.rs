use felix_backend::computation::merge_beginnings_of_all_participants;
use felix_backend::computation_data::InsertionCost;
use felix_backend::data::Data;
use felix_backend::errors::add_entity_to_inserted_activity_invalid_spot::WhySpotIsInvalid;
use felix_backend::errors::does_not_exist::DoesNotExist;
use felix_backend::errors::invalid_insertion::{InvalidOrNotComputed, WhyInvalid};
use felix_backend::errors::name_taken::GroupOrEntity;
use felix_backend::errors::not_enough_time::NotEnoughTime;
use felix_backend::errors::FelixError;
use felix_backend::strings::clean_string;
use felix_backend::time::Time;
use felix_backend::time_interval::TimeInterval;

fn interval(h1: i8, m1: i8, h2: i8, m2: i8) -> TimeInterval {
    TimeInterval::new(Time::new(h1, m1), Time::new(h2, m2))
}

fn costs_from(beginnings: &[Time]) -> Vec<InsertionCost> {
    beginnings
        .iter()
        .map(|b| InsertionCost {
            beginning: *b,
            cost: 0,
        })
        .collect()
}

#[test]
fn time_hours_and_minutes() {
    let t = Time::new(9, 30);
    assert_eq!(t.total_minutes(), 570);
    assert_eq!(t.hours(), 9);
    assert_eq!(t.minutes(), 30);

    let before_midnight = Time::from_total_minutes(-1);
    assert_eq!(before_midnight.hours(), -1);
    assert_eq!(before_midnight.minutes(), 59);

    assert_eq!(Time::new(1, 15).add(Time::new(0, 50)), Time::new(2, 5));
    assert_eq!(Time::new(1, 15).sub(Time::new(0, 50)), Time::new(0, 25));
    assert!(Time::new(8, 0).is_before(&Time::new(8, 5)));
    assert!(!Time::new(8, 0).is_after(&Time::new(8, 0)));
}

#[test]
fn time_interval_duration_overlap_and_contains() {
    let morning = interval(8, 0, 12, 0);
    assert_eq!(morning.duration(), Time::new(4, 0));
    assert!(morning.overlaps_with(&interval(11, 55, 13, 0)));
    assert!(!morning.overlaps_with(&interval(12, 0, 13, 0)));
    assert!(morning.contains(Time::new(8, 0)));
    assert!(!morning.contains(Time::new(12, 0)));
    assert!(morning.contains_interval(interval(9, 0, 12, 0)));
    assert!(!morning.contains_interval(interval(7, 55, 9, 0)));
}

#[test]
fn clean_string_formats_words() {
    assert_eq!(clean_string("  hello   world ").unwrap(), "Hello World");
    assert_eq!(clean_string("jean-paul").unwrap(), "Jean-paul");
    assert!(matches!(clean_string(" \t "), Err(FelixError::EmptyName)));
    assert!(matches!(clean_string(""), Err(FelixError::EmptyName)));
}

#[test]
fn work_hours_order_of_insertion_does_not_matter() {
    let mut first = Data::new();
    first.add_work_interval(interval(14, 0, 18, 0)).unwrap();
    first.add_work_interval(interval(8, 0, 12, 0)).unwrap();

    let mut second = Data::new();
    second.add_work_interval(interval(8, 0, 12, 0)).unwrap();
    second.add_work_interval(interval(14, 0, 18, 0)).unwrap();

    assert_eq!(first.work_hours(), second.work_hours());
    assert_eq!(
        first.work_hours(),
        vec![interval(8, 0, 12, 0), interval(14, 0, 18, 0)]
    );
}

#[test]
fn work_interval_overlap_and_missing_interval_are_refused() {
    let mut data = Data::new();
    data.add_work_interval(interval(8, 0, 12, 0)).unwrap();
    assert!(matches!(
        data.add_work_interval(interval(11, 0, 13, 0)),
        Err(FelixError::IntervalOverlaps)
    ));
    match data.remove_work_interval(interval(13, 0, 14, 0)) {
        Err(FelixError::DoesNotExist(d)) => {
            assert!(matches!(*d, DoesNotExist::Interval(i) if i == interval(13, 0, 14, 0)))
        }
        _ => panic!("removing a missing interval must fail"),
    }
    data.update_work_interval(interval(8, 0, 12, 0), interval(9, 0, 12, 0))
        .unwrap();
    assert_eq!(data.work_hours(), vec![interval(9, 0, 12, 0)]);
}

#[test]
fn entity_names_are_formatted_and_unique() {
    let mut data = Data::new();
    assert_eq!(data.add_entity("  bernard ").unwrap(), "Bernard");
    data.add_group("Team").unwrap();
    match data.add_entity("team") {
        Err(FelixError::NameTaken(n)) => {
            assert_eq!(n.by(), GroupOrEntity::Group);
            assert_eq!(n.name(), "Team");
        }
        _ => panic!("the name is taken by a group"),
    }
    match data.add_entity("Bernard") {
        Err(FelixError::NameTaken(n)) => assert_eq!(n.by(), GroupOrEntity::Entity),
        _ => panic!("the name is taken by an entity"),
    }
    assert!(matches!(data.add_entity("   "), Err(FelixError::EmptyName)));
    match data.entity("Nobody") {
        Err(FelixError::DoesNotExist(d)) => {
            assert!(matches!(*d, DoesNotExist::Entity(ref s) if s == "Nobody"))
        }
        _ => panic!("the entity does not exist"),
    }
}

#[test]
fn free_time_is_work_hours_minus_activities() {
    let mut data = Data::new();
    data.add_work_interval(interval(8, 0, 12, 0)).unwrap();
    let entity = data.add_entity("Jean").unwrap();
    assert_eq!(data.free_time_of(&entity).unwrap(), Time::new(4, 0));

    let id = data.add_activity("Meeting").unwrap().id();
    data.set_activity_duration(id, Time::new(1, 0)).unwrap();
    data.add_entity_to_activity(id, &entity).unwrap();
    assert_eq!(data.free_time_of(&entity).unwrap(), Time::new(3, 0));

    // Custom work hours replace the global ones.
    data.add_custom_work_interval_for(&entity, interval(9, 0, 11, 0))
        .unwrap();
    assert_eq!(data.free_time_of(&entity).unwrap(), Time::new(1, 0));
    assert_eq!(data.work_hours_of(&entity).unwrap(), vec![interval(9, 0, 11, 0)]);
}

#[test]
fn entity_without_time_cannot_join_activity() {
    let mut data = Data::new();
    let entity = data.add_entity("Jean").unwrap();
    let id = data.add_activity("Meeting").unwrap().id();
    match data.add_entity_to_activity(id, &entity) {
        Err(FelixError::NotEnoughTime(e)) => {
            assert!(matches!(*e, NotEnoughTime::ActivityAdded(ref who, ref what)
                if who == "Jean" && what == "Meeting"))
        }
        _ => panic!("the entity has no work hours"),
    }
    assert!(data.activity(id).unwrap().entities_sorted().is_empty());
}

#[test]
fn shortening_work_hours_below_needs_is_refused() {
    let mut data = Data::new();
    data.add_work_interval(interval(8, 0, 9, 0)).unwrap();
    let entity = data.add_entity("Jean").unwrap();
    let id = data.add_activity("Meeting").unwrap().id();
    data.set_activity_duration(id, Time::new(1, 0)).unwrap();
    data.add_entity_to_activity(id, &entity).unwrap();
    match data.remove_work_interval(interval(8, 0, 9, 0)) {
        Err(FelixError::NotEnoughTime(e)) => {
            assert!(matches!(*e, NotEnoughTime::WorkHoursShortened(ref who) if who == "Jean"))
        }
        _ => panic!("Jean would lack time"),
    }
    assert_eq!(data.work_hours(), vec![interval(8, 0, 9, 0)]);
}

#[test]
fn add_then_remove_entity_gives_back_the_data() {
    let mut data = Data::new();
    data.add_work_interval(interval(8, 0, 12, 0)).unwrap();
    data.add_entity("Anna").unwrap();
    data.add_group("Team").unwrap();
    let id = data.add_activity("Meeting").unwrap().id();
    data.add_entity_to_activity(id, "Anna").unwrap();

    let entities_before = data.entities_sorted();
    let groups_before = data.groups_sorted();
    let activities_before = data.activities_sorted();

    data.add_entity("Bob").unwrap();
    data.remove_entity("Bob").unwrap();

    assert_eq!(data.entities_sorted(), entities_before);
    assert_eq!(data.groups_sorted(), groups_before);
    assert_eq!(data.activities_sorted(), activities_before);
}

#[test]
fn renaming_an_entity_renames_it_everywhere() {
    let mut data = Data::new();
    data.add_work_interval(interval(8, 0, 12, 0)).unwrap();
    let entity = data.add_entity("Anna").unwrap();
    data.add_group("Team").unwrap();
    data.add_entity_to_group("Team", &entity).unwrap();
    let id = data.add_activity("Meeting").unwrap().id();
    data.add_entity_to_activity(id, &entity).unwrap();

    assert_eq!(data.set_entity_name("Anna", "  anne ").unwrap(), "Anne");
    assert_eq!(
        data.group("Team").unwrap().entities_sorted(),
        vec!["Anne".to_owned()]
    );
    assert_eq!(
        data.activity(id).unwrap().entities_sorted(),
        vec!["Anne".to_owned()]
    );
    assert!(data.entity("Anna").is_err());
    data.set_entity_mail("Anne", "anne@example.org".to_owned())
        .unwrap();
    data.set_send_mail_to("Anne", true).unwrap();
    let anne = data.entity("Anne").unwrap();
    assert_eq!(anne.mail(), "anne@example.org");
    assert!(anne.send_me_a_mail());
}

#[test]
fn group_members_join_the_activities_of_the_group() {
    let mut data = Data::new();
    data.add_work_interval(interval(8, 0, 12, 0)).unwrap();
    data.add_entity("Anna").unwrap();
    data.add_entity("Bob").unwrap();
    data.add_group("Team").unwrap();
    data.add_entity_to_group("Team", "Anna").unwrap();
    let id = data.add_activity("Meeting").unwrap().id();
    data.add_group_to_activity(id, "Team").unwrap();
    assert_eq!(
        data.activity(id).unwrap().entities_sorted(),
        vec!["Anna".to_owned()]
    );

    // A new member joins the activities of the group.
    data.add_entity_to_group("Team", "Bob").unwrap();
    assert_eq!(
        data.activity(id).unwrap().entities_sorted(),
        vec!["Anna".to_owned(), "Bob".to_owned()]
    );

    // A member who leaves the group leaves the activities it joined through the group.
    data.remove_entity_from_group("Team", "Bob").unwrap();
    assert_eq!(
        data.activity(id).unwrap().entities_sorted(),
        vec!["Anna".to_owned()]
    );

    // Removing the group takes its members out of its activities.
    data.remove_group("Team").unwrap();
    assert!(data.activity(id).unwrap().entities_sorted().is_empty());
    assert!(data.activity(id).unwrap().groups_sorted().is_empty());
    assert!(data.group("Team").is_err());
}

#[test]
fn activity_duration_must_be_long_enough() {
    let mut data = Data::new();
    let id = data.add_activity("Meeting").unwrap().id();
    assert!(matches!(
        data.set_activity_duration(id, Time::new(0, 0)),
        Err(FelixError::DurationTooShort)
    ));
    assert_eq!(data.activity(id).unwrap().duration(), Time::new(0, 5));
    match data.set_activity_duration(42, Time::new(1, 0)) {
        Err(FelixError::DoesNotExist(d)) => assert!(matches!(*d, DoesNotExist::Activity(42))),
        _ => panic!("the activity does not exist"),
    }
}

#[test]
fn activity_ids_reuse_the_smallest_free_one() {
    let mut data = Data::new();
    let a = data.add_activity("A").unwrap().id();
    let b = data.add_activity("B").unwrap().id();
    let c = data.add_activity("C").unwrap().id();
    assert_eq!((a, b, c), (0, 1, 2));
    data.remove_activity(b).unwrap();
    assert_eq!(data.add_activity("D").unwrap().id(), 1);
    assert!(data.remove_activity(7).is_err());
}

#[test]
fn insertion_needs_computed_and_valid_beginnings() {
    let mut data = Data::new();
    data.add_work_interval(interval(8, 0, 10, 0)).unwrap();
    let entity = data.add_entity("Jean").unwrap();
    let id = data.add_activity("Meeting").unwrap().id();
    data.add_entity_to_activity(id, &entity).unwrap();
    data.set_activity_duration(id, Time::new(1, 0)).unwrap();

    match data.insert_activity(id, Some(Time::new(8, 0))) {
        Err(FelixError::InvalidInsertion(e)) => {
            assert_eq!(e.who(), "Meeting");
            assert_eq!(e.reason(), InvalidOrNotComputed::NotComputed);
        }
        _ => panic!("the beginnings were not computed"),
    }

    let beginnings = [Time::new(8, 0), Time::new(8, 30), Time::new(9, 0)];
    data.set_insertion_costs_of(id, Some(costs_from(&beginnings)))
        .unwrap();
    assert_eq!(
        data.possible_insertion_times_of_activity_with_associated_cost(id),
        Some(costs_from(&beginnings))
    );

    match data.insert_activity(id, Some(Time::new(8, 15))) {
        Err(FelixError::InvalidInsertion(e)) => {
            assert_eq!(e.in_who(), Time::new(8, 15));
            assert_eq!(
                e.reason(),
                InvalidOrNotComputed::Invalid(WhyInvalid::CannotFitOrWouldBlockOtherActivities)
            );
        }
        _ => panic!("8:15 is not a possible beginning"),
    }

    data.insert_activity(id, Some(Time::new(8, 30))).unwrap();
    assert_eq!(
        data.activity(id).unwrap().insertion_interval(),
        Some(interval(8, 30, 9, 30))
    );

    // While an activity is inserted, the work hours cannot change.
    assert!(matches!(
        data.add_work_interval(interval(14, 0, 15, 0)),
        Err(FelixError::ChangeWorkHoursWhileActivityInserted)
    ));

    data.insert_activity(id, None).unwrap();
    assert_eq!(data.activity(id).unwrap().insertion_interval(), None);
}

#[test]
fn overlapping_insertion_names_the_blocking_activity() {
    let mut data = Data::new();
    data.add_work_interval(interval(8, 0, 10, 0)).unwrap();
    let entity = data.add_entity("Jean").unwrap();
    let first = data.add_activity("First").unwrap().id();
    let second = data.add_activity("Second").unwrap().id();
    data.add_entity_to_activity(first, &entity).unwrap();
    data.add_entity_to_activity(second, &entity).unwrap();
    data.set_activity_duration(first, Time::new(1, 0)).unwrap();
    data.set_activity_duration(second, Time::new(1, 0)).unwrap();

    data.set_insertion_costs_of(first, Some(costs_from(&[Time::new(8, 0)])))
        .unwrap();
    data.insert_activity(first, Some(Time::new(8, 0))).unwrap();

    data.set_insertion_costs_of(second, Some(costs_from(&[Time::new(9, 0)])))
        .unwrap();
    match data.insert_activity(second, Some(Time::new(8, 30))) {
        Err(FelixError::InvalidInsertion(e)) => assert_eq!(
            e.reason(),
            InvalidOrNotComputed::Invalid(WhyInvalid::OverlappingWithOtherInsertedActivity(
                "First".to_owned()
            ))
        ),
        _ => panic!("the insertion overlaps with First"),
    }
}

#[test]
fn activity_whose_duration_grew_goes_back_to_the_closest_spot() {
    let mut data = Data::new();
    data.add_work_interval(interval(8, 0, 10, 0)).unwrap();

    let id_will_move = data.add_activity("Will Move").unwrap().id();
    let id_static = data.add_activity("Static").unwrap().id();
    let entity = data.add_entity("Jean").unwrap();

    data.add_entity_to_activity(id_static, &entity).unwrap();
    data.add_entity_to_activity(id_will_move, &entity).unwrap();

    data.set_activity_duration(id_static, Time::new(1, 0)).unwrap();
    data.set_insertion_costs_of(id_static, Some(costs_from(&[Time::new(9, 0)])))
        .unwrap();
    data.insert_activity(id_static, Some(Time::new(9, 0))).unwrap();

    data.set_activity_duration(id_will_move, Time::new(0, 30))
        .unwrap();
    // The beginnings that fit a 30-minute activity before 9:00.
    let beginnings: Vec<Time> = (0..=6).map(|k| Time::new(8, k * 5)).collect();
    data.set_insertion_costs_of(id_will_move, Some(costs_from(&beginnings)))
        .unwrap();
    data.insert_activity(id_will_move, Some(Time::new(8, 30)))
        .unwrap();
    assert!(data.activity(id_will_move).unwrap().insertion_interval().is_some());

    data.set_activity_duration(id_will_move, Time::new(0, 45))
        .unwrap();
    assert_eq!(data.activity(id_will_move).unwrap().insertion_interval(), None);
    assert!(data.activities_were_uninserted_and_can_maybe_be_inserted_back());

    // The beginnings that fit a 45-minute activity before 9:00.
    let beginnings: Vec<Time> = (0..=3).map(|k| Time::new(8, k * 5)).collect();
    data.set_insertion_costs_of(id_will_move, Some(costs_from(&beginnings)))
        .unwrap();

    data.insert_activities_removed_because_duration_increased_in_closest_spot();
    let new_beginning = data
        .activity(id_will_move)
        .unwrap()
        .insertion_interval()
        .expect("Activity was not inserted !")
        .beginning();
    assert_eq!(new_beginning, Time::new(8, 15));
}

#[test]
fn merged_beginnings_are_common_to_all_participants() {
    let a = vec![Time::new(9, 0), Time::new(8, 0), Time::new(8, 30)];
    let b = vec![Time::new(8, 30), Time::new(9, 0), Time::new(10, 0)];
    let merged = merge_beginnings_of_all_participants(&vec![a, b]);
    assert_eq!(merged, costs_from(&[Time::new(8, 30), Time::new(9, 0)]));
    assert!(merge_beginnings_of_all_participants(&vec![]).is_empty());
}

#[test]
fn autoinsertion_applies_the_found_beginnings() {
    let mut data = Data::new();
    data.add_work_interval(interval(8, 0, 10, 0)).unwrap();
    let entity = data.add_entity("Jean").unwrap();
    let id = data.add_activity("Meeting").unwrap().id();
    data.add_entity_to_activity(id, &entity).unwrap();
    data.set_activity_duration(id, Time::new(1, 0)).unwrap();
    data.set_insertion_costs_of(id, Some(costs_from(&[Time::new(8, 0), Time::new(9, 0)])))
        .unwrap();

    let (static_data, beginnings) = data.start_autoinsertion().unwrap();
    assert_eq!(static_data.len(), 1);
    assert!(beginnings.is_empty());

    data.apply_autoinsertion_result(vec![Time::new(9, 0).total_minutes()]);
    assert_eq!(
        data.activity(id).unwrap().insertion_interval(),
        Some(interval(9, 0, 10, 0))
    );
}

fn sample_data() -> (Data, usize) {
    let mut data = Data::new();
    data.add_work_interval(interval(8, 0, 12, 0)).unwrap();
    data.add_entity("Anna").unwrap();
    data.add_entity("Bob").unwrap();
    data.add_group("Team").unwrap();
    data.add_entity_to_group("Team", "Anna").unwrap();
    let id = data.add_activity("Meeting").unwrap().id();
    data.add_group_to_activity(id, "Team").unwrap();
    data.add_entity_to_activity(id, "Bob").unwrap();
    (data, id)
}

#[test]
fn add_then_remove_group_gives_back_the_data() {
    let (mut data, _) = sample_data();
    let entities_before = data.entities_sorted();
    let groups_before = data.groups_sorted();
    let activities_before = data.activities_sorted();
    data.add_group("Other").unwrap();
    data.remove_group("Other").unwrap();
    assert_eq!(data.entities_sorted(), entities_before);
    assert_eq!(data.groups_sorted(), groups_before);
    assert_eq!(data.activities_sorted(), activities_before);
}

#[test]
fn renaming_back_gives_back_the_data() {
    let (mut data, _) = sample_data();
    let entities_before = data.entities_sorted();
    let groups_before = data.groups_sorted();
    let activities_before = data.activities_sorted();
    data.set_entity_name("Anna", "Carla").unwrap();
    data.set_entity_name("Carla", "Anna").unwrap();
    data.set_group_name("Team", "Crew").unwrap();
    assert_eq!(
        data.activities_sorted()[0].groups_sorted(),
        vec!["Crew".to_owned()]
    );
    data.set_group_name("Crew", "Team").unwrap();
    assert_eq!(data.entities_sorted(), entities_before);
    assert_eq!(data.groups_sorted(), groups_before);
    assert_eq!(data.activities_sorted(), activities_before);
}

#[test]
fn insert_then_uninsert_gives_back_the_activity() {
    let (mut data, id) = sample_data();
    data.set_insertion_costs_of(id, Some(costs_from(&[Time::new(8, 0), Time::new(9, 0)])))
        .unwrap();
    let before = data.activity(id).unwrap();
    data.insert_activity(id, Some(Time::new(9, 0))).unwrap();
    assert_eq!(
        data.activity(id).unwrap().insertion_interval(),
        Some(interval(9, 0, 9, 5))
    );
    data.insert_activity(id, None).unwrap();
    assert_eq!(data.activity(id).unwrap(), before);
}

#[test]
fn add_then_remove_work_interval_gives_back_the_work_hours() {
    let (mut data, _) = sample_data();
    let before = data.work_hours();
    data.add_work_interval(interval(13, 0, 14, 0)).unwrap();
    assert_eq!(data.work_hours().len(), 2);
    data.remove_work_interval(interval(13, 0, 14, 0)).unwrap();
    assert_eq!(data.work_hours(), before);
}

#[test]
fn entity_settings_scenario() {
    let mut data = Data::new();
    let entity_name = data.add_entity("Bernard").unwrap();
    let mail = "bernard@xyz.com";
    data.set_entity_mail(&entity_name, mail.to_owned()).unwrap();
    let custom_morning_shift = interval(10, 0, 12, 0);
    data.add_custom_work_interval_for(&entity_name, custom_morning_shift)
        .unwrap();
    let new_name = data.set_entity_name(&entity_name, "jean").unwrap();
    assert_eq!(new_name, "Jean");
    data.set_send_mail_to(&new_name, true).unwrap();
    let entity = data.entity(&new_name).unwrap();
    assert!(entity.send_me_a_mail());
    assert_eq!(entity.mail(), mail);
    assert_eq!(entity.custom_work_hours()[0], custom_morning_shift);
    data.remove_entity(&new_name).unwrap();
    assert!(data.entities_sorted().is_empty());
}

#[test]
fn activity_settings_scenario() {
    let mut data = Data::new();
    let activity_id = data.add_activity("My Activity").unwrap().id();
    let entity_name = data.add_entity("My Entity").unwrap();
    data.add_work_interval(interval(8, 0, 12, 0)).unwrap();
    data.set_activity_duration(activity_id, Time::new(1, 0)).unwrap();
    data.add_entity_to_activity(activity_id, &entity_name).unwrap();
    let activity = data.activity(activity_id).unwrap();
    assert_eq!(activity.duration(), Time::new(1, 0));
    assert_eq!(activity.entities_sorted(), vec!["My Entity".to_owned()]);
}

#[test]
fn membership_errors_name_who_and_where() {
    let (mut data, id) = sample_data();
    match data.add_entity_to_group("Team", "Anna") {
        Err(FelixError::AlreadyIn(e)) => {
            assert_eq!(e.who(), "Anna");
            assert_eq!(e.in_who(), "Team");
        }
        _ => panic!("Anna is already in Team"),
    }
    match data.remove_entity_from_group("Team", "Bob") {
        Err(FelixError::NotIn(e)) => {
            assert_eq!(e.who(), "Bob");
            assert_eq!(e.in_who(), "Team");
        }
        _ => panic!("Bob is not in Team"),
    }
    match data.add_entity_to_activity(id, "Bob") {
        Err(FelixError::AlreadyIn(e)) => assert_eq!(e.in_who(), "Meeting"),
        _ => panic!("Bob already takes part in Meeting"),
    }
    data.add_entity("Carla").unwrap();
    match data.remove_entity_from_activity(id, "Carla") {
        Err(FelixError::NotIn(e)) => {
            assert_eq!(e.who(), "Carla");
            assert_eq!(e.in_who(), "Meeting");
        }
        _ => panic!("Carla does not take part in Meeting"),
    }
    match data.remove_entity_from_group("Nowhere", "Anna") {
        Err(FelixError::DoesNotExist(d)) => {
            assert!(matches!(*d, DoesNotExist::Group(ref g) if g == "Nowhere"))
        }
        _ => panic!("the group does not exist"),
    }
    match data.set_entity_name("Anna", "bob") {
        Err(FelixError::NameTaken(t)) => {
            assert_eq!(t.by(), GroupOrEntity::Entity);
            assert_eq!(t.name(), "Bob");
        }
        _ => panic!("Bob is taken"),
    }
    match data.set_group_name("Crew", "Other") {
        Err(FelixError::DoesNotExist(d)) => {
            assert!(matches!(*d, DoesNotExist::Group(ref g) if g == "Crew"))
        }
        _ => panic!("the group does not exist"),
    }
}

#[test]
fn joining_an_inserted_activity_needs_a_free_spot() {
    let mut data = Data::new();
    data.add_work_interval(interval(8, 0, 12, 0)).unwrap();
    data.add_entity("Jean").unwrap();
    data.add_entity("Bob").unwrap();
    data.add_entity("Lea").unwrap();
    data.add_custom_work_interval_for("Lea", interval(10, 0, 12, 0))
        .unwrap();
    let first = data.add_activity("First").unwrap().id();
    let second = data.add_activity("Second").unwrap().id();
    data.add_entity_to_activity(first, "Jean").unwrap();
    data.add_entity_to_activity(second, "Bob").unwrap();
    data.set_activity_duration(first, Time::new(1, 0)).unwrap();
    data.set_activity_duration(second, Time::new(1, 0)).unwrap();
    data.set_insertion_costs_of(first, Some(costs_from(&[Time::new(8, 0)])))
        .unwrap();
    data.insert_activity(first, Some(Time::new(8, 0))).unwrap();
    data.set_insertion_costs_of(second, Some(costs_from(&[Time::new(8, 30)])))
        .unwrap();
    data.insert_activity(second, Some(Time::new(8, 30))).unwrap();

    match data.add_entity_to_activity(second, "Jean") {
        Err(FelixError::AddEntityToInsertedActivitySpotTaken(e)) => {
            assert_eq!(e.who(), "Jean");
            assert_eq!(e.in_what(), "Second");
            assert_eq!(e.blocking_activity(), "First");
        }
        _ => panic!("First takes the spot of Jean"),
    }
    match data.add_entity_to_activity(second, "Lea") {
        Err(FelixError::AddEntityToInsertedActivityInvalidSpot(e)) => {
            assert_eq!(e.who(), "Lea");
            assert_eq!(e.in_what(), "Second");
            assert_eq!(e.why(), WhySpotIsInvalid::OutsideOfWorkHours);
        }
        _ => panic!("Second is outside of the work hours of Lea"),
    }
    assert_eq!(
        data.activity(second).unwrap().entities_sorted(),
        vec!["Bob".to_owned()]
    );
}

#[test]
fn custom_work_interval_errors() {
    let mut data = Data::new();
    data.add_entity("Jean").unwrap();
    data.add_custom_work_interval_for("Jean", interval(8, 0, 10, 0))
        .unwrap();
    assert!(matches!(
        data.add_custom_work_interval_for("Jean", interval(9, 0, 11, 0)),
        Err(FelixError::IntervalOverlaps)
    ));
    match data.update_custom_work_interval_for("Jean", interval(13, 0, 14, 0), interval(14, 0, 15, 0)) {
        Err(FelixError::DoesNotExist(d)) => {
            assert!(matches!(*d, DoesNotExist::Interval(i) if i == interval(13, 0, 14, 0)))
        }
        _ => panic!("Jean has no such interval"),
    }
    data.add_custom_work_interval_for("Jean", interval(14, 0, 16, 0))
        .unwrap();
    assert!(matches!(
        data.update_custom_work_interval_for("Jean", interval(14, 0, 16, 0), interval(9, 30, 15, 0)),
        Err(FelixError::IntervalOverlaps)
    ));
    data.update_custom_work_interval_for("Jean", interval(14, 0, 16, 0), interval(13, 0, 16, 0))
        .unwrap();
    assert_eq!(
        data.custom_work_hours_of("Jean").unwrap(),
        vec![interval(8, 0, 10, 0), interval(13, 0, 16, 0)]
    );
    data.remove_custom_work_interval_for("Jean", interval(8, 0, 10, 0))
        .unwrap();
    assert_eq!(data.free_time_of("Jean").unwrap(), Time::new(3, 0));
    match data.set_entity_mail("Nobody", "x@y.z".to_owned()) {
        Err(FelixError::DoesNotExist(d)) => {
            assert!(matches!(*d, DoesNotExist::Entity(ref n) if n == "Nobody"))
        }
        _ => panic!("the entity does not exist"),
    }
}

#[test]
fn longer_activity_needs_time_from_every_participant() {
    let mut data = Data::new();
    data.add_work_interval(interval(8, 0, 9, 0)).unwrap();
    data.add_entity("Jean").unwrap();
    data.add_entity("Anna").unwrap();
    let id = data.add_activity("Meeting").unwrap().id();
    data.add_entity_to_activity(id, "Jean").unwrap();
    data.add_entity_to_activity(id, "Anna").unwrap();
    match data.set_activity_duration(id, Time::new(1, 5)) {
        Err(FelixError::NotEnoughTime(e)) => {
            // The first participant by name is named.
            assert!(matches!(*e, NotEnoughTime::ActivityDurationIncreased(ref who, ref what)
                if who == "Anna" && what == "Meeting"))
        }
        _ => panic!("the participants only have one hour"),
    }
    assert_eq!(data.activity(id).unwrap().duration(), Time::new(0, 5));
    data.set_activity_duration(id, Time::new(1, 0)).unwrap();
    assert_eq!(data.free_time_of("Jean").unwrap(), Time::new(0, 0));
}

#[test]
fn stored_beginnings_leave_out_those_of_conflicting_insertions() {
    let mut data = Data::new();
    data.add_work_interval(interval(7, 0, 12, 0)).unwrap();
    data.add_entity("Jean").unwrap();
    let first = data.add_activity("First").unwrap().id();
    let second = data.add_activity("Second").unwrap().id();
    data.add_entity_to_activity(first, "Jean").unwrap();
    data.add_entity_to_activity(second, "Jean").unwrap();
    data.set_activity_duration(first, Time::new(1, 0)).unwrap();
    data.set_activity_duration(second, Time::new(1, 0)).unwrap();
    data.set_insertion_costs_of(first, Some(costs_from(&[Time::new(8, 0)])))
        .unwrap();
    data.insert_activity(first, Some(Time::new(8, 0))).unwrap();
    data.set_insertion_costs_of(
        second,
        Some(costs_from(&[Time::new(7, 0), Time::new(8, 0), Time::new(8, 30), Time::new(9, 0)])),
    )
    .unwrap();
    assert_eq!(
        data.possible_insertion_times_of_activity_with_associated_cost(second),
        Some(costs_from(&[Time::new(7, 0), Time::new(9, 0)]))
    );
}
