use felix_backend::activities::Activities;
use felix_backend::computation::{
    activities_into_computation_data, activities_sorted_for_computation, id_to_index_map, index_to_id_map,
};
use felix_backend::time_interval::TimeInterval;
use felix_backend::entity::Entities;
use felix_backend::time::Time;

fn incompatible_ids_scenario() {
    let mut activity_collection = Activities::new();
    let id_a = activity_collection.add("a".to_owned()).id();
    let id_b = activity_collection.add("b".to_owned()).id();

    let mut entities = Entities::new();
    let entity_a = "A".to_owned();
    let entity_b = "B".to_owned();
    entities.add(entity_a.clone()).expect("Could not add entity");
    entities.add(entity_b.clone()).expect("Could not add entity");

    // Insert the same entity in both activities
    activity_collection
        .add_entity(id_a, entity_a.clone())
        .expect("Could not add entity to activity");
    activity_collection
        .add_entity(id_b, entity_a.clone())
        .expect("Could not add entity to activity");

    // At this point : id_a contains {a}, id_b contains {a}
    let incompatible_a = activity_collection
        .get_by_id(id_a)
        .expect("Could not get activity by id")
        .incompatible_activity_ids();
    let incompatible_b = activity_collection
        .get_by_id(id_b)
        .expect("Could not get activity by id")
        .incompatible_activity_ids();
    assert_eq!(incompatible_a.len(), 1);
    assert_eq!(incompatible_b.len(), 1);
    assert_eq!(incompatible_a[0], id_b);
    assert_eq!(incompatible_b[0], id_a);

    // Remove the entity in one activity
    activity_collection
        .remove_entity(id_a, &entity_a)
        .expect("Could not remove entity from activity");

    // At this point : id_a contains {}, id_b contains {a}
    let incompatible_a = activity_collection
        .get_by_id(id_a)
        .expect("Could not get activity by id")
        .incompatible_activity_ids();
    let incompatible_b = activity_collection
        .get_by_id(id_b)
        .expect("Could not get activity by id")
        .incompatible_activity_ids();
    assert_eq!(incompatible_a.len(), 0);
    assert_eq!(incompatible_b.len(), 0);

    // Add non-confictual entity
    activity_collection
        .add_entity(id_a, entity_b.clone())
        .expect("Could not add entity to activity");

    // At this point : id_a contains {b}, id_b contains {a}
    let incompatible_a = activity_collection
        .get_by_id(id_a)
        .expect("Could not get activity by id")
        .incompatible_activity_ids();
    let incompatible_b = activity_collection
        .get_by_id(id_b)
        .expect("Could not get activity by id")
        .incompatible_activity_ids();
    assert_eq!(incompatible_a.len(), 0);
    assert_eq!(incompatible_b.len(), 0);

    // Add conflictual entity again
    activity_collection
        .add_entity(id_b, entity_b)
        .expect("Could not add entity to activity");

    // At this point : id_a contains {b}, id_b contains {a, b}
    let incompatible_a = activity_collection
        .get_by_id(id_a)
        .expect("Could not get activity by id")
        .incompatible_activity_ids();
    let incompatible_b = activity_collection
        .get_by_id(id_b)
        .expect("Could not get activity by id")
        .incompatible_activity_ids();
    assert_eq!(incompatible_a.len(), 1);
    assert_eq!(incompatible_b.len(), 1);
    assert_eq!(incompatible_a[0], id_b);
    assert_eq!(incompatible_b[0], id_a);

    // Add third activity
    let id_c = activity_collection.add("c".to_owned()).id();
    activity_collection
        .add_entity(id_c, entity_a)
        .expect("Could not add entity to activity");

    // At this point : id_a contains {b}, id_b contains {a, b}, id_c contains {a}
    let incompatible_a = activity_collection
        .get_by_id(id_a)
        .expect("Could not get activity by id")
        .incompatible_activity_ids();
    let incompatible_b = activity_collection
        .get_by_id(id_b)
        .expect("Could not get activity by id")
        .incompatible_activity_ids();
    let incompatible_c = activity_collection
        .get_by_id(id_c)
        .expect("Could not get activity by id")
        .incompatible_activity_ids();
    assert_eq!(incompatible_a.len(), 1);
    assert_eq!(incompatible_a[0], id_b);

    assert_eq!(incompatible_b.len(), 2);
    assert!(incompatible_b.contains(&id_a));
    assert!(incompatible_b.contains(&id_c));

    assert_eq!(incompatible_c.len(), 1);
    assert!(incompatible_c.contains(&id_b));
}

#[test]
fn activities_incompatible_ids() {
    incompatible_ids_scenario();
}

#[test]
fn tests_incompatible_ids() {
    incompatible_ids_scenario();
}

/// Builds activities with ids [0, 1, 3] where 0 and 3, 1 and 0, 1 and 3 share entities.
fn activities_with_conflicts() -> Activities {
    let mut activity_collection = Activities::new();
    activity_collection.add("0".to_owned());
    activity_collection.add("1".to_owned());
    activity_collection.add("2".to_owned());
    activity_collection.add("3".to_owned());
    activity_collection.remove(2).expect("Could not remove activity");

    // Ids are [0, 1, 3]
    activity_collection.add_entity(0, "X".to_owned()).expect("Could not add entity");
    activity_collection.add_entity(3, "X".to_owned()).expect("Could not add entity");
    activity_collection.add_entity(1, "Y".to_owned()).expect("Could not add entity");
    activity_collection.add_entity(0, "Y".to_owned()).expect("Could not add entity");
    activity_collection.add_entity(3, "Y".to_owned()).expect("Could not add entity");
    activity_collection
}

#[test]
fn activities_test_fetch_computation() {
    let activity_collection = activities_with_conflicts();
    let activities = activity_collection.get_not_sorted().clone();
    let computation_data = activity_collection.fetch_computation();

    for (activity, computation) in activities.iter().zip(computation_data) {
        let mut ids = activity.incompatible_activity_ids();
        let mut ids_from_indexes = computation
            .incompatible_activity_ids()
            .iter()
            .map(|&index| activities[index].id())
            .collect::<Vec<usize>>();
        ids.sort();
        ids_from_indexes.sort();
        assert_eq!(ids, ids_from_indexes);
    }
}

#[test]
fn tests_test_fetch_computation() {
    let mut activity_collection = activities_with_conflicts();
    for id in [0usize, 1, 3] {
        activity_collection
            .set_insertion_costs(id, Some(vec![]))
            .expect("Could not get activity by id");
    }
    let activities =
        activities_sorted_for_computation(activity_collection.get_not_sorted());
    let (static_data, insertion_data) =
        activities_into_computation_data(activity_collection.get_not_sorted());

    for (activity, static_data) in activities.iter().zip(static_data) {
        // Test that the id => index translation is right
        let mut ids = activity.incompatible_activity_ids();
        let mut ids_from_indexes = static_data
            .indexes_of_incompatible_activities
            .iter()
            .map(|&index| activities[index].id())
            .collect::<Vec<usize>>();
        ids.sort();
        ids_from_indexes.sort();
        assert_eq!(ids, ids_from_indexes);

        // Test that the duration translation is right
        assert_eq!(activity.duration().total_minutes(), static_data.duration_minutes);

        // Test that the possible insertions translation is right
        assert!(static_data.possible_insertion_beginnings_minutes_sorted.is_empty());
    }

    for (activity, insertion_data) in activities.iter().zip(insertion_data) {
        // Test that insertion is right
        assert_eq!(
            activity.insertion_interval().map(|interval| interval.beginning().total_minutes()),
            Some(insertion_data)
        );
    }
}

#[test]
fn added_activities_get_the_smallest_unused_ids() {
    let mut activities = Activities::new();
    assert_eq!(activities.add("a".to_owned()).id(), 0);
    assert_eq!(activities.add("b".to_owned()).id(), 1);
    assert_eq!(activities.add("c".to_owned()).id(), 2);
    activities.remove(1).expect("Could not remove activity");
    assert_eq!(activities.add("d".to_owned()).id(), 1);
    assert!(activities.remove(7).is_err());
}

#[test]
fn incompatibility_is_symmetric() {
    let activities = activities_with_conflicts();
    for a in activities.get_not_sorted() {
        assert!(!a.incompatible_activity_ids().contains(&a.id()));
        for b in activities.get_not_sorted() {
            assert_eq!(
                a.incompatible_activity_ids().contains(&b.id()),
                b.incompatible_activity_ids().contains(&a.id())
            );
        }
    }
}

#[test]
fn activities_sorted_by_name() {
    let mut activities = Activities::new();
    activities.add("b".to_owned());
    activities.add("a".to_owned());
    activities.add("c".to_owned());
    activities.add("a".to_owned());
    let sorted = activities.get_sorted_by_name();
    let names: Vec<String> = sorted.iter().map(|a| a.name()).collect();
    assert_eq!(names, vec!["a", "a", "b", "c"]);
    // Equal names keep their order.
    assert_eq!(sorted[0].id(), 1);
    assert_eq!(sorted[1].id(), 3);
}

#[test]
fn set_duration_errors() {
    let mut activities = Activities::new();
    let id = activities.add("a".to_owned()).id();
    assert!(activities.set_duration(id, Time::new(0, 4)).is_err());
    assert!(activities.set_duration(id + 1, Time::new(0, 30)).is_err());
    activities.set_duration(id, Time::new(0, 30)).expect("Could not set duration");
    assert_eq!(activities.get_by_id(id).unwrap().duration(), Time::new(0, 30));
}

fn conflicting_activities() -> (Activities, usize, usize) {
    let mut activities = Activities::new();
    let blocking = activities.add("Blocking".to_owned()).id();
    let other = activities.add("Other".to_owned()).id();
    activities.add_entity(blocking, "Jean".to_owned()).unwrap();
    activities.add_entity(other, "Jean".to_owned()).unwrap();
    activities.set_duration(blocking, Time::new(1, 0)).unwrap();
    activities.set_duration(other, Time::new(0, 30)).unwrap();
    activities
        .insert_activity(blocking, Some(Time::new(9, 0)))
        .unwrap();
    (activities, blocking, other)
}

#[test]
fn conflicts_rule_out_overlapping_beginnings() {
    let (activities, blocking, _) = conflicting_activities();
    let possible = vec![
        Time::new(8, 0),
        Time::new(8, 30),
        Time::new(8, 35),
        Time::new(8, 40),
        Time::new(9, 0),
        Time::new(9, 55),
        Time::new(10, 0),
    ];
    let filtered = activities.filter_insertion_times_for_conflicts(
        Some(possible),
        Time::new(0, 30),
        vec![blocking],
    );
    assert_eq!(
        filtered,
        Some(vec![Time::new(8, 0), Time::new(8, 30), Time::new(10, 0)])
    );
    assert_eq!(
        activities.filter_insertion_times_for_conflicts(None, Time::new(0, 30), vec![blocking]),
        None
    );
}

#[test]
fn possible_insertion_times_fuse_participants_then_filter_conflicts() {
    let (activities, _, other) = conflicting_activities();
    let jean = vec![Time::new(10, 0), Time::new(8, 0), Time::new(9, 0), Time::new(8, 30)];
    let bob = vec![Time::new(8, 30), Time::new(9, 0), Time::new(10, 0), Time::new(11, 0)];
    assert_eq!(
        activities
            .possible_insertion_times_of_activity(other, Some(vec![jean, bob]))
            .unwrap(),
        Some(vec![Time::new(8, 30), Time::new(10, 0)])
    );
    assert_eq!(
        activities
            .possible_insertion_times_of_activity(other, None)
            .unwrap(),
        None
    );
    assert!(activities
        .possible_insertion_times_of_activity(42, None)
        .is_err());
}

#[test]
fn index_maps_are_inverse() {
    let (activities, _, _) = conflicting_activities();
    let index_to_id = index_to_id_map(&activities.get_not_sorted().clone());
    let id_to_index = id_to_index_map(&activities.get_not_sorted().clone());
    assert_eq!(id_to_index.len(), index_to_id.len());
    for (index, id) in &index_to_id {
        assert_eq!(id_to_index[id], *index);
    }
    // The inserted activity comes first.
    assert_eq!(index_to_id[&0], 0);
}

#[test]
fn index_map_follows_sorted_order() {
    let mut activities = Activities::new();
    let easy = activities.add("Easy".to_owned()).id();
    let inserted = activities.add("Inserted".to_owned()).id();
    let hard = activities.add("Hard".to_owned()).id();
    activities.add_entity(inserted, "Jean".to_owned()).unwrap();
    activities.add_entity(hard, "Jean".to_owned()).unwrap();
    activities.set_duration(easy, Time::new(0, 30)).unwrap();
    activities.set_duration(inserted, Time::new(0, 30)).unwrap();
    activities.set_duration(hard, Time::new(1, 0)).unwrap();
    activities
        .insert_activity(inserted, Some(Time::new(9, 0)))
        .unwrap();
    let all = activities.get_not_sorted().clone();
    let sorted = activities_sorted_for_computation(&all);
    let index_to_id = index_to_id_map(&all);
    assert_eq!(
        sorted.iter().map(|a| a.id()).collect::<Vec<_>>(),
        vec![inserted, hard, easy]
    );
    assert_eq!(index_to_id.len(), sorted.len());
    for (k, activity) in sorted.iter().enumerate() {
        assert_eq!(index_to_id[&k], activity.id());
    }
    let id_to_index = id_to_index_map(&all);
    assert_eq!(id_to_index[&inserted], 0);
    assert_eq!(id_to_index[&hard], 1);
    assert_eq!(id_to_index[&easy], 2);
}

#[test]
fn conflict_ids_are_listed_once_and_never_self() {
    let mut activities = Activities::new();
    let a = activities.add("a".to_owned()).id();
    let b = activities.add("b".to_owned()).id();
    let c = activities.add("c".to_owned()).id();
    activities.add_entity(a, "B".to_owned()).unwrap();
    activities.add_entity(b, "A".to_owned()).unwrap();
    activities.add_entity(b, "B".to_owned()).unwrap();
    activities.add_entity(c, "A".to_owned()).unwrap();
    assert_eq!(activities.get_by_id(a).unwrap().incompatible_activity_ids(), vec![b]);
    assert_eq!(activities.get_by_id(b).unwrap().incompatible_activity_ids(), vec![a, c]);
    assert_eq!(activities.get_by_id(c).unwrap().incompatible_activity_ids(), vec![b]);
}

#[test]
fn intervals_are_ordered_by_beginning() {
    let early = TimeInterval::new(Time::new(8, 0), Time::new(9, 0));
    let late = TimeInterval::new(Time::new(8, 30), Time::new(9, 0));
    let longer = TimeInterval::new(Time::new(8, 0), Time::new(10, 0));
    assert!(early < late);
    assert!(late > longer);
    assert_eq!(early.partial_cmp(&longer), Some(std::cmp::Ordering::Equal));
    assert_ne!(early, longer);
}

#[test]
fn computation_data_equality_ignores_insertion_costs() {
    let (activities, blocking, other) = conflicting_activities();
    let mut copy = activities.clone();
    copy.set_insertion_costs(other, Some(vec![])).unwrap();
    assert_eq!(
        copy.get_by_id(other).unwrap().computation_data(),
        activities.get_by_id(other).unwrap().computation_data()
    );
    assert_ne!(
        copy.get_by_id(blocking).unwrap().computation_data(),
        activities.get_by_id(other).unwrap().computation_data()
    );
}
