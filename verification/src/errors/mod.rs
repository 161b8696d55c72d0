//! Errors used in data.

pub mod add_entity_to_inserted_activity_invalid_spot;
pub mod add_entity_to_inserted_activity_spot_taken;
pub mod already_in;
pub mod does_not_exist;
pub mod invalid_insertion;
pub mod name_taken;
pub mod not_enough_time;
pub mod not_in;

use add_entity_to_inserted_activity_invalid_spot::AddEntityToInsertedActivityInvalidSpot;
use add_entity_to_inserted_activity_spot_taken::AddEntityToInsertedActivitySpotTaken;
use already_in::AlreadyIn;
use does_not_exist::DoesNotExist;
use invalid_insertion::InvalidInsertion;
use name_taken::NameTaken;
use not_enough_time::NotEnoughTime;
use not_in::NotIn;
use vstd::prelude::*;

verus! {

/// Every error that the data module can return.
#[derive(Debug)]
pub enum FelixError {
    AlreadyIn(Box<AlreadyIn>),
    NotIn(Box<NotIn>),
    NameTaken(Box<NameTaken>),
    InvalidInsertion(Box<InvalidInsertion>),
    AddEntityToInsertedActivitySpotTaken(Box<AddEntityToInsertedActivitySpotTaken>),
    AddEntityToInsertedActivityInvalidSpot(Box<AddEntityToInsertedActivityInvalidSpot>),
    DoesNotExist(Box<DoesNotExist>),
    NotEnoughTime(Box<NotEnoughTime>),
    /// The duration of an activity is shorter than the minimal discretization.
    DurationTooShort,
    /// A work interval overlaps with another one.
    IntervalOverlaps,
    /// Work hours cannot change while an activity is inserted.
    ChangeWorkHoursWhileActivityInserted,
    /// A name is empty once cleaned.
    EmptyName,
}

} // verus!
