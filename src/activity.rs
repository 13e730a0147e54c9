//! Activity records.

use crate::calendar::Timestamp;
use vstd::prelude::*;

verus! {

/// One recorded session.
#[derive(Clone, Debug)]
pub struct Activity {
    pub id: String,
    pub date: Timestamp,
    pub name: String,
    /// Free-text category that activities are grouped by, such as `Running`.
    pub activity_type: String,
    /// Metres.
    pub distance: u32,
    /// `HH:MM:SS`.
    pub duration: String,
    /// Hundredths of the `minutes.seconds` encoding: 530 is 5:30 per km.
    pub average_pace: u16,
    /// Hundredths of km/h.
    pub average_speed: u32,
    /// kcal.
    pub calories: u32,
    /// Metres.
    pub climb: u32,
}

impl Activity {
    /// A copy of this activity.
    pub fn duplicate(&self) -> (r: Activity)
        ensures
            r == *self,
    {
        Activity {
            id: self.id.clone(),
            date: self.date,
            name: self.name.clone(),
            activity_type: self.activity_type.clone(),
            distance: self.distance,
            duration: self.duration.clone(),
            average_pace: self.average_pace,
            average_speed: self.average_speed,
            calories: self.calories,
            climb: self.climb,
        }
    }
}

pub open spec fn distances(s: Seq<Activity>) -> Seq<int> {
    s.map_values(|a: Activity| a.distance as int)
}

pub open spec fn paces(s: Seq<Activity>) -> Seq<int> {
    s.map_values(|a: Activity| a.average_pace as int)
}

/// Pace times distance of each activity.
pub open spec fn pace_weights(s: Seq<Activity>) -> Seq<int> {
    s.map_values(|a: Activity| a.average_pace as int * a.distance as int)
}

pub open spec fn speeds(s: Seq<Activity>) -> Seq<int> {
    s.map_values(|a: Activity| a.average_speed as int)
}

pub open spec fn climbs(s: Seq<Activity>) -> Seq<int> {
    s.map_values(|a: Activity| a.climb as int)
}

pub open spec fn calories(s: Seq<Activity>) -> Seq<int> {
    s.map_values(|a: Activity| a.calories as int)
}

} // verus!
