//! The data model: goals, per-activity records, and one day's full survey.

use vstd::prelude::*;

use crate::date::Date;
use crate::text::json_plain;

verus! {

/// A predefined activity with an optional target minute range, loaded from
/// the goals file.  A goal defines a target, not an observation.
pub struct ActivityGoal {
    pub name: String,
    pub description: String,
    pub minimum_minutes: Option<u16>,
    pub maximum_minutes: Option<u16>,
}

/// Mathematical image of an [`ActivityGoal`].
pub struct ActivityGoalV {
    pub name: Seq<char>,
    pub description: Seq<char>,
    pub minimum_minutes: Option<u16>,
    pub maximum_minutes: Option<u16>,
}

impl View for ActivityGoal {
    type V = ActivityGoalV;

    open spec fn view(&self) -> ActivityGoalV {
        ActivityGoalV {
            name: self.name@,
            description: self.description@,
            minimum_minutes: self.minimum_minutes,
            maximum_minutes: self.maximum_minutes,
        }
    }
}

impl ActivityGoalV {
    /// Texts must be able to stand unescaped inside a JSON string.
    pub open spec fn wf(self) -> bool {
        json_plain(self.name) && json_plain(self.description)
    }
}

/// The goals file's content: a list of goals, surveyed in order.
pub struct ActivityGoals {
    pub activity_goals: Vec<ActivityGoal>,
}

impl View for ActivityGoals {
    type V = Seq<ActivityGoalV>;

    open spec fn view(&self) -> Seq<ActivityGoalV> {
        self.activity_goals@.map_values(|g: ActivityGoal| g@)
    }
}

/// One observed outcome: a goal merged with the minutes spent on it.
/// Immutable once constructed.
pub struct ActivityRecord {
    pub name: String,
    pub description: String,
    pub minutes_spent: u16,
    pub minimum_minutes: Option<u16>,
    pub maximum_minutes: Option<u16>,
}

/// Mathematical image of an [`ActivityRecord`].
pub struct ActivityRecordV {
    pub name: Seq<char>,
    pub description: Seq<char>,
    pub minutes_spent: u16,
    pub minimum_minutes: Option<u16>,
    pub maximum_minutes: Option<u16>,
}

impl View for ActivityRecord {
    type V = ActivityRecordV;

    open spec fn view(&self) -> ActivityRecordV {
        ActivityRecordV {
            name: self.name@,
            description: self.description@,
            minutes_spent: self.minutes_spent,
            minimum_minutes: self.minimum_minutes,
            maximum_minutes: self.maximum_minutes,
        }
    }
}

impl ActivityRecordV {
    /// Texts must be able to stand unescaped inside a JSON string.
    pub open spec fn wf(self) -> bool {
        json_plain(self.name) && json_plain(self.description)
    }
}

/// The record a survey produces for one goal and one answer.
pub open spec fn record_of(g: ActivityGoalV, minutes: u16) -> ActivityRecordV {
    ActivityRecordV {
        name: g.name,
        description: g.description,
        minutes_spent: minutes,
        minimum_minutes: g.minimum_minutes,
        maximum_minutes: g.maximum_minutes,
    }
}

impl ActivityRecord {
    /// Merges a goal with the observed number of minutes, keeping the goal's
    /// name, description and target range.
    pub fn from_goal(goal: ActivityGoal, minutes_spent: u16) -> (r: Self)
        ensures
            r@ == record_of(goal@, minutes_spent),
    {
        Self {
            name: goal.name,
            description: goal.description,
            minutes_spent,
            minimum_minutes: goal.minimum_minutes,
            maximum_minutes: goal.maximum_minutes,
        }
    }
}

/// A point in time: whole seconds since the Unix epoch plus a sub-second
/// part in nanoseconds.  The log stores it as a decimal `secs.nanos` number.
#[derive(Clone, Copy, PartialEq, Eq, Structural, Debug)]
pub struct Timestamp {
    pub secs: u64,
    pub nanos: u32,
}

impl Timestamp {
    /// The sub-second part stays below one second.
    pub open spec fn wf(self) -> bool {
        self.nanos < 1_000_000_000
    }

    pub fn new(secs: u64, nanos: u32) -> (r: Self)
        requires
            nanos < 1_000_000_000,
        ensures
            r == (Timestamp { secs, nanos }),
            r.wf(),
    {
        Timestamp { secs, nanos }
    }
}

/// One full day's survey: the moment it was taken, the calendar date it
/// reports on, and one record per goal, in goal order.  This is the atomic
/// unit appended to the log, never rewritten in place.
pub struct ActivitiesRecord {
    pub timestamp: Timestamp,
    pub record_date: Date,
    pub activities: Vec<ActivityRecord>,
}

/// Mathematical image of an [`ActivitiesRecord`].
pub struct ActivitiesRecordV {
    pub timestamp: Timestamp,
    pub record_date: Date,
    pub activities: Seq<ActivityRecordV>,
}

impl View for ActivitiesRecord {
    type V = ActivitiesRecordV;

    open spec fn view(&self) -> ActivitiesRecordV {
        ActivitiesRecordV {
            timestamp: self.timestamp,
            record_date: self.record_date,
            activities: self.activities@.map_values(|a: ActivityRecord| a@),
        }
    }
}

impl ActivitiesRecordV {
    pub open spec fn wf(self) -> bool {
        &&& self.timestamp.wf()
        &&& self.record_date.wf()
        &&& forall|k: int| 0 <= k < self.activities.len() ==> (#[trigger] self.activities[k]).wf()
    }
}

impl ActivitiesRecord {
    pub fn new(timestamp: Timestamp, record_date: Date, activities: Vec<ActivityRecord>) -> (r:
        Self)
        ensures
            r@.timestamp == timestamp,
            r@.record_date == record_date,
            r@.activities == activities@.map_values(|a: ActivityRecord| a@),
    {
        Self { timestamp, record_date, activities }
    }
}

/// Pairs each goal with its answered minutes, in goal order: the pure core
/// of the interactive survey.
pub fn survey(goals: Vec<ActivityGoal>, minutes: Vec<u16>) -> (r: Vec<ActivityRecord>)
    requires
        goals@.len() == minutes@.len(),
    ensures
        r@.len() == goals@.len(),
        forall|k: int| 0 <= k < r@.len() ==> r@[k]@ == record_of(goals@[k]@, minutes@[k]),
    decreases goals@.len(),
{
    let mut goals = goals;
    let mut minutes = minutes;
    if goals.len() == 0 {
        Vec::new()
    } else {
        let ghost goals0 = goals@;
        let ghost minutes0 = minutes@;
        let g = goals.remove(0);
        let m = minutes.remove(0);
        let first = ActivityRecord::from_goal(g, m);
        let mut rest = survey(goals, minutes);
        rest.insert(0, first);
        proof {
            assert forall|k: int| 0 <= k < rest@.len() implies rest@[k]@ == record_of(
                goals0[k]@,
                minutes0[k],
            ) by {
                if k > 0 {
                    assert(goals0.remove(0)[k - 1] == goals0[k]);
                    assert(minutes0.remove(0)[k - 1] == minutes0[k]);
                }
            }
        }
        rest
    }
}

} // verus!
