//! The reminder record shown in the reminders panel.

use vstd::prelude::*;

use crate::date::Date;

verus! {

/// A stored reminder. `due` is optional; a reminder without a due date is
/// never overdue and sorts after dated ones.
pub struct Reminder {
    pub id: i64,
    pub text: String,
    pub due: Option<Date>,
    pub created_at: i64,
}

impl Reminder {
    /// True when the due date is strictly before `today`.
    pub fn is_overdue(&self, today: Date) -> (b: bool)
        ensures
            b == (self.due matches Some(d) && d.before(today)),
    {
        match &self.due {
            Some(d) => d.is_before(&today),
            None => false,
        }
    }
}

} // verus!
