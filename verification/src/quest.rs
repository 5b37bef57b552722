//! A single quest: a named task with an experience reward, an optional
//! daily-recurrence flag, and the record of its last completion.

use crate::date::{parse_date, parse_ymd, today_date, valid_ymd, Date};
use vstd::prelude::*;

verus! {

/// A named, rewarded task, either one-shot or daily-recurring.
///
/// `date_last_completed` holds the last completion date in `YYYY-MM-DD`
/// form, or the empty string for "never completed". A string that does not
/// parse as a calendar date also counts as "never completed".
pub struct Quest {
    pub name: String,
    pub exp: u32,
    pub date_last_completed: String,
    pub daily: bool,
}

/// The mathematical model of a quest: the stored completion-date string is
/// abstracted to its parsed form.
#[verifier::ext_equal]
pub struct QuestV {
    pub name: Seq<char>,
    pub exp: int,
    pub last: Option<(int, int, int)>,
    pub daily: bool,
}

impl View for Quest {
    type V = QuestV;

    open spec fn view(&self) -> QuestV {
        QuestV {
            name: self.name@,
            exp: self.exp as int,
            last: if self.date_last_completed@.len() == 0 {
                None
            } else {
                parse_ymd(self.date_last_completed@)
            },
            daily: self.daily,
        }
    }
}

/// The models of a sequence of quests, element by element.
pub open spec fn views_of(qs: Seq<Quest>) -> Seq<QuestV> {
    Seq::new(qs.len(), |i: int| qs[i]@)
}

/// The predicate "open on `today`": the Completion Rule does not hold.
pub open spec fn is_open(today: (int, int, int)) -> spec_fn(QuestV) -> bool {
    |q: QuestV| !is_completed_v(q, today)
}

/// The Quest Completion Rule: whether a quest counts as completed on
/// `today`. A daily quest is completed exactly when its recorded date is
/// `today`; a one-shot quest is completed as soon as any date is recorded;
/// a quest with no (parseable) recorded date is never completed.
pub open spec fn is_completed_v(q: QuestV, today: (int, int, int)) -> bool {
    match q.last {
        None => false,
        Some(d) => if q.daily {
            d == today
        } else {
            true
        },
    }
}

impl Clone for Quest {
    fn clone(&self) -> (r: Self)
        ensures
            r == *self,
    {
        Quest {
            name: self.name.clone(),
            exp: self.exp,
            date_last_completed: self.date_last_completed.clone(),
            daily: self.daily,
        }
    }
}

impl Quest {
    /// A fresh quest: never completed.
    pub fn new(name: &str, exp: u32, daily: bool) -> (q: Quest)
        ensures
            q@ == (QuestV { name: name@, exp: exp as int, last: None, daily }),
    {
        let name = name.to_owned();
        let date_last_completed = String::new();
        Quest { name, exp, date_last_completed, daily }
    }

    /// The recorded completion date in parsed form; `None` when the stored
    /// string is empty or does not parse as a calendar date.
    pub fn date_last_completed(&self) -> (r: Option<Date>)
        ensures
            r is Some <==> self@.last is Some,
            r matches Some(d) ==> self@.last == Some(d@),
    {
        if self.date_last_completed.as_str().is_empty() {
            None
        } else {
            parse_date(self.date_last_completed.as_str())
        }
    }

    /// The Completion Rule, with "today" injected by the caller.
    pub fn is_completed(&self, today: &Date) -> (r: bool)
        ensures
            r == is_completed_v(self@, today@),
    {
        match self.date_last_completed() {
            None => false,
            Some(d) => if self.daily {
                d == *today
            } else {
                true
            },
        }
    }

    /// Completion status against the local clock's current date.
    pub fn completed(&self) -> (r: bool)
        ensures
            exists|t: (int, int, int)| valid_ymd(t) && r == #[trigger] is_completed_v(self@, t),
    {
        let today = today_date();
        let r = self.is_completed(&today);
        proof {
            assert(valid_ymd(today@) && r == is_completed_v(self@, today@));
        }
        r
    }
}

} // verus!
