//! The weekly timetable: sessions, weekdays, and load-time validation.

use vstd::prelude::*;
use crate::timeofday::{hhmm_valid, hhmm_minutes, parse_hhmm, MINUTES_PER_DAY};

verus! {

/// A day of the week, Monday first.
#[derive(Clone, Copy, PartialEq, Eq, Debug)]
pub enum Weekday {
    Mon,
    Tue,
    Wed,
    Thu,
    Fri,
    Sat,
    Sun,
}

impl Weekday {
    /// Position of the day within the week, Monday = 0.
    pub open spec fn day_ord(self) -> int {
        match self {
            Weekday::Mon => 0,
            Weekday::Tue => 1,
            Weekday::Wed => 2,
            Weekday::Thu => 3,
            Weekday::Fri => 4,
            Weekday::Sat => 5,
            Weekday::Sun => 6,
        }
    }

    /// Position of the day within the week, Monday = 0.
    pub fn day_index(&self) -> (i: usize)
        ensures
            i == self.day_ord(),
    {
        match self {
            Weekday::Mon => 0,
            Weekday::Tue => 1,
            Weekday::Wed => 2,
            Weekday::Thu => 3,
            Weekday::Fri => 4,
            Weekday::Sat => 5,
            Weekday::Sun => 6,
        }
    }
}

/// Why a timetable fails to load. Load errors are fatal: the process cannot
/// run with a malformed timetable.
#[derive(Clone, Copy, PartialEq, Eq, Debug)]
pub enum LoadError {
    /// The start time is not a valid 24-hour "HH:MM" string.
    BadStartTime,
    /// The end time is not a valid 24-hour "HH:MM" string.
    BadEndTime,
    /// The session does not start strictly before it ends.
    StartNotBeforeEnd,
    /// Two sessions on the same weekday share a course id.
    DuplicateCourse,
}

/// One scheduled class occurrence: course id, time range, optional link.
#[derive(Debug)]
pub struct Class {
    course: String,
    start_time: u32,
    end_time: u32,
    link: Option<String>,
}

/// The mathematical reading of a `Class`.
pub struct ClassView {
    pub course: Seq<char>,
    pub start_time: int,
    pub end_time: int,
    pub link: Option<Seq<char>>,
}

impl ClassView {
    /// Load-time invariant: the session starts strictly before it ends,
    /// both within one day.
    pub open spec fn wf(self) -> bool {
        0 <= self.start_time < self.end_time < MINUTES_PER_DAY
    }
}

impl View for Class {
    type V = ClassView;

    closed spec fn view(&self) -> ClassView {
        ClassView {
            course: self.course@,
            start_time: self.start_time as int,
            end_time: self.end_time as int,
            link: match self.link {
                Some(l) => Some(l@),
                None => None,
            },
        }
    }
}

impl DeepView for Class {
    type V = ClassView;

    open spec fn deep_view(&self) -> ClassView {
        self.view()
    }
}

impl Clone for Class {
    fn clone(&self) -> (r: Self)
        ensures
            r@ == self@,
    {
        Class {
            course: self.course.clone(),
            start_time: self.start_time,
            end_time: self.end_time,
            link: match &self.link {
                Some(l) => Some(l.clone()),
                None => None,
            },
        }
    }
}

impl Class {
    /// Builds a session from its text fields. The times must read as 24-hour
    /// "HH:MM" with the start strictly before the end; an empty link is
    /// normalized to absent.
    pub fn from_parts(course: String, start_time: &str, end_time: &str, link: String) -> (r:
        Result<Class, LoadError>)
        ensures
            !hhmm_valid(start_time@) ==> r == Err::<Class, LoadError>(LoadError::BadStartTime),
            hhmm_valid(start_time@) && !hhmm_valid(end_time@) ==> r == Err::<Class, LoadError>(
                LoadError::BadEndTime,
            ),
            hhmm_valid(start_time@) && hhmm_valid(end_time@) && hhmm_minutes(start_time@)
                >= hhmm_minutes(end_time@) ==> r == Err::<Class, LoadError>(
                LoadError::StartNotBeforeEnd,
            ),
            hhmm_valid(start_time@) && hhmm_valid(end_time@) && hhmm_minutes(start_time@)
                < hhmm_minutes(end_time@) ==> (r matches Ok(c) && c@ == (ClassView {
                course: course@,
                start_time: hhmm_minutes(start_time@),
                end_time: hhmm_minutes(end_time@),
                link: if link@.len() == 0 {
                    None
                } else {
                    Some(link@)
                },
            }) && c@.wf()),
    {
        let start = match parse_hhmm(start_time) {
            Some(m) => m,
            None => {
                return Err(LoadError::BadStartTime);
            },
        };
        let end = match parse_hhmm(end_time) {
            Some(m) => m,
            None => {
                return Err(LoadError::BadEndTime);
            },
        };
        if start >= end {
            return Err(LoadError::StartNotBeforeEnd);
        }
        let link = if link.as_str().is_empty() {
            None
        } else {
            Some(link)
        };
        Ok(Class { course, start_time: start, end_time: end, link })
    }

    /// The course id.
    pub fn course(&self) -> (r: &str)
        ensures
            r@ == self@.course,
    {
        self.course.as_str()
    }

    /// Start of the session, in minutes since midnight.
    pub fn start_time(&self) -> (r: u32)
        ensures
            r == self@.start_time,
    {
        self.start_time
    }

    /// End of the session, in minutes since midnight.
    pub fn end_time(&self) -> (r: u32)
        ensures
            r == self@.end_time,
    {
        self.end_time
    }

    /// The session's link, when one was given.
    pub fn link(&self) -> (r: &Option<String>)
        ensures
            (r matches Some(l) ==> self@.link == Some(l@)),
            (r is None ==> self@.link is None),
    {
        &self.link
    }
}

/// No two sessions of the day share a course id.
pub open spec fn courses_unique(day: Seq<ClassView>) -> bool {
    forall|i: int, j: int| 0 <= i < j < day.len() ==> day[i].course != day[j].course
}

/// Every session of the day satisfies the load-time invariant.
pub open spec fn day_classes_wf(day: Seq<ClassView>) -> bool {
    forall|i: int| 0 <= i < day.len() ==> (#[trigger] day[i]).wf()
}

/// A day's sessions are well formed and course ids are unique on it.
pub open spec fn day_wf(day: Seq<ClassView>) -> bool {
    day_classes_wf(day) && courses_unique(day)
}

/// The classes that a list of (weekday, classes) entries leaves on day `d`:
/// the last entry for that weekday wins, as a later entry replaces an
/// earlier one for the same day.
pub open spec fn day_classes(entries: Seq<(Weekday, Vec<Class>)>, d: int) -> Seq<ClassView>
    decreases entries.len(),
{
    if entries.len() == 0 {
        Seq::empty()
    } else if entries.last().0.day_ord() == d {
        entries.last().1.deep_view()
    } else {
        day_classes(entries.drop_last(), d)
    }
}

/// Every entry's class list is free of duplicate course ids.
pub open spec fn entries_ok(entries: Seq<(Weekday, Vec<Class>)>) -> bool {
    forall|k: int| 0 <= k < entries.len() ==> courses_unique(
        (#[trigger] entries[k]).1.deep_view(),
    )
}

/// Every class of every entry satisfies the load-time invariant.
pub open spec fn entries_wf(entries: Seq<(Weekday, Vec<Class>)>) -> bool {
    forall|k: int| 0 <= k < entries.len() ==> day_classes_wf((#[trigger] entries[k]).1.deep_view())
}

/// The full weekly timetable: the classes of each of the 7 weekdays.
#[derive(Debug)]
pub struct Schedule {
    days: Vec<Vec<Class>>,
}

impl View for Schedule {
    type V = Seq<Seq<ClassView>>;

    closed spec fn view(&self) -> Seq<Seq<ClassView>> {
        self.days.deep_view()
    }
}

impl Schedule {
    /// Structural invariant: one class list per weekday, each well formed.
    pub open spec fn wf(&self) -> bool {
        &&& self@.len() == 7
        &&& forall|d: int| 0 <= d < 7 ==> day_wf(#[trigger] self@[d])
    }

    /// Builds the timetable from per-weekday entries; a later entry replaces
    /// an earlier one for the same weekday. Loading fails, and builds
    /// nothing, when two sessions of one entry share a course id.
    pub fn from_map(entries: &Vec<(Weekday, Vec<Class>)>) -> (r: Result<Schedule, LoadError>)
        requires
            entries_wf(entries@),
        ensures
            r is Ok <==> entries_ok(entries@),
            r is Err ==> r == Err::<Schedule, LoadError>(LoadError::DuplicateCourse),
            r matches Ok(s) ==> {
                &&& s.wf()
                &&& forall|d: int| 0 <= d < 7 ==> #[trigger] s@[d] == day_classes(entries@, d)
            },
    {
        let mut days: Vec<Vec<Class>> = Vec::new();
        let mut d: usize = 0;
        while d < 7
            invariant
                d <= 7,
                days@.len() == d,
                forall|i: int| 0 <= i < d ==> (#[trigger] days@[i]).deep_view() =~= Seq::<
                    ClassView,
                >::empty(),
            decreases 7 - d,
        {
            days.push(Vec::new());
            d += 1;
        }
        let mut k: usize = 0;
        while k < entries.len()
            invariant
                k <= entries@.len(),
                entries_wf(entries@),
                days@.len() == 7,
                forall|i: int| 0 <= i < 7 ==> (#[trigger] days@[i]).deep_view() == day_classes(
                    entries@.take(k as int),
                    i,
                ),
                forall|j: int| 0 <= j < k ==> courses_unique(
                    (#[trigger] entries@[j]).1.deep_view(),
                ),
            decreases entries@.len() - k,
        {
            let entry = &entries[k];
            if day_has_duplicate(&entry.1) {
                return Err(LoadError::DuplicateCourse);
            }
            let w = entry.0.day_index();
            let classes = clone_classes(&entry.1);
            days[w] = classes;
            proof {
                assert(entries@.take(k as int + 1).drop_last() =~= entries@.take(k as int));
                assert(entries@.take(k as int + 1).last() == entries@[k as int]);
                assert forall|i: int| 0 <= i < 7 implies (#[trigger] days@[i]).deep_view()
                    == day_classes(entries@.take(k as int + 1), i) by {
                    if i != entry.0.day_ord() {
                        assert(day_classes(entries@.take(k as int + 1), i) == day_classes(
                            entries@.take(k as int),
                            i,
                        ));
                    }
                }
            }
            k += 1;
        }
        proof {
            assert(entries@.take(entries@.len() as int) =~= entries@);
            let s = Schedule { days };
            assert forall|i: int| 0 <= i < 7 implies #[trigger] s@[i] == day_classes(
                entries@,
                i,
            ) by {
                assert(s@[i] == days@[i].deep_view());
            }
            assert forall|i: int| 0 <= i < 7 implies day_wf(#[trigger] s@[i]) by {
                lemma_day_classes_from_entries(entries@, i);
            }
        }
        Ok(Schedule { days })
    }

    /// The classes scheduled on the given weekday.
    fn classes_on_weekday(&self, weekday: Weekday) -> (r: &Vec<Class>)
        requires
            self@.len() == 7,
        ensures
            r.deep_view() == self@[weekday.day_ord()],
    {
        &self.days[weekday.day_index()]
    }

    /// The classes scheduled on a date that falls on the given weekday.
    pub fn classes_on_date(&self, weekday: Weekday) -> (r: &Vec<Class>)
        requires
            self@.len() == 7,
        ensures
            r.deep_view() == self@[weekday.day_ord()],
    {
        self.classes_on_weekday(weekday)
    }
}

/// The classes a list of entries leaves on a day are the classes of one of
/// the entries, or none; so validity of every entry carries over to the day.
proof fn lemma_day_classes_from_entries(entries: Seq<(Weekday, Vec<Class>)>, d: int)
    requires
        entries_wf(entries),
        entries_ok(entries),
    ensures
        day_wf(day_classes(entries, d)),
    decreases entries.len(),
{
    if entries.len() > 0 {
        assert(entries.drop_last().len() == entries.len() - 1);
        if entries.last().0.day_ord() == d {
            assert(entries[entries.len() - 1].1.deep_view() == entries.last().1.deep_view());
        } else {
            lemma_day_classes_from_entries(entries.drop_last(), d);
        }
    }
}

/// Whether two of the day's sessions share a course id.
fn day_has_duplicate(classes: &Vec<Class>) -> (b: bool)
    ensures
        b == !courses_unique(classes.deep_view()),
{
    let n = classes.len();
    let mut i: usize = 0;
    while i < n
        invariant
            n == classes@.len(),
            i <= n,
            forall|p: int, q: int| 0 <= p < q < n && p < i ==> classes.deep_view()[p].course
                != classes.deep_view()[q].course,
        decreases n - i,
    {
        let mut j: usize = i + 1;
        while j < n
            invariant
                n == classes@.len(),
                i < n,
                i < j <= n,
                forall|q: int| i < q < j ==> classes.deep_view()[i as int].course
                    != classes.deep_view()[q].course,
            decreases n - j,
        {
            if classes[i].course == classes[j].course {
                proof {
                    assert(classes.deep_view()[i as int].course == classes@[i as int]@.course);
                    assert(classes.deep_view()[j as int].course == classes@[j as int]@.course);
                }
                return true;
            }
            j += 1;
        }
        i += 1;
    }
    false
}

/// A fresh copy of a day's class list.
fn clone_classes(classes: &Vec<Class>) -> (r: Vec<Class>)
    ensures
        r.deep_view() == classes.deep_view(),
{
    let mut r: Vec<Class> = Vec::new();
    let mut i: usize = 0;
    while i < classes.len()
        invariant
            i <= classes@.len(),
            r@.len() == i,
            forall|p: int| 0 <= p < i ==> (#[trigger] r@[p])@ == classes@[p]@,
        decreases classes@.len() - i,
    {
        r.push(classes[i].clone());
        i += 1;
    }
    proof {
        assert(r.deep_view() =~= classes.deep_view());
    }
    r
}

} // verus!
