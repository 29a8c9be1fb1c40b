//! Session-event scheduler and notification-state reconciler.
//!
//! A weekly timetable of class sessions is turned into a strictly ordered
//! timeline of dated events (Upcoming, Starting, Ending). A dispatch policy
//! classifies each event against the current time (missed, due now, or to be
//! waited for), and a notifier state machine maps events onto create, update
//! and delete operations against an external notification channel while
//! tracking, per course, the identifier of the currently visible message.

pub mod dispatch;
pub mod notifier;
pub mod sched;
pub mod timeline;
pub mod timeofday;
