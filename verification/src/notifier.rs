//! The notifier state machine: mapping events onto channel operations while
//! tracking, per course, the identifier of the visible notification.

use vstd::prelude::*;
use vstd::string::StrSliceExecFns;
use vstd::string::StringExecFns;
use crate::sched::{Class, ClassView};
use crate::timeline::Phase;
use crate::timeofday::{time_chars, fmt_hhmm};

verus! {

/// What a notification shows: a title naming the phase, and a description
/// with the time range, the course id and the link when one is known.
pub struct NotificationContent {
    pub title: String,
    pub description: String,
}

/// The channel operation that an event calls for.
pub enum ChannelAction {
    /// Post a new notification.
    Create(NotificationContent),
    /// Rewrite the notification with this message id.
    Update(String, NotificationContent),
    /// Retract the notification with this message id.
    Delete(String),
    /// No channel call: there is no message to target.
    Stay,
}

/// How the channel call ended; the notifier trusts only this report.
pub enum ChannelOutcome {
    /// A notification was created and the channel returned its message id.
    CreatedTracked(String),
    /// A notification was created but no message id could be extracted
    /// (an oversized response): sent but untracked.
    CreatedUntracked,
    /// An update or delete succeeded.
    Succeeded,
    /// The call failed; the tracked state must not change.
    Failed,
}

/// The title of the notification for a phase.
pub open spec fn title_chars(phase: Phase) -> Seq<char> {
    if phase == Phase::Starting {
        "Current Class"@
    } else {
        "Upcoming Class"@
    }
}

/// The description text: the time range in backticks, then the course id as
/// a link when one is known, or with a note that none is available.
pub open spec fn desc_chars(c: ClassView) -> Seq<char> {
    let times = "`"@ + time_chars(c.start_time) + "-"@ + time_chars(c.end_time) + "`"@;
    match c.link {
        Some(l) => times + " ["@ + c.course + "]("@ + l + ")"@,
        None => times + " "@ + c.course + " (Link not available)"@,
    }
}

/// The map that a list of (course, message id) entries spells, later
/// entries winning.
pub open spec fn map_of(entries: Seq<(Seq<char>, Seq<char>)>) -> Map<Seq<char>, Seq<char>>
    decreases entries.len(),
{
    if entries.len() == 0 {
        Map::empty()
    } else {
        map_of(entries.drop_last()).insert(entries.last().0, entries.last().1)
    }
}

/// No two entries name the same course.
pub open spec fn keys_unique(entries: Seq<(Seq<char>, Seq<char>)>) -> bool {
    forall|i: int, j: int| 0 <= i < j < entries.len() ==> entries[i].0 != entries[j].0
}

/// How one reported outcome changes the tracked map: a returned message id
/// is recorded for its course; a successful retraction removes the course;
/// everything else leaves the map unchanged.
pub open spec fn apply_map(
    m: Map<Seq<char>, Seq<char>>,
    phase: Phase,
    course: Seq<char>,
    outcome: ChannelOutcome,
) -> Map<Seq<char>, Seq<char>> {
    match outcome {
        ChannelOutcome::CreatedTracked(id) => m.insert(course, id@),
        ChannelOutcome::CreatedUntracked => m,
        ChannelOutcome::Succeeded => if phase == Phase::Ending {
            m.remove(course)
        } else {
            m
        },
        ChannelOutcome::Failed => m,
    }
}

/// A key no entry names is not in the map.
proof fn lemma_map_of_none(entries: Seq<(Seq<char>, Seq<char>)>, k: Seq<char>)
    requires
        forall|i: int| 0 <= i < entries.len() ==> (#[trigger] entries[i]).0 != k,
    ensures
        !map_of(entries).contains_key(k),
    decreases entries.len(),
{
    if entries.len() > 0 {
        lemma_map_of_none(entries.drop_last(), k);
    }
}

/// Each entry of a duplicate-free list is in the map, with its own id.
proof fn lemma_map_of_entry(entries: Seq<(Seq<char>, Seq<char>)>, i: int)
    requires
        keys_unique(entries),
        0 <= i < entries.len(),
    ensures
        map_of(entries).contains_key(entries[i].0),
        map_of(entries)[entries[i].0] == entries[i].1,
    decreases entries.len(),
{
    if i < entries.len() - 1 {
        lemma_map_of_entry(entries.drop_last(), i);
    }
}

/// Removing an entry of a duplicate-free list removes its course from the
/// map.
proof fn lemma_map_of_remove(entries: Seq<(Seq<char>, Seq<char>)>, i: int)
    requires
        keys_unique(entries),
        0 <= i < entries.len(),
    ensures
        map_of(entries.remove(i)) == map_of(entries).remove(entries[i].0),
    decreases entries.len(),
{
    let k = entries[i].0;
    if i == entries.len() - 1 {
        assert(entries.remove(i) =~= entries.drop_last());
        lemma_map_of_none(entries.drop_last(), k);
        assert(map_of(entries.drop_last()) =~= map_of(entries).remove(k));
    } else {
        assert(entries.remove(i).drop_last() =~= entries.drop_last().remove(i));
        assert(entries.remove(i).last() == entries.last());
        lemma_map_of_remove(entries.drop_last(), i);
        assert(map_of(entries.drop_last()).remove(k).insert(entries.last().0, entries.last().1)
            =~= map_of(entries.drop_last()).insert(entries.last().0, entries.last().1).remove(k));
    }
}

/// Removing an entry keeps the remaining courses distinct.
proof fn lemma_keys_unique_remove(entries: Seq<(Seq<char>, Seq<char>)>, i: int)
    requires
        keys_unique(entries),
        0 <= i < entries.len(),
    ensures
        keys_unique(entries.remove(i)),
{
    let r = entries.remove(i);
    assert forall|p: int, q: int| 0 <= p < q < r.len() implies r[p].0 != r[q].0 by {
        let p0 = if p < i {
            p
        } else {
            p + 1
        };
        let q0 = if q < i {
            q
        } else {
            q + 1
        };
        assert(r[p] == entries[p0]);
        assert(r[q] == entries[q0]);
    }
}

/// Appending an entry for a course no entry names keeps courses distinct.
proof fn lemma_keys_unique_push(entries: Seq<(Seq<char>, Seq<char>)>, k: Seq<char>, v: Seq<char>)
    requires
        keys_unique(entries),
        forall|p: int| 0 <= p < entries.len() ==> (#[trigger] entries[p]).0 != k,
    ensures
        keys_unique(entries.push((k, v))),
{
    let r = entries.push((k, v));
    assert forall|p: int, q: int| 0 <= p < q < r.len() implies r[p].0 != r[q].0 by {
        assert(r[p] == entries[p]);
        if q < entries.len() {
            assert(r[q] == entries[q]);
        } else {
            assert(r[q] == (k, v));
        }
    }
}

/// Whether two strings hold the same characters.
fn str_eq(a: &str, b: &str) -> (r: bool)
    ensures
        r == (a@ == b@),
{
    let a_len = a.unicode_len();
    let b_len = b.unicode_len();
    if a_len != b_len {
        return false;
    }
    let mut i: usize = 0;
    while i < a_len
        invariant
            i <= a_len,
            a_len == a@.len(),
            a_len == b@.len(),
            forall|k: int| 0 <= k < i ==> a@[k] == b@[k],
        decreases a_len - i,
    {
        if a.get_char(i) != b.get_char(i) {
            return false;
        }
        i += 1;
    }
    proof {
        assert(a@ =~= b@);
    }
    true
}

/// The notifier's own state: for each course with a visible notification,
/// the channel's message id for it.
pub struct Notifier {
    sent: Vec<(String, String)>,
}

impl View for Notifier {
    type V = Map<Seq<char>, Seq<char>>;

    closed spec fn view(&self) -> Map<Seq<char>, Seq<char>> {
        map_of(self.entries())
    }
}

impl Notifier {
    /// The tracked (course, message id) pairs, in insertion order.
    pub closed spec fn entries(&self) -> Seq<(Seq<char>, Seq<char>)> {
        Seq::new(self.sent@.len(), |i: int| (self.sent@[i].0@, self.sent@[i].1@))
    }

    /// Structural invariant: one entry per course.
    pub open spec fn wf(&self) -> bool {
        keys_unique(self.entries())
    }

    /// A notifier that tracks nothing.
    pub fn new() -> (r: Notifier)
        ensures
            r@ == Map::<Seq<char>, Seq<char>>::empty(),
            r.wf(),
            r.entries().len() == 0,
    {
        Notifier { sent: Vec::new() }
    }

    /// Index of the entry for a course, when one is tracked.
    fn find(&self, course: &str) -> (r: Option<usize>)
        requires
            self.wf(),
        ensures
            r matches Some(i) ==> i < self.entries().len() && self.entries()[i as int].0
                == course@ && self@.contains_key(course@) && self@[course@]
                == self.entries()[i as int].1,
            r is None ==> !self@.contains_key(course@),
    {
        let mut i: usize = 0;
        while i < self.sent.len()
            invariant
                self.wf(),
                i <= self.entries().len(),
                forall|k: int| 0 <= k < i ==> (#[trigger] self.entries()[k]).0 != course@,
            decreases self.entries().len() - i,
        {
            if str_eq(self.sent[i].0.as_str(), course) {
                proof {
                    lemma_map_of_entry(self.entries(), i as int);
                }
                return Some(i);
            }
            i += 1;
        }
        proof {
            lemma_map_of_none(self.entries(), course@);
        }
        None
    }

    /// The message id tracked for a course, when one is.
    pub fn tracked_id(&self, course: &str) -> (r: Option<&String>)
        requires
            self.wf(),
        ensures
            r matches Some(id) ==> self@.contains_key(course@) && self@[course@] == id@,
            r is None ==> !self@.contains_key(course@),
    {
        match self.find(course) {
            Some(i) => Some(&self.sent[i].1),
            None => None,
        }
    }

    /// How many courses have a tracked notification.
    pub fn tracked_count(&self) -> (r: usize)
        ensures
            r == self.entries().len(),
    {
        self.sent.len()
    }

    /// The channel operation an event calls for, per the transition table:
    /// Upcoming posts a new notification; Starting rewrites the tracked
    /// message, or posts anew when none is tracked; Ending retracts the
    /// tracked message, or does nothing when none is tracked.
    pub fn plan(&self, phase: Phase, class: &Class) -> (a: ChannelAction)
        requires
            self.wf(),
            class@.wf(),
        ensures
            phase == Phase::Upcoming ==> (a matches ChannelAction::Create(c)
                && c.title@ == title_chars(Phase::Upcoming)
                && c.description@ == desc_chars(class@)),
            phase == Phase::Starting && self@.contains_key(class@.course) ==> (a
                matches ChannelAction::Update(id, c) && id@ == self@[class@.course]
                && c.title@ == title_chars(Phase::Starting)
                && c.description@ == desc_chars(class@)),
            phase == Phase::Starting && !self@.contains_key(class@.course) ==> (a
                matches ChannelAction::Create(c) && c.title@ == title_chars(Phase::Starting)
                && c.description@ == desc_chars(class@)),
            phase == Phase::Ending && self@.contains_key(class@.course) ==> (a
                matches ChannelAction::Delete(id) && id@ == self@[class@.course]),
            phase == Phase::Ending && !self@.contains_key(class@.course) ==> a
                is Stay,
    {
        match phase {
            Phase::Upcoming => ChannelAction::Create(content_for(phase, class)),
            Phase::Starting => {
                match self.find(class.course()) {
                    Some(i) => ChannelAction::Update(
                        self.sent[i].1.clone(),
                        content_for(phase, class),
                    ),
                    None => ChannelAction::Create(content_for(phase, class)),
                }
            },
            Phase::Ending => {
                match self.find(class.course()) {
                    Some(i) => ChannelAction::Delete(self.sent[i].1.clone()),
                    None => ChannelAction::Stay,
                }
            },
        }
    }

    /// Records what the channel reported for one event: a fresh message id
    /// is tracked for the course, a successful retraction forgets it, and a
    /// failure or untracked post leaves the state unchanged.
    pub fn apply(&mut self, phase: Phase, course: &str, outcome: ChannelOutcome)
        requires
            old(self).wf(),
        ensures
            final(self).wf(),
            final(self)@ == apply_map(old(self)@, phase, course@, outcome),
    {
        match outcome {
            ChannelOutcome::CreatedTracked(id) => {
                let ghost m0 = self@;
                match self.find(course) {
                    Some(i) => {
                        let ghost e0 = self.entries();
                        self.sent.remove(i);
                        proof {
                            assert(self.entries() =~= e0.remove(i as int));
                            lemma_map_of_remove(e0, i as int);
                            lemma_keys_unique_remove(e0, i as int);
                            assert forall|p: int|
                                0 <= p < self.entries().len() implies (#[trigger] self.entries()[p]).0
                                != course@ by {
                                if p < i {
                                    assert(self.entries()[p] == e0[p]);
                                } else {
                                    assert(self.entries()[p] == e0[p + 1]);
                                }
                            }
                        }
                        let ghost e1 = self.entries();
                        self.sent.push((course.to_owned(), id));
                        proof {
                            assert(self.entries() =~= e1.push((course@, id@)));
                            lemma_keys_unique_push(e1, course@, id@);
                            assert(self.entries().drop_last() =~= e1);
                            assert(self.entries().last() == (course@, id@));
                            assert(self@ =~= m0.insert(course@, id@));
                        }
                    },
                    None => {
                        let ghost e1 = self.entries();
                        proof {
                            assert forall|p: int| 0 <= p < e1.len() implies (#[trigger] e1[p]).0
                                != course@ by {
                                if e1[p].0 == course@ {
                                    lemma_map_of_entry(e1, p);
                                }
                            }
                        }
                        self.sent.push((course.to_owned(), id));
                        proof {
                            assert(self.entries() =~= e1.push((course@, id@)));
                            lemma_keys_unique_push(e1, course@, id@);
                            assert(self.entries().drop_last() =~= e1);
                            assert(self.entries().last() == (course@, id@));
                        }
                    },
                }
            },
            ChannelOutcome::Succeeded => {
                match phase {
                    Phase::Ending => {
                        match self.find(course) {
                            Some(i) => {
                                let ghost e0 = self.entries();
                                self.sent.remove(i);
                                proof {
                                    assert(self.entries() =~= e0.remove(i as int));
                                    lemma_map_of_remove(e0, i as int);
                                    lemma_keys_unique_remove(e0, i as int);
                                }
                            },
                            None => {
                                proof {
                                    assert(self@ =~= self@.remove(course@));
                                }
                            },
                        }
                    },
                    _ => {},
                }
            },
            ChannelOutcome::CreatedUntracked => {},
            ChannelOutcome::Failed => {},
        }
    }

    /// Forgets every tracked record at once and hands back the message ids,
    /// so each can be retracted best-effort: the map is empty afterwards
    /// whatever becomes of those retractions.
    pub fn reset_all(&mut self) -> (ids: Vec<String>)
        requires
            old(self).wf(),
        ensures
            final(self)@ == Map::<Seq<char>, Seq<char>>::empty(),
            final(self).wf(),
            final(self).entries().len() == 0,
            ids@.len() == old(self).entries().len(),
            forall|i: int| 0 <= i < ids@.len() ==> (#[trigger] ids@[i])@ == old(
                self,
            ).entries()[i].1,
    {
        let mut ids: Vec<String> = Vec::new();
        let mut i: usize = 0;
        while i < self.sent.len()
            invariant
                i <= self.entries().len(),
                ids@.len() == i,
                forall|k: int| 0 <= k < i ==> (#[trigger] ids@[k])@ == self.entries()[k].1,
            decreases self.entries().len() - i,
        {
            ids.push(self.sent[i].1.clone());
            i += 1;
        }
        self.sent.clear();
        ids
    }
}

/// The notification content for a phase of a session.
pub fn content_for(phase: Phase, class: &Class) -> (c: NotificationContent)
    requires
        class@.wf(),
    ensures
        c.title@ == title_chars(phase),
        c.description@ == desc_chars(class@),
{
    let title = if let Phase::Starting = phase {
        String::from_str("Current Class")
    } else {
        String::from_str("Upcoming Class")
    };
    let mut description = String::new();
    description.append("`");
    description.append(fmt_hhmm(class.start_time()).as_str());
    description.append("-");
    description.append(fmt_hhmm(class.end_time()).as_str());
    description.append("`");
    match class.link() {
        Some(l) => {
            description.append(" [");
            description.append(class.course());
            description.append("](");
            description.append(l.as_str());
            description.append(")");
        },
        None => {
            description.append(" ");
            description.append(class.course());
            description.append(" (Link not available)");
        },
    }
    proof {
        assert(description@ =~= desc_chars(class@));
    }
    NotificationContent { title, description }
}

/// Handling a Starting event when a record already exists rewrites the same
/// message and never changes the tracked id: applied once or twice, the
/// tracked map is unchanged.
pub proof fn lemma_starting_idempotent(m: Map<Seq<char>, Seq<char>>, course: Seq<char>)
    requires
        m.contains_key(course),
    ensures
        apply_map(m, Phase::Starting, course, ChannelOutcome::Succeeded) == m,
        apply_map(
            apply_map(m, Phase::Starting, course, ChannelOutcome::Succeeded),
            Phase::Starting,
            course,
            ChannelOutcome::Succeeded,
        ) == m,
{
}

} // verus!
