//! Building one day's ordered timeline of dated events from its sessions.

use vstd::prelude::*;
use vstd::multiset::Multiset;
use vstd::string::StrSliceExecFns;
use crate::sched::{Class, ClassView};

verus! {

broadcast use vstd::seq_lib::group_to_multiset_ensures;

/// Phase of a session's lifecycle that an event marks.
#[derive(Clone, Copy, PartialEq, Eq, Debug)]
pub enum Phase {
    Upcoming,
    Starting,
    Ending,
}

impl Phase {
    /// Tie-break priority: Upcoming before Starting before Ending.
    pub open spec fn rank(self) -> int {
        match self {
            Phase::Upcoming => 0,
            Phase::Starting => 1,
            Phase::Ending => 2,
        }
    }

    /// Tie-break priority: Upcoming before Starting before Ending.
    pub fn rank_exec(&self) -> (r: u32)
        ensures
            r == self.rank(),
    {
        match self {
            Phase::Upcoming => 0,
            Phase::Starting => 1,
            Phase::Ending => 2,
        }
    }
}

/// One phase boundary of one session, placed at a minute of the day. The
/// instant may be negative: an Upcoming notice can fall before midnight.
#[derive(Debug)]
pub struct DatedEvent {
    pub instant: i64,
    pub phase: Phase,
    pub class: Class,
}

/// The mathematical reading of a `DatedEvent`.
pub struct DatedEventView {
    pub instant: int,
    pub phase: Phase,
    pub class: ClassView,
}

impl View for DatedEvent {
    type V = DatedEventView;

    open spec fn view(&self) -> DatedEventView {
        DatedEventView { instant: self.instant as int, phase: self.phase, class: self.class@ }
    }
}

impl DeepView for DatedEvent {
    type V = DatedEventView;

    open spec fn deep_view(&self) -> DatedEventView {
        self.view()
    }
}

/// The three events of one session: the Upcoming notice one notice window
/// before the start, the Starting event at the start, the Ending event at
/// the end.
pub open spec fn class_events(c: ClassView, notice_window: int) -> Seq<DatedEventView> {
    seq![
        DatedEventView { instant: c.start_time - notice_window, phase: Phase::Upcoming, class: c },
        DatedEventView { instant: c.start_time, phase: Phase::Starting, class: c },
        DatedEventView { instant: c.end_time, phase: Phase::Ending, class: c },
    ]
}

/// The events of all sessions of the day, in session order.
pub open spec fn all_events(classes: Seq<ClassView>, notice_window: int) -> Seq<DatedEventView>
    decreases classes.len(),
{
    if classes.len() == 0 {
        Seq::empty()
    } else {
        all_events(classes.drop_last(), notice_window) + class_events(
            classes.last(),
            notice_window,
        )
    }
}

/// Lexicographic order on character sequences, by code point.
pub open spec fn chars_le(a: Seq<char>, b: Seq<char>) -> bool
    decreases a.len(),
{
    if a.len() == 0 {
        true
    } else if b.len() == 0 {
        false
    } else if (a[0] as u32) < (b[0] as u32) {
        true
    } else if (a[0] as u32) > (b[0] as u32) {
        false
    } else {
        chars_le(a.drop_first(), b.drop_first())
    }
}

/// The timeline's total order: by instant, then by phase priority, then by
/// course id.
pub open spec fn event_le(a: DatedEventView, b: DatedEventView) -> bool {
    if a.instant != b.instant {
        a.instant < b.instant
    } else if a.phase.rank() != b.phase.rank() {
        a.phase.rank() < b.phase.rank()
    } else {
        chars_le(a.class.course, b.class.course)
    }
}

/// The sequence is sorted under the timeline order.
pub open spec fn events_sorted(s: Seq<DatedEventView>) -> bool {
    forall|p: int, q: int| 0 <= p < q < s.len() ==> event_le(s[p], s[q])
}

/// Any two character sequences compare one way or the other.
pub proof fn lemma_chars_le_total(a: Seq<char>, b: Seq<char>)
    ensures
        chars_le(a, b) || chars_le(b, a),
    decreases a.len(),
{
    if a.len() == 0 {
    } else if b.len() == 0 {
    } else if (a[0] as u32) < (b[0] as u32) {
    } else if (a[0] as u32) > (b[0] as u32) {
    } else {
        lemma_chars_le_total(a.drop_first(), b.drop_first());
    }
}

/// The lexicographic order is transitive.
pub proof fn lemma_chars_le_trans(a: Seq<char>, b: Seq<char>, c: Seq<char>)
    requires
        chars_le(a, b),
        chars_le(b, c),
    ensures
        chars_le(a, c),
    decreases a.len(),
{
    if a.len() == 0 {
    } else {
        if b.len() == 0 {
        } else if c.len() == 0 {
        } else {
            if (a[0] as u32) < (c[0] as u32) {
            } else if (a[0] as u32) > (c[0] as u32) {
                assert(false);
            } else {
                if (a[0] as u32) == (b[0] as u32) && (b[0] as u32) == (c[0] as u32) {
                    lemma_chars_le_trans(a.drop_first(), b.drop_first(), c.drop_first());
                }
            }
        }
    }
}

/// Any two events compare one way or the other under the timeline order.
pub proof fn lemma_event_le_total(a: DatedEventView, b: DatedEventView)
    ensures
        event_le(a, b) || event_le(b, a),
{
    lemma_chars_le_total(a.class.course, b.class.course);
}

/// The timeline order is transitive.
pub proof fn lemma_event_le_trans(a: DatedEventView, b: DatedEventView, c: DatedEventView)
    requires
        event_le(a, b),
        event_le(b, c),
    ensures
        event_le(a, c),
{
    if a.instant == b.instant && b.instant == c.instant && a.phase.rank() == b.phase.rank()
        && b.phase.rank() == c.phase.rank() {
        lemma_chars_le_trans(a.class.course, b.class.course, c.class.course);
    }
}

/// A day of `n` sessions yields exactly `3 * n` events.
pub proof fn lemma_all_events_len(classes: Seq<ClassView>, notice_window: int)
    ensures
        all_events(classes, notice_window).len() == 3 * classes.len(),
    decreases classes.len(),
{
    if classes.len() > 0 {
        lemma_all_events_len(classes.drop_last(), notice_window);
    }
}

/// Every session contributes its Upcoming, Starting and Ending event to the
/// day's events.
pub proof fn lemma_session_events_present(classes: Seq<ClassView>, notice_window: int, i: int)
    requires
        0 <= i < classes.len(),
    ensures
        forall|k: int| 0 <= k < 3 ==> all_events(classes, notice_window).contains(
            #[trigger] class_events(classes[i], notice_window)[k],
        ),
    decreases classes.len(),
{
    let whole = all_events(classes, notice_window);
    let prev = all_events(classes.drop_last(), notice_window);
    let trio = class_events(classes.last(), notice_window);
    if i == classes.len() - 1 {
        assert forall|k: int| 0 <= k < 3 implies whole.contains(
            #[trigger] class_events(classes[i], notice_window)[k],
        ) by {
            assert(whole[prev.len() + k] == class_events(classes[i], notice_window)[k]);
        }
    } else {
        lemma_session_events_present(classes.drop_last(), notice_window, i);
        assert forall|k: int| 0 <= k < 3 implies whole.contains(
            #[trigger] class_events(classes[i], notice_window)[k],
        ) by {
            let x = class_events(classes[i], notice_window)[k];
            assert(classes.drop_last()[i] == classes[i]);
            assert(prev.contains(x));
            let j = choose|j: int| 0 <= j < prev.len() && prev[j] == x;
            assert(whole[j] == x);
        }
    }
}

/// Any sequence that holds the day's events, as the built timeline does by
/// its multiset, holds all three phases of every session.
pub proof fn lemma_build_has_all_phases(
    out: Seq<DatedEventView>,
    classes: Seq<ClassView>,
    notice_window: int,
    i: int,
)
    requires
        out.to_multiset() == all_events(classes, notice_window).to_multiset(),
        0 <= i < classes.len(),
    ensures
        forall|k: int| 0 <= k < 3 ==> out.contains(
            #[trigger] class_events(classes[i], notice_window)[k],
        ),
{
    lemma_session_events_present(classes, notice_window, i);
    assert forall|k: int| 0 <= k < 3 implies out.contains(
        #[trigger] class_events(classes[i], notice_window)[k],
    ) by {
        let x = class_events(classes[i], notice_window)[k];
        assert(all_events(classes, notice_window).to_multiset().count(x) > 0);
        assert(out.to_multiset().count(x) > 0);
    }
}

/// For every session, the Upcoming event falls exactly one notice window
/// before the Starting event, and the Ending event falls strictly after the
/// Starting event.
pub proof fn lemma_event_spacing(c: ClassView, notice_window: int)
    requires
        c.wf(),
    ensures
        class_events(c, notice_window)[0].instant == class_events(c, notice_window)[1].instant
            - notice_window,
        class_events(c, notice_window)[2].instant > class_events(c, notice_window)[1].instant,
        class_events(c, notice_window)[0].phase == Phase::Upcoming,
        class_events(c, notice_window)[1].phase == Phase::Starting,
        class_events(c, notice_window)[2].phase == Phase::Ending,
{
}

/// Whether `a` comes no later than `b` in lexicographic course-id order.
fn chars_le_exec(a: &str, b: &str) -> (r: bool)
    ensures
        r == chars_le(a@, b@),
{
    let a_len = a.unicode_len();
    let b_len = b.unicode_len();
    let mut i: usize = 0;
    proof {
        assert(a@.skip(0) =~= a@);
        assert(b@.skip(0) =~= b@);
    }
    loop
        invariant
            i <= a_len,
            i <= b_len,
            a_len == a@.len(),
            b_len == b@.len(),
            forall|k: int| 0 <= k < i ==> a@[k] == b@[k],
            chars_le(a@, b@) == chars_le(a@.skip(i as int), b@.skip(i as int)),
        decreases a_len - i,
    {
        if i == a_len {
            return true;
        }
        if i == b_len {
            return false;
        }
        let ca = a.get_char(i);
        let cb = b.get_char(i);
        let ua = ca as u32;
        let ub = cb as u32;
        proof {
            assert(a@.skip(i as int)[0] == a@[i as int]);
            assert(b@.skip(i as int)[0] == b@[i as int]);
        }
        if ua < ub {
            return true;
        }
        if ua > ub {
            return false;
        }
        proof {
            assert(a@.skip(i as int).drop_first() =~= a@.skip(i as int + 1));
            assert(b@.skip(i as int).drop_first() =~= b@.skip(i as int + 1));
        }
        i += 1;
    }
}

/// Whether `a` comes no later than `b` in the timeline order.
fn event_le_exec(a: &DatedEvent, b: &DatedEvent) -> (r: bool)
    ensures
        r == event_le(a@, b@),
{
    if a.instant != b.instant {
        a.instant < b.instant
    } else {
        let ra = a.phase.rank_exec();
        let rb = b.phase.rank_exec();
        if ra != rb {
            ra < rb
        } else {
            chars_le_exec(a.class.course(), b.class.course())
        }
    }
}

/// The index before which every event comes no later than `e`, and at which,
/// if it exists, the event does not.
fn insert_position(r: &Vec<DatedEvent>, e: &DatedEvent) -> (i: usize)
    ensures
        i <= r@.len(),
        forall|k: int| 0 <= k < i ==> event_le(r.deep_view()[k], e@),
        i < r@.len() ==> !event_le(r.deep_view()[i as int], e@),
{
    let mut i: usize = 0;
    loop
        invariant
            i <= r@.len(),
            forall|k: int| 0 <= k < i ==> event_le(r.deep_view()[k], e@),
        decreases r@.len() - i,
    {
        if i == r.len() {
            return i;
        }
        if !event_le_exec(&r[i], e) {
            return i;
        }
        i += 1;
    }
}

/// Inserts an event into a sorted timeline, keeping it sorted.
fn insert_event(r: &mut Vec<DatedEvent>, e: DatedEvent)
    requires
        events_sorted(old(r).deep_view()),
    ensures
        events_sorted(final(r).deep_view()),
        final(r).deep_view().to_multiset() == old(r).deep_view().to_multiset().insert(e@),
        final(r)@.len() == old(r)@.len() + 1,
{
    let ghost old_dv = r.deep_view();
    let ghost ev = e@;
    let i = insert_position(r, &e);
    r.insert(i, e);
    proof {
        assert(r.deep_view() =~= old_dv.insert(i as int, ev));
        let new_dv = r.deep_view();
        assert forall|p: int, q: int| 0 <= p < q < new_dv.len() implies event_le(
            new_dv[p],
            new_dv[q],
        ) by {
            if p == i && q > i {
                lemma_event_le_total(ev, old_dv[i as int]);
                if q - 1 > i {
                    lemma_event_le_trans(ev, old_dv[i as int], old_dv[q - 1]);
                }
            }
        }
    }
}

/// Builds the day's timeline: exactly three events per session (Upcoming,
/// Starting, Ending), sorted by instant with ties broken by phase priority
/// and then by course id.
pub fn build(classes: &Vec<Class>, notice_window: u32) -> (r: Vec<DatedEvent>)
    ensures
        r@.len() == 3 * classes@.len(),
        events_sorted(r.deep_view()),
        r.deep_view().to_multiset() == all_events(
            classes.deep_view(),
            notice_window as int,
        ).to_multiset(),
{
    let mut r: Vec<DatedEvent> = Vec::new();
    let mut i: usize = 0;
    proof {
        assert(r.deep_view() =~= Seq::<DatedEventView>::empty());
        assert(classes.deep_view().take(0) =~= Seq::<ClassView>::empty());
    }
    while i < classes.len()
        invariant
            i <= classes@.len(),
            r@.len() == 3 * i,
            events_sorted(r.deep_view()),
            r.deep_view().to_multiset() == all_events(
                classes.deep_view().take(i as int),
                notice_window as int,
            ).to_multiset(),
        decreases classes@.len() - i,
    {
        let c = &classes[i];
        let start = c.start_time();
        let upcoming = DatedEvent {
            instant: start as i64 - notice_window as i64,
            phase: Phase::Upcoming,
            class: c.clone(),
        };
        let starting = DatedEvent {
            instant: start as i64,
            phase: Phase::Starting,
            class: c.clone(),
        };
        let ending = DatedEvent {
            instant: c.end_time() as i64,
            phase: Phase::Ending,
            class: c.clone(),
        };
        let ghost cv = classes.deep_view()[i as int];
        let ghost e0 = upcoming@;
        let ghost e1 = starting@;
        let ghost e2 = ending@;
        insert_event(&mut r, upcoming);
        insert_event(&mut r, starting);
        insert_event(&mut r, ending);
        proof {
            let taken = classes.deep_view().take(i as int + 1);
            assert(taken.drop_last() =~= classes.deep_view().take(i as int));
            assert(taken.last() == cv);
            let prev = all_events(classes.deep_view().take(i as int), notice_window as int);
            let trio = class_events(cv, notice_window as int);
            vstd::seq_lib::lemma_multiset_commutative(prev, trio);
            assert(trio =~= Seq::<DatedEventView>::empty().push(e0).push(e1).push(e2));
            assert(trio.to_multiset() =~= Multiset::<DatedEventView>::empty().insert(e0).insert(
                e1,
            ).insert(e2));
            assert(prev.to_multiset().add(trio.to_multiset()) =~= prev.to_multiset().insert(
                e0,
            ).insert(e1).insert(e2));
        }
        i += 1;
    }
    proof {
        assert(classes.deep_view().take(classes@.len() as int) =~= classes.deep_view());
    }
    r
}

} // verus!
