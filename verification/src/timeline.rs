//! The timeline: maps a time `t` on the speech to the complete presentation
//! state (page, element visibility, handwriting progress, script sentence).
//!
//! Everything here is a pure function of its inputs.
use vstd::prelude::*;

use crate::model::element::{Element, ElementId};
use crate::model::page::{drawn_before, first_page_index, page_position, Page, PageId};
use crate::model::project::Project;
use crate::model::rehearsal::Rehearsal;
use crate::model::script::{first_section_index, ScriptDoc, ScriptSection};
use crate::model::stroke::{drawn_by, partitioned_at, point_count_matches, Stroke};
use crate::scalar::Real;
use crate::sort::{entry_before, identity_order, keys_ordered, pair_lt, lemma_identity_is_stable, lemma_stable_order_unique, stable_order, stable_sort_indices};
use crate::text::{push_str, str_eq};
use crate::visibility::VisibilityMap;

verus! {

/// One thing that happened at a time. Everything that happens in time is
/// one of these.
#[derive(Clone, Debug)]
pub enum TimelineEvent {
    /// An element appears.
    Reveal { element_id: ElementId, t: Real },
    /// An element disappears.
    Hide { element_id: ElementId, t: Real },
    /// The shown page changes.
    PageChange { page_id: PageId, t: Real },
    /// A marker set by the speaker.
    Marker { label: String, t: Real },
    /// A script anchor: this sentence starts at `t`.
    ScriptMark { section_id: String, t: Real },
}

impl TimelineEvent {
    /// When the event happens.
    pub open spec fn spec_time(self) -> Real {
        match self {
            TimelineEvent::Reveal { t, .. } => t,
            TimelineEvent::Hide { t, .. } => t,
            TimelineEvent::PageChange { t, .. } => t,
            TimelineEvent::Marker { t, .. } => t,
            TimelineEvent::ScriptMark { t, .. } => t,
        }
    }

    /// Order among events at the same time: page change, script mark,
    /// reveal, hide, marker.
    pub open spec fn rank(self) -> u8 {
        match self {
            TimelineEvent::PageChange { .. } => 0,
            TimelineEvent::ScriptMark { .. } => 1,
            TimelineEvent::Reveal { .. } => 2,
            TimelineEvent::Hide { .. } => 3,
            TimelineEvent::Marker { .. } => 4,
        }
    }

    /// The event with its time replaced.
    pub open spec fn with_time(self, t: Real) -> TimelineEvent {
        match self {
            TimelineEvent::Reveal { element_id, .. } => TimelineEvent::Reveal { element_id, t },
            TimelineEvent::Hide { element_id, .. } => TimelineEvent::Hide { element_id, t },
            TimelineEvent::PageChange { page_id, .. } => TimelineEvent::PageChange { page_id, t },
            TimelineEvent::Marker { label, .. } => TimelineEvent::Marker { label, t },
            TimelineEvent::ScriptMark { section_id, .. } => TimelineEvent::ScriptMark { section_id, t },
        }
    }

    /// When the event happens.
    pub fn time(&self) -> (r: Real)
        ensures
            r == self.spec_time(),
    {
        match self {
            TimelineEvent::Reveal { t, .. } => *t,
            TimelineEvent::Hide { t, .. } => *t,
            TimelineEvent::PageChange { t, .. } => *t,
            TimelineEvent::Marker { t, .. } => *t,
            TimelineEvent::ScriptMark { t, .. } => *t,
        }
    }

    /// Moves the event to time `new_t`.
    pub fn set_time(&mut self, new_t: Real)
        ensures
            *final(self) == old(self).with_time(new_t),
    {
        match self {
            TimelineEvent::Reveal { t, .. } => *t = new_t,
            TimelineEvent::Hide { t, .. } => *t = new_t,
            TimelineEvent::PageChange { t, .. } => *t = new_t,
            TimelineEvent::Marker { t, .. } => *t = new_t,
            TimelineEvent::ScriptMark { t, .. } => *t = new_t,
        }
    }

    /// A stable short tag for grouping and colouring.
    pub fn kind_str(&self) -> (r: &'static str)
        ensures
            r@ == (match *self {
                TimelineEvent::Reveal { .. } => "reveal"@,
                TimelineEvent::Hide { .. } => "hide"@,
                TimelineEvent::PageChange { .. } => "page"@,
                TimelineEvent::Marker { .. } => "marker"@,
                TimelineEvent::ScriptMark { .. } => "script"@,
            }),
    {
        match self {
            TimelineEvent::Reveal { .. } => "reveal",
            TimelineEvent::Hide { .. } => "hide",
            TimelineEvent::PageChange { .. } => "page",
            TimelineEvent::Marker { .. } => "marker",
            TimelineEvent::ScriptMark { .. } => "script",
        }
    }

    /// The label shown on hover: a word for the kind, a space, the id.
    pub fn label(&self) -> (r: String)
        ensures
            r@ == (match *self {
                TimelineEvent::Reveal { element_id, .. } => "出现 "@ + element_id@,
                TimelineEvent::Hide { element_id, .. } => "隐藏 "@ + element_id@,
                TimelineEvent::PageChange { page_id, .. } => "切页 "@ + page_id@,
                TimelineEvent::Marker { label, .. } => "标记 "@ + label@,
                TimelineEvent::ScriptMark { section_id, .. } => "讲稿 "@ + section_id@,
            }),
    {
        let (head, tail): (&str, &str) = match self {
            TimelineEvent::Reveal { element_id, .. } => ("出现 ", element_id.as_str()),
            TimelineEvent::Hide { element_id, .. } => ("隐藏 ", element_id.as_str()),
            TimelineEvent::PageChange { page_id, .. } => ("切页 ", page_id.as_str()),
            TimelineEvent::Marker { label, .. } => ("标记 ", label.as_str()),
            TimelineEvent::ScriptMark { section_id, .. } => ("讲稿 ", section_id.as_str()),
        };
        let mut out = head.to_owned();
        push_str(&mut out, tail);
        out
    }

    /// The tie-break rank (see [`TimelineEvent::rank`]).
    pub fn tie_break_rank(&self) -> (r: u8)
        ensures
            r == self.rank(),
    {
        match self {
            TimelineEvent::PageChange { .. } => 0,
            TimelineEvent::ScriptMark { .. } => 1,
            TimelineEvent::Reveal { .. } => 2,
            TimelineEvent::Hide { .. } => 3,
            TimelineEvent::Marker { .. } => 4,
        }
    }

    /// An equal copy of the event.
    pub fn copy(&self) -> (r: TimelineEvent)
        ensures
            r == *self,
    {
        match self {
            TimelineEvent::Reveal { element_id, t } => TimelineEvent::Reveal { element_id: element_id.clone(), t: *t },
            TimelineEvent::Hide { element_id, t } => TimelineEvent::Hide { element_id: element_id.clone(), t: *t },
            TimelineEvent::PageChange { page_id, t } => TimelineEvent::PageChange { page_id: page_id.clone(), t: *t },
            TimelineEvent::Marker { label, t } => TimelineEvent::Marker { label: label.clone(), t: *t },
            TimelineEvent::ScriptMark { section_id, t } => TimelineEvent::ScriptMark {
                section_id: section_id.clone(),
                t: *t,
            },
        }
    }
}

/// The sort key of each event: its time (as an order key), then its rank.
pub open spec fn event_keys(ev: Seq<TimelineEvent>) -> Seq<(u64, u64)> {
    ev.map_values(|e: TimelineEvent| (e.spec_time().key() as u64, e.rank() as u64))
}

/// `new` is `old` sorted by time, then by kind rank, keeping the input
/// order among events equal in both.
pub open spec fn stably_sorted_from(old: Seq<TimelineEvent>, new: Seq<TimelineEvent>) -> bool {
    exists|order: Seq<usize>|
        #[trigger] stable_order(event_keys(old), order) && new.len() == old.len() && forall|k: int|
            0 <= k < new.len() ==> new[k] == old[order[k] as int]
}

/// No event time is a NaN.
pub open spec fn times_are_numbers(ev: Seq<TimelineEvent>) -> bool {
    forall|i: int| 0 <= i < ev.len() ==> !(#[trigger] ev[i]).spec_time().spec_nan()
}

/// Adjacent events are in order: earlier time, or equal time and a rank
/// that is not larger.
pub open spec fn events_in_order(ev: Seq<TimelineEvent>) -> bool {
    forall|i: int|
        0 <= i < ev.len() - 1 ==> {
            let a = #[trigger] ev[i];
            let b = ev[i + 1];
            a.spec_time().spec_lt(b.spec_time()) || (a.spec_time().same_value(b.spec_time()) && a.rank()
                <= b.rank())
        }
}

proof fn lemma_key_bounds(r: Real)
    ensures
        0 <= r.key() < 0x1_0000_0000_0000_0000,
{
}

/// Sorts events by time; events at the same time by kind (page change,
/// script mark, reveal, hide, marker); events equal in both keep their
/// order. Call it after inserting events out of order.
pub fn sort_events(events: &mut Vec<TimelineEvent>)
    ensures
        stably_sorted_from(old(events)@, final(events)@),
{
    let n = events.len();
    let mut keys: Vec<(u64, u64)> = Vec::new();
    let mut i: usize = 0;
    while i < n
        invariant
            n == events@.len(),
            i <= n,
            keys@ == event_keys(events@).take(i as int),
        decreases n - i,
    {
        let t = events[i].time();
        proof {
            lemma_key_bounds(t);
        }
        keys.push((t.order_key(), events[i].tie_break_rank() as u64));
        proof {
            assert(keys@ =~= event_keys(events@).take(i + 1));
        }
        i = i + 1;
    }
    proof {
        assert(keys@ =~= event_keys(events@));
    }
    let order = stable_sort_indices(&keys);
    let mut out: Vec<TimelineEvent> = Vec::new();
    let mut k: usize = 0;
    while k < n
        invariant
            n == events@.len(),
            k <= n,
            stable_order(event_keys(events@), order@),
            out@.len() == k,
            forall|a: int| 0 <= a < k ==> out@[a] == events@[#[trigger] order@[a] as int],
        decreases n - k,
    {
        let e = events[order[k]].copy();
        out.push(e);
        k = k + 1;
    }
    proof {
        let ghost old_events = events@;
        assert(stable_order(event_keys(old_events), order@));
    }
    let ghost before = events@;
    *events = out;
    proof {
        assert(stable_order(event_keys(before), order@));
        assert(forall|a: int| 0 <= a < events@.len() ==> events@[a] == before[order@[a] as int]);
    }
}

/// Sorting puts events in order when no time is a NaN: this is what
/// `is_sorted` checks after `sort_events`.
pub proof fn lemma_sorted_events_are_in_order(old: Seq<TimelineEvent>, new: Seq<TimelineEvent>)
    requires
        stably_sorted_from(old, new),
        times_are_numbers(old),
    ensures
        events_in_order(new),
        times_are_numbers(new),
{
    let order = choose|order: Seq<usize>|
        #[trigger] stable_order(event_keys(old), order) && new.len() == old.len() && forall|k: int|
            0 <= k < new.len() ==> new[k] == old[order[k] as int];
    let keys = event_keys(old);
    assert forall|i: int| 0 <= i < new.len() - 1 implies {
        let a = #[trigger] new[i];
        let b = new[i + 1];
        a.spec_time().spec_lt(b.spec_time()) || (a.spec_time().same_value(b.spec_time()) && a.rank() <= b.rank())
    } by {
        let x = order[i] as int;
        let y = order[i + 1] as int;
        assert(crate::sort::entry_before(keys, x, y));
        assert(new[i] == old[x] && new[i + 1] == old[y]);
        lemma_key_bounds(old[x].spec_time());
        lemma_key_bounds(old[y].spec_time());
        assert(!old[x].spec_time().spec_nan());
        assert(!old[y].spec_time().spec_nan());
    }
    assert forall|i: int| 0 <= i < new.len() implies !(#[trigger] new[i]).spec_time().spec_nan() by {
        assert(new[i] == old[order[i] as int]);
    }
}

/// Sorting is reproducible: the sorted list is determined by the input,
/// also for events at the same time and of the same kind.
pub proof fn lemma_sort_is_reproducible(old: Seq<TimelineEvent>, new1: Seq<TimelineEvent>, new2: Seq<TimelineEvent>)
    requires
        stably_sorted_from(old, new1),
        stably_sorted_from(old, new2),
    ensures
        new1 == new2,
{
    let o1 = choose|order: Seq<usize>|
        #[trigger] stable_order(event_keys(old), order) && new1.len() == old.len() && forall|k: int|
            0 <= k < new1.len() ==> new1[k] == old[order[k] as int];
    let o2 = choose|order: Seq<usize>|
        #[trigger] stable_order(event_keys(old), order) && new2.len() == old.len() && forall|k: int|
            0 <= k < new2.len() ==> new2[k] == old[order[k] as int];
    lemma_stable_order_unique(event_keys(old), o1, o2);
    assert(new1 =~= new2);
}

/// Sorting events that are already in key order leaves them as they are.
pub proof fn lemma_sort_keeps_ordered(old: Seq<TimelineEvent>, new: Seq<TimelineEvent>)
    requires
        keys_ordered(event_keys(old)),
        old.len() <= usize::MAX,
        stably_sorted_from(old, new),
    ensures
        new == old,
{
    let keys = event_keys(old);
    let order = choose|order: Seq<usize>|
        #[trigger] stable_order(keys, order) && new.len() == old.len() && forall|k: int|
            0 <= k < new.len() ==> new[k] == old[order[k] as int];
    lemma_identity_is_stable(keys);
    lemma_stable_order_unique(keys, order, identity_order(keys.len()));
    assert forall|k: int| 0 <= k < new.len() implies new[k] == old[k] by {
        assert(identity_order(keys.len())[k] as int == k);
    }
    assert(new =~= old);
}

/// Sorted events are in key order.
pub proof fn lemma_sorted_keys_ordered(old: Seq<TimelineEvent>, new: Seq<TimelineEvent>)
    requires
        stably_sorted_from(old, new),
    ensures
        keys_ordered(event_keys(new)),
{
    let keys = event_keys(old);
    let order = choose|order: Seq<usize>|
        #[trigger] stable_order(keys, order) && new.len() == old.len() && forall|k: int|
            0 <= k < new.len() ==> new[k] == old[order[k] as int];
    let nk = event_keys(new);
    assert forall|i: int, j: int| 0 <= i < j < nk.len() implies !pair_lt(#[trigger] nk[j], #[trigger] nk[i]) by {
        assert(entry_before(keys, order[i] as int, order[j] as int));
        assert(nk[i] == keys[order[i] as int]);
        assert(nk[j] == keys[order[j] as int]);
    }
}

/// Sorting twice is sorting once: sorting events that came out of a sort
/// leaves them as they are. So a rehearsal saved with sorted events, read
/// back and sorted again keeps exactly the events it was saved with.
pub proof fn lemma_sort_is_idempotent(old: Seq<TimelineEvent>, once: Seq<TimelineEvent>, twice: Seq<TimelineEvent>)
    requires
        old.len() <= usize::MAX,
        stably_sorted_from(old, once),
        stably_sorted_from(once, twice),
    ensures
        twice == once,
{
    lemma_sorted_keys_ordered(old, once);
    lemma_sort_keeps_ordered(once, twice);
}

/// Whether the events are already in order (see [`events_in_order`]).
pub fn is_sorted(events: &Vec<TimelineEvent>) -> (r: bool)
    ensures
        r == events_in_order(events@),
{
    let n = events.len();
    if n < 2 {
        return true;
    }
    let mut i: usize = 0;
    while i + 1 < n
        invariant
            n == events@.len(),
            n >= 2,
            i + 1 <= n,
            forall|j: int|
                0 <= j < i ==> {
                    let a = #[trigger] events@[j];
                    let b = events@[j + 1];
                    a.spec_time().spec_lt(b.spec_time()) || (a.spec_time().same_value(b.spec_time())
                        && a.rank() <= b.rank())
                },
        decreases n - i,
    {
        let a = events[i].time();
        let b = events[i + 1].time();
        let ok = a.lt(&b) || (a.eq_value(&b) && events[i].tie_break_rank() <= events[i + 1].tie_break_rank());
        if !ok {
            return false;
        }
        i = i + 1;
    }
    true
}


/// How many leading events have happened by time `t`: the events up to the
/// first one strictly later than `t`.
pub open spec fn applied_len(ev: Seq<TimelineEvent>, t: Real) -> nat
    decreases ev.len(),
{
    if ev.len() == 0 {
        0
    } else {
        let p = applied_len(ev.drop_last(), t);
        if p < ev.len() - 1 {
            p
        } else if t.spec_lt(ev.last().spec_time()) {
            (ev.len() - 1) as nat
        } else {
            ev.len()
        }
    }
}

/// `applied_len` is the position of the first event later than `t`.
pub proof fn lemma_applied_len(ev: Seq<TimelineEvent>, t: Real, n: int)
    requires
        0 <= n <= ev.len(),
        forall|j: int| 0 <= j < n ==> !t.spec_lt(#[trigger] ev[j].spec_time()),
        n == ev.len() || t.spec_lt(ev[n].spec_time()),
    ensures
        applied_len(ev, t) == n,
    decreases ev.len(),
{
    if ev.len() > 0 {
        let d = ev.drop_last();
        if n == ev.len() {
            assert forall|j: int| 0 <= j < n - 1 implies !t.spec_lt(#[trigger] d[j].spec_time()) by {
                assert(d[j] == ev[j]);
            }
            lemma_applied_len(d, t, n - 1);
            assert(!t.spec_lt(ev[n - 1].spec_time()));
        } else {
            assert forall|j: int| 0 <= j < n implies !t.spec_lt(#[trigger] d[j].spec_time()) by {
                assert(d[j] == ev[j]);
            }
            if n < ev.len() - 1 {
                assert(d[n] == ev[n]);
            }
            lemma_applied_len(d, t, n);
        }
    }
}

/// The page shown after the events `ev`, starting from page `start`: the
/// last page change to a page that exists wins.
pub open spec fn page_after(pages: Seq<Page>, ev: Seq<TimelineEvent>, start: int) -> int
    decreases ev.len(),
{
    if ev.len() == 0 {
        start
    } else {
        let p = page_after(pages, ev.drop_last(), start);
        match ev.last() {
            TimelineEvent::PageChange { page_id, .. } => match first_page_index(pages, page_id@) {
                Some(i) => i,
                None => p,
            },
            _ => p,
        }
    }
}

/// `e` changes the page to one that exists.
pub open spec fn changes_to_existing_page(pages: Seq<Page>, e: TimelineEvent) -> bool {
    e matches TimelineEvent::PageChange { page_id, .. } && first_page_index(pages, page_id@) is Some
}

/// The events that `state_at(t)` applies are those before the first event
/// later than `t`.
pub proof fn lemma_applied_len_bounds(ev: Seq<TimelineEvent>, t: Real)
    ensures
        applied_len(ev, t) <= ev.len(),
        forall|j: int| 0 <= j < applied_len(ev, t) ==> !t.spec_lt(#[trigger] ev[j].spec_time()),
        applied_len(ev, t) < ev.len() ==> t.spec_lt(ev[applied_len(ev, t) as int].spec_time()),
    decreases ev.len(),
{
    if ev.len() > 0 {
        let d = ev.drop_last();
        lemma_applied_len_bounds(d, t);
        assert forall|j: int| 0 <= j < d.len() implies d[j] == ev[j] by {}
    }
}

/// After a page change to an existing page, followed by no other such
/// change, that page is shown.
proof fn lemma_page_after_last_change(pages: Seq<Page>, ev: Seq<TimelineEvent>, start: int, k: int)
    requires
        0 <= k < ev.len(),
        changes_to_existing_page(pages, ev[k]),
        forall|j: int| k < j < ev.len() ==> !changes_to_existing_page(pages, #[trigger] ev[j]),
    ensures
        page_after(pages, ev, start) == (match ev[k] {
            TimelineEvent::PageChange { page_id, .. } => first_page_index(pages, page_id@).unwrap(),
            _ => start,
        }),
    decreases ev.len(),
{
    if k < ev.len() - 1 {
        let d = ev.drop_last();
        assert(!changes_to_existing_page(pages, ev[ev.len() - 1]));
        assert forall|j: int| k < j < d.len() implies !changes_to_existing_page(pages, #[trigger] d[j]) by {
            assert(d[j] == ev[j]);
        }
        lemma_page_after_last_change(pages, d, start, k);
    }
}

/// The page shown at `t` is the one named by the last page change at or
/// before `t` (among the events up to it), whatever earlier page changes
/// said: going back to an earlier page shows that page.
pub proof fn lemma_state_shows_last_page_change(
    pages: Seq<Page>,
    strokes: Seq<Stroke>,
    sections: Seq<ScriptSection>,
    events: Seq<TimelineEvent>,
    start_page_index: int,
    t: Real,
    state: PresentationState,
    k: int,
)
    requires
        is_state_at(pages, strokes, sections, events, start_page_index, t, state),
        0 <= k < events.len(),
        changes_to_existing_page(pages, events[k]),
        forall|j: int| 0 <= j <= k ==> !t.spec_lt(#[trigger] events[j].spec_time()),
        forall|j: int|
            k < j < events.len() && !t.spec_lt(#[trigger] events[j].spec_time()) ==> !changes_to_existing_page(
                pages,
                events[j],
            ),
    ensures
        events[k] matches TimelineEvent::PageChange { page_id, .. } && state.page_index == first_page_index(
            pages,
            page_id@,
        ).unwrap() && state.page_id@ == page_id@,
{
    let n = applied_len(events, t);
    lemma_applied_len_bounds(events, t);
    assert(k < n) by {
        if n <= k {
            assert(!t.spec_lt(events[n as int].spec_time()));
        }
    }
    let ev = events.take(n as int);
    assert forall|j: int| k < j < ev.len() implies !changes_to_existing_page(pages, #[trigger] ev[j]) by {
        assert(ev[j] == events[j]);
        assert(!t.spec_lt(events[j].spec_time()));
    }
    assert(ev[k] == events[k]);
    lemma_page_after_last_change(pages, ev, clamp_start(start_page_index, pages.len() as int), k);
    if let TimelineEvent::PageChange { page_id, .. } = events[k] {
        crate::model::page::lemma_first_page_index(pages, page_id@);
    }
}

/// All elements of all pages, page by page.
pub open spec fn all_elements(pages: Seq<Page>) -> Seq<Element>
    decreases pages.len(),
{
    if pages.len() == 0 {
        Seq::empty()
    } else {
        all_elements(pages.drop_last()) + pages.last().elements@
    }
}

/// Initial visibility: each element is visible unless hidden by default; an
/// id that occurs twice takes the setting of its last occurrence.
pub open spec fn initial_visibility(els: Seq<Element>) -> Map<Seq<char>, bool>
    decreases els.len(),
{
    if els.len() == 0 {
        Map::empty()
    } else {
        initial_visibility(els.drop_last()).insert(els.last().id@, !els.last().hidden_by_default)
    }
}

/// Visibility after the events: a reveal shows and a hide hides an element,
/// in order; ids of no element are ignored.
pub open spec fn visibility_after(m: Map<Seq<char>, bool>, ev: Seq<TimelineEvent>) -> Map<Seq<char>, bool>
    decreases ev.len(),
{
    if ev.len() == 0 {
        m
    } else {
        let v = visibility_after(m, ev.drop_last());
        match ev.last() {
            TimelineEvent::Reveal { element_id, .. } => if v.contains_key(element_id@) {
                v.insert(element_id@, true)
            } else {
                v
            },
            TimelineEvent::Hide { element_id, .. } => if v.contains_key(element_id@) {
                v.insert(element_id@, false)
            } else {
                v
            },
            _ => v,
        }
    }
}

/// The script section reached after the events: the last script mark of a
/// section that exists.
pub open spec fn section_after(secs: Seq<ScriptSection>, ev: Seq<TimelineEvent>) -> Option<int>
    decreases ev.len(),
{
    if ev.len() == 0 {
        None
    } else {
        let p = section_after(secs, ev.drop_last());
        match ev.last() {
            TimelineEvent::ScriptMark { section_id, .. } => match first_section_index(secs, section_id@) {
                Some(i) => Some(i),
                None => p,
            },
            _ => p,
        }
    }
}

/// The label of the last marker among the events.
pub open spec fn marker_after(ev: Seq<TimelineEvent>) -> Option<Seq<char>>
    decreases ev.len(),
{
    if ev.len() == 0 {
        None
    } else {
        match ev.last() {
            TimelineEvent::Marker { label, .. } => Some(label@),
            _ => marker_after(ev.drop_last()),
        }
    }
}

/// The page index a playback starts on: the requested one, kept inside the
/// page list (0 when there are no pages).
pub open spec fn clamp_start(start: int, page_count: int) -> int {
    if page_count == 0 {
        0
    } else if start < page_count - 1 {
        start
    } else {
        page_count - 1
    }
}

/// Everything `state_at(t)` needs.
pub struct TimelineInput<'a> {
    pub pages: &'a [Page],
    pub strokes: &'a [Stroke],
    pub script: &'a ScriptDoc,
    pub events: &'a [TimelineEvent],
    /// The page a recording started on (before any page change event).
    pub start_page_index: usize,
}

/// The complete presentation at time `t`.
#[derive(Clone, Debug)]
pub struct PresentationState {
    pub t: Real,
    /// The page shown; inside the page list whenever it is not empty.
    pub page_index: usize,
    pub page_id: PageId,
    /// Element id to visibility (see [`PresentationState::is_visible`]).
    pub visible: VisibilityMap,
    /// For each stroke (in order), how many of its points are drawn.
    pub stroke_point_counts: Vec<usize>,
    /// The script section being spoken.
    pub section_index: Option<usize>,
    /// The label of the latest marker.
    pub active_marker: Option<String>,
}

/// `state` is the presentation at time `t` for the given input: see the
/// fields of [`PresentationState`] and the spec functions above.
pub open spec fn is_state_at(
    pages: Seq<Page>,
    strokes: Seq<Stroke>,
    sections: Seq<ScriptSection>,
    events: Seq<TimelineEvent>,
    start_page_index: int,
    t: Real,
    state: PresentationState,
) -> bool {
    let ev = events.take(applied_len(events, t) as int);
    let page = page_after(pages, ev, clamp_start(start_page_index, pages.len() as int));
    &&& state.t == t
    &&& state.page_index == page
    &&& state.page_id@ == (if 0 <= page < pages.len() {
        pages[page].id@
    } else {
        Seq::empty()
    })
    &&& state.visibility() == visibility_after(initial_visibility(all_elements(pages)), ev)
    &&& state.stroke_point_counts@.len() == strokes.len()
    &&& forall|i: int|
        0 <= i < strokes.len() ==> point_count_matches(
            #[trigger] strokes[i].points@,
            t,
            state.stroke_point_counts@[i] as int,
        )
    &&& state.section_index == (match section_after(sections, ev) {
        Some(i) => Some(i as usize),
        None => if sections.len() > 0 {
            Some(0usize)
        } else {
            None
        },
    })
    &&& (match marker_after(ev) {
        Some(l) => state.active_marker matches Some(m) && m@ == l,
        None => state.active_marker is None,
    })
}

/// `state_at` is a function of time: two states at the same `t` agree on
/// the page, the visibility of every element, the script sentence and the
/// marker, and on the progress of every stroke whose points are in time
/// order.
pub proof fn lemma_state_is_determined(
    pages: Seq<Page>,
    strokes: Seq<Stroke>,
    sections: Seq<ScriptSection>,
    events: Seq<TimelineEvent>,
    start_page_index: int,
    t: Real,
    s1: PresentationState,
    s2: PresentationState,
)
    requires
        is_state_at(pages, strokes, sections, events, start_page_index, t, s1),
        is_state_at(pages, strokes, sections, events, start_page_index, t, s2),
    ensures
        s1.page_index == s2.page_index,
        s1.page_id@ == s2.page_id@,
        s1.visibility() == s2.visibility(),
        s1.section_index == s2.section_index,
        match (s1.active_marker, s2.active_marker) {
            (Some(a), Some(b)) => a@ == b@,
            (None, None) => true,
            _ => false,
        },
        forall|i: int|
            0 <= i < strokes.len() && partitioned_at(#[trigger] strokes[i].points@, t)
                ==> s1.stroke_point_counts@[i] == s2.stroke_point_counts@[i],
{
    assert forall|i: int|
        0 <= i < strokes.len() && partitioned_at(#[trigger] strokes[i].points@, t)
            implies s1.stroke_point_counts@[i] == s2.stroke_point_counts@[i] by {
        let pts = strokes[i].points@;
        let c1 = s1.stroke_point_counts@[i] as int;
        let c2 = s2.stroke_point_counts@[i] as int;
        assert(point_count_matches(pts, t, c1));
        assert(point_count_matches(pts, t, c2));
        if c1 < c2 {
            assert(drawn_by(pts[c1], t));
            assert(!drawn_by(pts[c1], t));
        } else if c2 < c1 {
            assert(drawn_by(pts[c2], t));
            assert(!drawn_by(pts[c2], t));
        }
    }
}

impl PresentationState {
    /// Element id to visibility.
    pub open spec fn visibility(&self) -> Map<Seq<char>, bool> {
        self.visible@
    }

    /// The core pure function: given `t`, the page shown, each element's
    /// visibility, how much of each stroke is drawn and the script section.
    pub fn state_at(input: &TimelineInput, t: Real) -> (r: Self)
        ensures
            is_state_at(
                input.pages@,
                input.strokes@,
                input.script.sections@,
                input.events@,
                input.start_page_index as int,
                t,
                r,
            ),
    {
        let pages = input.pages;
        let events = input.events;
        let page_count = pages.len();
        // 1. The page: the last page change at or before t.
        let mut page_index = if page_count == 0 {
            0
        } else if input.start_page_index < page_count - 1 {
            input.start_page_index
        } else {
            page_count - 1
        };
        let ghost start = page_index as int;
        let mut n: usize = 0;
        while n < events.len()
            invariant
                n <= events@.len(),
                start == clamp_start(input.start_page_index as int, pages@.len() as int),
                page_index as int == page_after(pages@, events@.take(n as int), start),
                forall|j: int| 0 <= j < n ==> !t.spec_lt(#[trigger] events@[j].spec_time()),
            ensures
                n == events@.len() || t.spec_lt(events@[n as int].spec_time()),
            decreases events@.len() - n,
        {
            if events[n].time().gt(&t) {
                break;
            }
            if let TimelineEvent::PageChange { page_id, .. } = &events[n] {
                if let Some(i) = page_position(pages, page_id.as_str()) {
                    page_index = i;
                }
            }
            proof {
                assert(events@.take(n + 1).drop_last() =~= events@.take(n as int));
            }
            n = n + 1;
        }
        proof {
            lemma_applied_len(events@, t, n as int);
        }
        let ghost ev = events@.take(n as int);
        let page_id = if page_index < page_count {
            pages[page_index].id.clone()
        } else {
            String::new()
        };
        proof {
            lemma_page_after_in_range(pages@, ev, start);
        }
        // 2. Visibility: the default of each element, then reveals and hides.
        let mut visible = VisibilityMap::new();
        let mut p: usize = 0;
        while p < page_count
            invariant
                page_count == pages@.len(),
                p <= page_count,
                visible@ == initial_visibility(all_elements(pages@.take(p as int))),
            decreases page_count - p,
        {
            let els = &pages[p].elements;
            let ghost before = all_elements(pages@.take(p as int));
            let mut e: usize = 0;
            while e < els.len()
                invariant
                    e <= els@.len(),
                    visible@ == initial_visibility(before + els@.take(e as int)),
                decreases els@.len() - e,
            {
                visible.insert(els[e].id.as_str(), !els[e].hidden_by_default);
                proof {
                    let s = before + els@.take(e + 1);
                    assert(s.drop_last() =~= before + els@.take(e as int));
                }
                e = e + 1;
            }
            proof {
                assert(els@.take(e as int) =~= els@);
                assert(pages@.take(p + 1).drop_last() =~= pages@.take(p as int));
            }
            p = p + 1;
        }
        proof {
            assert(pages@.take(page_count as int) =~= pages@);
        }
        let ghost init = visible@;
        let mut k: usize = 0;
        while k < n
            invariant
                k <= n <= events@.len(),
                visible@ == visibility_after(init, events@.take(k as int)),
            decreases n - k,
        {
            match &events[k] {
                TimelineEvent::Reveal { element_id, .. } => visible.set_existing(element_id.as_str(), true),
                TimelineEvent::Hide { element_id, .. } => visible.set_existing(element_id.as_str(), false),
                _ => {},
            }
            proof {
                assert(events@.take(k + 1).drop_last() =~= events@.take(k as int));
            }
            k = k + 1;
        }
        // 3. Handwriting progress.
        let mut counts: Vec<usize> = Vec::new();
        let mut s: usize = 0;
        while s < input.strokes.len()
            invariant
                s <= input.strokes@.len(),
                counts@.len() == s,
                forall|i: int|
                    0 <= i < s ==> point_count_matches(
                        #[trigger] input.strokes@[i].points@,
                        t,
                        counts@[i] as int,
                    ),
            decreases input.strokes@.len() - s,
        {
            let c = input.strokes[s].point_count_at(t);
            counts.push(c);
            s = s + 1;
        }
        // 4. The script section and the latest marker.
        let mut section_index: Option<usize> = None;
        let mut active_marker: Option<String> = None;
        let mut m: usize = 0;
        while m < n
            invariant
                m <= n <= events@.len(),
                section_index == (match section_after(input.script.sections@, events@.take(m as int)) {
                    Some(i) => Some(i as usize),
                    None => None::<usize>,
                }),
                match marker_after(events@.take(m as int)) {
                    Some(l) => active_marker matches Some(a) && a@ == l,
                    None => active_marker is None,
                },
            decreases n - m,
        {
            match &events[m] {
                TimelineEvent::ScriptMark { section_id, .. } => {
                    if let Some(i) = input.script.section_index(section_id.as_str()) {
                        section_index = Some(i);
                    }
                },
                TimelineEvent::Marker { label, .. } => {
                    active_marker = Some(label.clone());
                },
                _ => {},
            }
            proof {
                assert(events@.take(m + 1).drop_last() =~= events@.take(m as int));
            }
            m = m + 1;
        }
        if section_index.is_none() && !input.script.is_empty() {
            section_index = Some(0);
        }
        PresentationState {
            t,
            page_index,
            page_id,
            visible,
            stroke_point_counts: counts,
            section_index,
            active_marker,
        }
    }
}

/// The page after the events stays inside the page list.
pub proof fn lemma_page_after_in_range(pages: Seq<Page>, ev: Seq<TimelineEvent>, start: int)
    requires
        pages.len() == 0 ==> start == 0,
        pages.len() > 0 ==> 0 <= start < pages.len(),
    ensures
        pages.len() > 0 ==> 0 <= page_after(pages, ev, start) < pages.len(),
        pages.len() == 0 ==> page_after(pages, ev, start) == 0,
    decreases ev.len(),
{
    if ev.len() > 0 {
        lemma_page_after_in_range(pages, ev.drop_last(), start);
        if let TimelineEvent::PageChange { page_id, .. } = ev.last() {
            crate::model::page::lemma_first_page_index(pages, page_id@);
        }
    }
}


/// The largest of the times, starting from `init` (a NaN is skipped).
pub open spec fn max_event_time(ev: Seq<TimelineEvent>, init: Real) -> Real
    decreases ev.len(),
{
    if ev.len() == 0 {
        init
    } else {
        max_event_time(ev.drop_last(), init).spec_max(ev.last().spec_time())
    }
}

/// The largest stroke end time, starting from `init`.
pub open spec fn max_stroke_end(strokes: Seq<Stroke>, init: Real) -> Real
    decreases strokes.len(),
{
    if strokes.len() == 0 {
        init
    } else {
        max_stroke_end(strokes.drop_last(), init).spec_max(strokes.last().end_time)
    }
}

/// Indices of `order` whose element is visible, in order.
pub open spec fn visible_indices(order: Seq<usize>, els: Seq<Element>, vis: Map<Seq<char>, bool>) -> Seq<usize>
    decreases order.len(),
{
    if order.len() == 0 {
        Seq::empty()
    } else {
        let rest = visible_indices(order.drop_last(), els, vis);
        let i = order.last() as int;
        if vis.contains_key(els[i].id@) && vis[els[i].id@] {
            rest.push(order.last())
        } else {
            rest
        }
    }
}

/// The last entry of `order` whose flag is set.
pub open spec fn last_flagged(order: Seq<usize>, flags: Seq<bool>) -> Option<int>
    decreases order.len(),
{
    if order.len() == 0 {
        None
    } else if flags[order.last() as int] {
        Some(order.last() as int)
    } else {
        last_flagged(order.drop_last(), flags)
    }
}

/// The first entry of `order` whose element is not visible.
pub open spec fn first_hidden(order: Seq<usize>, els: Seq<Element>, vis: Map<Seq<char>, bool>) -> Option<int>
    decreases order.len(),
{
    if order.len() == 0 {
        None
    } else {
        match first_hidden(order.drop_last(), els, vis) {
            Some(i) => Some(i),
            None => {
                let i = order.last() as int;
                if vis.contains_key(els[i].id@) && vis[els[i].id@] {
                    None
                } else {
                    Some(i)
                }
            },
        }
    }
}

/// Visibility flags of the elements as the state sees them.
pub open spec fn visible_flags(els: Seq<Element>, vis: Map<Seq<char>, bool>) -> Seq<bool> {
    els.map_values(|e: Element| vis.contains_key(e.id@) && vis[e.id@])
}

/// Flags of elements that are both visible and hit.
pub open spec fn and_flags(a: Seq<bool>, b: Seq<bool>) -> Seq<bool> {
    Seq::new(a.len(), |i: int| a[i] && b[i])
}

/// The page a timeline starts on: the rehearsal's start page when it
/// exists, else the project's current page, at most the last page index.
pub open spec fn start_page_for(project: Project, rehearsal: Option<Rehearsal>) -> int {
    let wanted = match rehearsal {
        Some(r) => match first_page_index(project.pages@, r.start_page_id@) {
            Some(i) => i,
            None => project.current_page as int,
        },
        None => project.current_page as int,
    };
    let last = if project.pages@.len() == 0 {
        0
    } else {
        project.pages@.len() - 1
    };
    if wanted < last {
        wanted
    } else {
        last
    }
}

impl<'a> TimelineInput<'a> {
    /// The input for a project and, if there is one, a rehearsal: without a
    /// rehearsal there are no events and no strokes.
    pub fn new(project: &'a Project, rehearsal: Option<&'a Rehearsal>) -> (r: Self)
        ensures
            r.pages@ == project.pages@,
            *r.script == project.script,
            r.events@ == (match rehearsal {
                Some(x) => x.events@,
                None => Seq::<TimelineEvent>::empty(),
            }),
            r.strokes@ == (match rehearsal {
                Some(x) => x.strokes@,
                None => Seq::<Stroke>::empty(),
            }),
            r.start_page_index == start_page_for(*project, match rehearsal {
                Some(x) => Some(*x),
                None => None,
            }),
    {
        let wanted = match rehearsal {
            Some(x) => match project.page_index(x.start_page_id.as_str()) {
                Some(i) => i,
                None => project.current_page,
            },
            None => project.current_page,
        };
        let last = if project.pages.len() == 0 {
            0
        } else {
            project.pages.len() - 1
        };
        let start_page_index = if wanted < last {
            wanted
        } else {
            last
        };
        match rehearsal {
            Some(x) => TimelineInput {
                pages: project.pages.as_slice(),
                strokes: x.strokes.as_slice(),
                script: &project.script,
                events: x.events.as_slice(),
                start_page_index,
            },
            None => TimelineInput {
                pages: project.pages.as_slice(),
                strokes: &[],
                script: &project.script,
                events: &[],
                start_page_index,
            },
        }
    }

    /// The presentation at time `t`.
    pub fn state_at(&self, t: Real) -> (r: PresentationState)
        ensures
            is_state_at(
                self.pages@,
                self.strokes@,
                self.script.sections@,
                self.events@,
                self.start_page_index as int,
                t,
                r,
            ),
    {
        PresentationState::state_at(self, t)
    }

    /// The state once everything has happened (time is positive infinity).
    pub fn final_state(&self) -> (r: PresentationState)
        ensures
            is_state_at(
                self.pages@,
                self.strokes@,
                self.script.sections@,
                self.events@,
                self.start_page_index as int,
                Real { bits: crate::scalar::INFINITY_BITS },
                r,
            ),
    {
        self.state_at(Real::infinity())
    }

    /// The length of the timeline: the latest event or stroke end, at least 0.
    pub fn duration(&self) -> (r: Real)
        ensures
            r == max_event_time(self.events@, Real { bits: 0 }).spec_max(
                max_stroke_end(self.strokes@, Real { bits: 0 }),
            ),
    {
        let mut a = Real::zero();
        let mut i: usize = 0;
        while i < self.events.len()
            invariant
                i <= self.events@.len(),
                a == max_event_time(self.events@.take(i as int), Real { bits: 0 }),
            decreases self.events@.len() - i,
        {
            a = a.max(self.events[i].time());
            proof {
                assert(self.events@.take(i + 1).drop_last() =~= self.events@.take(i as int));
            }
            i = i + 1;
        }
        proof {
            assert(self.events@.take(i as int) =~= self.events@);
        }
        let mut b = Real::zero();
        let mut j: usize = 0;
        while j < self.strokes.len()
            invariant
                j <= self.strokes@.len(),
                b == max_stroke_end(self.strokes@.take(j as int), Real { bits: 0 }),
            decreases self.strokes@.len() - j,
        {
            b = b.max(self.strokes[j].end_time);
            proof {
                assert(self.strokes@.take(j + 1).drop_last() =~= self.strokes@.take(j as int));
            }
            j = j + 1;
        }
        proof {
            assert(self.strokes@.take(j as int) =~= self.strokes@);
        }
        a.max(b)
    }
}

impl PresentationState {
    /// Makes every element visible (used by the editing mode, which shows
    /// everything for layout).
    pub fn show_all(&mut self)
        ensures
            final(self).visibility().dom() == old(self).visibility().dom(),
            forall|k: Seq<char>| #[trigger] final(self).visibility().contains_key(k) ==> final(self).visibility()[k],
            final(self).t == old(self).t,
            final(self).page_index == old(self).page_index,
            final(self).page_id == old(self).page_id,
            final(self).stroke_point_counts == old(self).stroke_point_counts,
            final(self).section_index == old(self).section_index,
            final(self).active_marker == old(self).active_marker,
    {
        self.visible.set_all(true);
    }

    /// Whether the element with this id is visible (unknown ids are not).
    pub fn is_visible(&self, element_id: &str) -> (r: bool)
        ensures
            r == (self.visibility().contains_key(element_id@) && self.visibility()[element_id@]),
    {
        match self.visible.get(element_id) {
            Some(v) => v,
            None => false,
        }
    }

    /// Indices of the page's visible elements, in drawing order.
    pub fn visible_element_indices(&self, page: &Page) -> (r: Vec<usize>)
        ensures
            exists|order: Seq<usize>|
                #[trigger] stable_order(crate::model::page::z_keys(page.elements@), order) && r@
                    == visible_indices(order, page.elements@, self.visibility()),
    {
        let order = page.draw_order();
        let mut out: Vec<usize> = Vec::new();
        let mut k: usize = 0;
        while k < order.len()
            invariant
                k <= order@.len(),
                forall|a: int| 0 <= a < order@.len() ==> #[trigger] order@[a] < page.elements@.len(),
                out@ == visible_indices(order@.take(k as int), page.elements@, self.visibility()),
            decreases order@.len() - k,
        {
            let i = order[k];
            if self.is_visible(page.elements[i].id.as_str()) {
                out.push(i);
            }
            proof {
                assert(order@.take(k + 1).drop_last() =~= order@.take(k as int));
            }
            k = k + 1;
        }
        proof {
            assert(order@.take(k as int) =~= order@);
        }
        out
    }

    /// The page's visible elements, in drawing order.
    pub fn visible_elements<'p>(&self, page: &'p Page) -> (r: Vec<&'p Element>)
        ensures
            exists|order: Seq<usize>|
                #[trigger] stable_order(crate::model::page::z_keys(page.elements@), order) && {
                    let idx = visible_indices(order, page.elements@, self.visibility());
                    &&& r@.len() == idx.len()
                    &&& forall|j: int| 0 <= j < idx.len() ==> *r@[j] == page.elements@[#[trigger] idx[j] as int]
                },
    {
        let idx = self.visible_element_indices(page);
        let ghost order = choose|order: Seq<usize>|
            #[trigger] stable_order(crate::model::page::z_keys(page.elements@), order) && idx@
                == visible_indices(order, page.elements@, self.visibility());
        proof {
            lemma_visible_indices_in_range(order, page.elements@, self.visibility());
        }
        let mut out: Vec<&'p Element> = Vec::new();
        let mut j: usize = 0;
        while j < idx.len()
            invariant
                j <= idx@.len(),
                forall|a: int| 0 <= a < idx@.len() ==> #[trigger] idx@[a] < page.elements@.len(),
                out@.len() == j,
                forall|a: int| 0 <= a < j ==> *out@[a] == page.elements@[#[trigger] idx@[a] as int],
            decreases idx@.len() - j,
        {
            out.push(&page.elements[idx[j]]);
            j = j + 1;
        }
        out
    }

    /// How many points of stroke `stroke_index` are drawn (0 for an
    /// unknown stroke).
    pub fn stroke_points(&self, stroke_index: usize) -> (r: usize)
        ensures
            r == (if stroke_index < self.stroke_point_counts@.len() {
                self.stroke_point_counts@[stroke_index as int]
            } else {
                0
            }),
    {
        if stroke_index < self.stroke_point_counts.len() {
            self.stroke_point_counts[stroke_index]
        } else {
            0
        }
    }

    /// How many of the page's elements are visible.
    pub fn visible_count(&self, page: &Page) -> (r: usize)
        ensures
            exists|order: Seq<usize>|
                #[trigger] stable_order(crate::model::page::z_keys(page.elements@), order) && r
                    == visible_indices(order, page.elements@, self.visibility()).len(),
    {
        self.visible_element_indices(page).len()
    }
}

/// The visible indices are entries of the order, hence element indices.
pub proof fn lemma_visible_indices_in_range(order: Seq<usize>, els: Seq<Element>, vis: Map<Seq<char>, bool>)
    requires
        forall|a: int| 0 <= a < order.len() ==> #[trigger] order[a] < els.len(),
    ensures
        forall|a: int|
            0 <= a < visible_indices(order, els, vis).len() ==> #[trigger] visible_indices(order, els, vis)[a]
                < els.len(),
        visible_indices(order, els, vis).len() <= order.len(),
    decreases order.len(),
{
    if order.len() > 0 {
        let d = order.drop_last();
        assert forall|a: int| 0 <= a < d.len() implies #[trigger] d[a] < els.len() by {
            assert(d[a] == order[a]);
        }
        lemma_visible_indices_in_range(d, els, vis);
    }
}

/// The topmost element of the page among those whose flag in
/// `contains_point` is set (the elements under the pointer, as the caller
/// measured them). Visibility is not considered.
pub fn hit_test_element(page: &Page, contains_point: &Vec<bool>) -> (r: Option<ElementId>)
    requires
        contains_point@.len() == page.elements@.len(),
    ensures
        exists|order: Seq<usize>|
            #[trigger] stable_order(crate::model::page::z_keys(page.elements@), order) && match last_flagged(
                order,
                contains_point@,
            ) {
                Some(i) => r matches Some(id) && id@ == page.elements@[i].id@,
                None => r is None,
            },
{
    let order = page.draw_order();
    match last_flagged_exec(&order, contains_point) {
        Some(i) => Some(page.elements[i].id.clone()),
        None => None,
    }
}

/// The topmost visible element among those whose flag in `contains_point`
/// is set.
pub fn hit_test_visible_element(page: &Page, state: &PresentationState, contains_point: &Vec<bool>) -> (r: Option<
    ElementId,
>)
    requires
        contains_point@.len() == page.elements@.len(),
    ensures
        exists|order: Seq<usize>|
            #[trigger] stable_order(crate::model::page::z_keys(page.elements@), order) && match last_flagged(
                order,
                and_flags(visible_flags(page.elements@, state.visibility()), contains_point@),
            ) {
                Some(i) => r matches Some(id) && id@ == page.elements@[i].id@,
                None => r is None,
            },
{
    let mut flags: Vec<bool> = Vec::new();
    let mut i: usize = 0;
    while i < page.elements.len()
        invariant
            i <= page.elements@.len(),
            contains_point@.len() == page.elements@.len(),
            flags@ == and_flags(visible_flags(page.elements@, state.visibility()), contains_point@).take(i as int),
        decreases page.elements@.len() - i,
    {
        let v = state.is_visible(page.elements[i].id.as_str()) && contains_point[i];
        flags.push(v);
        proof {
            assert(flags@ =~= and_flags(visible_flags(page.elements@, state.visibility()), contains_point@).take(
                i + 1,
            ));
        }
        i = i + 1;
    }
    proof {
        assert(flags@ =~= and_flags(visible_flags(page.elements@, state.visibility()), contains_point@));
    }
    let order = page.draw_order();
    match last_flagged_exec(&order, &flags) {
        Some(i) => Some(page.elements[i].id.clone()),
        None => None,
    }
}

fn last_flagged_exec(order: &Vec<usize>, flags: &Vec<bool>) -> (r: Option<usize>)
    requires
        forall|a: int| 0 <= a < order@.len() ==> #[trigger] order@[a] < flags@.len(),
    ensures
        match r {
            Some(i) => last_flagged(order@, flags@) == Some(i as int) && i < flags@.len(),
            None => last_flagged(order@, flags@) is None,
        },
{
    let mut k = order.len();
    proof {
        assert(order@.take(k as int) =~= order@);
    }
    while k > 0
        invariant
            k <= order@.len(),
            forall|a: int| 0 <= a < order@.len() ==> #[trigger] order@[a] < flags@.len(),
            last_flagged(order@, flags@) == last_flagged(order@.take(k as int), flags@),
        decreases k,
    {
        let i = order[k - 1];
        proof {
            assert(order@.take(k as int).drop_last() =~= order@.take(k - 1));
        }
        if flags[i] {
            return Some(i);
        }
        k = k - 1;
    }
    proof {
        assert(order@.take(0) =~= Seq::<usize>::empty());
    }
    None
}

/// The first element of the page, in drawing order, that is not visible yet
/// (what the space key reveals next).
pub fn next_hidden_element(page: &Page, state: &PresentationState) -> (r: Option<ElementId>)
    ensures
        exists|order: Seq<usize>|
            #[trigger] stable_order(crate::model::page::z_keys(page.elements@), order) && match first_hidden(
                order,
                page.elements@,
                state.visibility(),
            ) {
                Some(i) => r matches Some(id) && id@ == page.elements@[i].id@,
                None => r is None,
            },
{
    let order = page.draw_order();
    let mut k: usize = 0;
    while k < order.len()
        invariant
            k <= order@.len(),
            forall|a: int| 0 <= a < order@.len() ==> #[trigger] order@[a] < page.elements@.len(),
            first_hidden(order@.take(k as int), page.elements@, state.visibility()) is None,
            stable_order(crate::model::page::z_keys(page.elements@), order@),
        decreases order@.len() - k,
    {
        let i = order[k];
        proof {
            assert(order@.take(k + 1).drop_last() =~= order@.take(k as int));
        }
        if !state.is_visible(page.elements[i].id.as_str()) {
            proof {
                assert(order@.take(k + 1).last() == i);
                assert(first_hidden(order@.take(k + 1), page.elements@, state.visibility()) == Some(i as int));
                lemma_first_hidden_prefix(order@, page.elements@, state.visibility(), k + 1);
                assert(stable_order(crate::model::page::z_keys(page.elements@), order@));
            }
            return Some(page.elements[i].id.clone());
        }
        k = k + 1;
    }
    proof {
        assert(order@.take(k as int) =~= order@);
    }
    None
}

/// A match found in a prefix stays the first match of the whole sequence.
proof fn lemma_first_hidden_prefix(order: Seq<usize>, els: Seq<Element>, vis: Map<Seq<char>, bool>, k: int)
    requires
        0 <= k <= order.len(),
        first_hidden(order.take(k), els, vis) is Some,
    ensures
        first_hidden(order, els, vis) == first_hidden(order.take(k), els, vis),
    decreases order.len() - k,
{
    if k < order.len() {
        assert(order.take(k + 1).drop_last() =~= order.take(k));
        lemma_first_hidden_prefix(order, els, vis, k + 1);
    } else {
        assert(order.take(k) =~= order);
    }
}


/// The time of the first reveal of `id` among the events.
pub open spec fn first_reveal(ev: Seq<TimelineEvent>, id: Seq<char>) -> Option<Real>
    decreases ev.len(),
{
    if ev.len() == 0 {
        None
    } else {
        match first_reveal(ev.drop_last(), id) {
            Some(t) => Some(t),
            None => match ev.last() {
                TimelineEvent::Reveal { element_id, t } => if element_id@ == id {
                    Some(t)
                } else {
                    None
                },
                _ => None,
            },
        }
    }
}

/// The time of the last reveal of `id` at or before `hint`.
pub open spec fn last_reveal_by(ev: Seq<TimelineEvent>, id: Seq<char>, hint: Real) -> Option<Real>
    decreases ev.len(),
{
    if ev.len() == 0 {
        None
    } else {
        match ev.last() {
            TimelineEvent::Reveal { element_id, t } => if element_id@ == id && t.spec_le(hint) {
                Some(t)
            } else {
                last_reveal_by(ev.drop_last(), id, hint)
            },
            _ => last_reveal_by(ev.drop_last(), id, hint),
        }
    }
}

/// `e` reveals element `id`.
pub open spec fn reveals(e: TimelineEvent, id: Seq<char>) -> bool {
    e matches TimelineEvent::Reveal { element_id, .. } && element_id@ == id
}

/// Where clicking element `id` seeks to with the playhead at `hint` (see
/// [`reveal_time`]).
pub open spec fn reveal_seek_time(ev: Seq<TimelineEvent>, id: Seq<char>, hint: Real) -> Option<Real> {
    match last_reveal_by(ev, id, hint) {
        Some(t) => Some(t),
        None => first_reveal(ev, id),
    }
}

proof fn lemma_last_reveal_by(ev: Seq<TimelineEvent>, id: Seq<char>, hint: Real)
    ensures
        match last_reveal_by(ev, id, hint) {
            Some(r) => exists|k: int|
                0 <= k < ev.len() && reveals(#[trigger] ev[k], id) && ev[k].spec_time() == r && r.spec_le(hint)
                    && forall|j: int|
                    k < j < ev.len() ==> !(reveals(#[trigger] ev[j], id) && ev[j].spec_time().spec_le(hint)),
            None => forall|j: int| 0 <= j < ev.len() ==> !(reveals(#[trigger] ev[j], id) && ev[j].spec_time().spec_le(hint)),
        },
    decreases ev.len(),
{
    if ev.len() > 0 {
        let d = ev.drop_last();
        lemma_last_reveal_by(d, id, hint);
        let last = ev[ev.len() - 1];
        if reveals(last, id) && last.spec_time().spec_le(hint) {
            assert(reveals(ev[ev.len() - 1], id));
        } else {
            match last_reveal_by(d, id, hint) {
                Some(r) => {
                    let k = choose|k: int|
                        0 <= k < d.len() && reveals(#[trigger] d[k], id) && d[k].spec_time() == r && r.spec_le(hint)
                            && forall|j: int|
                            k < j < d.len() ==> !(reveals(#[trigger] d[j], id) && d[j].spec_time().spec_le(hint));
                    assert(ev[k] == d[k]);
                    assert forall|j: int| k < j < ev.len() implies !(reveals(#[trigger] ev[j], id)
                        && ev[j].spec_time().spec_le(hint)) by {
                        if j < d.len() {
                            assert(ev[j] == d[j]);
                        }
                    }
                },
                None => {
                    assert forall|j: int| 0 <= j < ev.len() implies !(reveals(#[trigger] ev[j], id)
                        && ev[j].spec_time().spec_le(hint)) by {
                        if j < d.len() {
                            assert(ev[j] == d[j]);
                        }
                    }
                },
            }
        }
    }
}

proof fn lemma_first_reveal(ev: Seq<TimelineEvent>, id: Seq<char>)
    ensures
        match first_reveal(ev, id) {
            Some(r) => exists|k: int|
                0 <= k < ev.len() && reveals(#[trigger] ev[k], id) && ev[k].spec_time() == r && forall|j: int|
                    0 <= j < k ==> !reveals(#[trigger] ev[j], id),
            None => forall|j: int| 0 <= j < ev.len() ==> !reveals(#[trigger] ev[j], id),
        },
    decreases ev.len(),
{
    if ev.len() > 0 {
        let d = ev.drop_last();
        lemma_first_reveal(d, id);
        match first_reveal(d, id) {
            Some(r) => {
                let k = choose|k: int|
                    0 <= k < d.len() && reveals(#[trigger] d[k], id) && d[k].spec_time() == r && forall|j: int|
                        0 <= j < k ==> !reveals(#[trigger] d[j], id);
                assert(ev[k] == d[k]);
                assert forall|j: int| 0 <= j < k implies !reveals(#[trigger] ev[j], id) by {
                    assert(ev[j] == d[j]);
                }
            },
            None => {
                assert forall|j: int| 0 <= j < d.len() implies !reveals(#[trigger] ev[j], id) by {
                    assert(ev[j] == d[j]);
                }
                if reveals(ev[ev.len() - 1], id) {
                    assert forall|j: int| 0 <= j < ev.len() - 1 implies !reveals(#[trigger] ev[j], id) by {
                        assert(ev[j] == d[j]);
                    }
                }
            },
        }
    }
}

/// In time-ordered events, a later event is not earlier in time.
proof fn lemma_in_order_keys(ev: Seq<TimelineEvent>, i: int, j: int)
    requires
        events_in_order(ev),
        0 <= i <= j < ev.len(),
    ensures
        ev[i].spec_time().key() <= ev[j].spec_time().key(),
    decreases j - i,
{
    if i < j {
        lemma_in_order_keys(ev, i, j - 1);
        let a = ev[j - 1];
        assert(a == ev[j - 1]);
    }
}

/// Clicking an element seeks to its latest reveal at or before the
/// playhead: the result is the time of a reveal of that element at or
/// before `hint`, and no later event reveals it at or before `hint`; in
/// time-ordered events that is the latest such time. Only when the element
/// is not revealed by `hint` does it seek to its first reveal, and to
/// nothing when it is never revealed.
pub proof fn lemma_reveal_seek_is_latest(ev: Seq<TimelineEvent>, id: Seq<char>, hint: Real)
    ensures
        (exists|j: int| 0 <= j < ev.len() && reveals(#[trigger] ev[j], id) && ev[j].spec_time().spec_le(hint))
            ==> exists|k: int|
            0 <= k < ev.len() && reveals(#[trigger] ev[k], id) && ev[k].spec_time().spec_le(hint)
                && reveal_seek_time(ev, id, hint) == Some(ev[k].spec_time()) && forall|j: int|
                k < j < ev.len() ==> !(reveals(#[trigger] ev[j], id) && ev[j].spec_time().spec_le(hint)),
        (exists|j: int| 0 <= j < ev.len() && reveals(#[trigger] ev[j], id) && ev[j].spec_time().spec_le(hint))
            && events_in_order(ev) ==> (reveal_seek_time(ev, id, hint) matches Some(r) && forall|j: int|
            0 <= j < ev.len() && reveals(#[trigger] ev[j], id) && ev[j].spec_time().spec_le(hint) ==> ev[j].spec_time().spec_le(r)),
        !(exists|j: int| 0 <= j < ev.len() && reveals(#[trigger] ev[j], id) && ev[j].spec_time().spec_le(hint))
            ==> match reveal_seek_time(ev, id, hint) {
            Some(r) => exists|k: int|
                0 <= k < ev.len() && reveals(#[trigger] ev[k], id) && ev[k].spec_time() == r && forall|j: int|
                    0 <= j < k ==> !reveals(#[trigger] ev[j], id),
            None => forall|j: int| 0 <= j < ev.len() ==> !reveals(#[trigger] ev[j], id),
        },
{
    lemma_last_reveal_by(ev, id, hint);
    lemma_first_reveal(ev, id);
    if exists|j: int| 0 <= j < ev.len() && reveals(#[trigger] ev[j], id) && ev[j].spec_time().spec_le(hint) {
        let j0 = choose|j: int| 0 <= j < ev.len() && reveals(#[trigger] ev[j], id) && ev[j].spec_time().spec_le(hint);
        assert(last_reveal_by(ev, id, hint) is Some);
        let r = last_reveal_by(ev, id, hint).unwrap();
        let k = choose|k: int|
            0 <= k < ev.len() && reveals(#[trigger] ev[k], id) && ev[k].spec_time() == r && r.spec_le(hint)
                && forall|j: int|
                k < j < ev.len() ==> !(reveals(#[trigger] ev[j], id) && ev[j].spec_time().spec_le(hint));
        if events_in_order(ev) {
            assert forall|j: int|
                0 <= j < ev.len() && reveals(#[trigger] ev[j], id) && ev[j].spec_time().spec_le(hint) implies ev[j].spec_time().spec_le(
                r,
            ) by {
                if j <= k {
                    lemma_in_order_keys(ev, j, k);
                }
            }
        }
    }
}

/// Element to time: the latest reveal of `element_id` at or before `t_hint`;
/// if there is none, its first reveal; `None` if it is never revealed.
/// Clicking an element jumps the audio to this time.
pub fn reveal_time(events: &Vec<TimelineEvent>, element_id: &str, t_hint: Real) -> (r: Option<Real>)
    ensures
        r == reveal_seek_time(events@, element_id@, t_hint),
{
    let mut first: Option<Real> = None;
    let mut last_before: Option<Real> = None;
    let mut i: usize = 0;
    while i < events.len()
        invariant
            i <= events@.len(),
            first == first_reveal(events@.take(i as int), element_id@),
            last_before == last_reveal_by(events@.take(i as int), element_id@, t_hint),
        decreases events@.len() - i,
    {
        if let TimelineEvent::Reveal { element_id: eid, t } = &events[i] {
            if str_eq(eid.as_str(), element_id) {
                if first.is_none() {
                    first = Some(*t);
                }
                if t.le(&t_hint) {
                    last_before = Some(*t);
                }
            }
        }
        proof {
            assert(events@.take(i + 1).drop_last() =~= events@.take(i as int));
        }
        i = i + 1;
    }
    proof {
        assert(events@.take(i as int) =~= events@);
    }
    match last_before {
        Some(t) => Some(t),
        None => first,
    }
}

/// Whether `element_id` has a reveal at or before `t` (it appeared because
/// the speaker triggered it).
pub fn was_triggered(events: &Vec<TimelineEvent>, element_id: &str, t: Real) -> (r: bool)
    ensures
        r == exists|i: int|
            0 <= i < events@.len() && (#[trigger] events@[i] matches TimelineEvent::Reveal { element_id: eid, t: et }
                && eid@ == element_id@ && et.spec_le(t)),
{
    let mut i: usize = 0;
    while i < events.len()
        invariant
            i <= events@.len(),
            forall|j: int|
                0 <= j < i ==> !(#[trigger] events@[j] matches TimelineEvent::Reveal { element_id: eid, t: et }
                    && eid@ == element_id@ && et.spec_le(t)),
        decreases events@.len() - i,
    {
        if let TimelineEvent::Reveal { element_id: eid, t: et } = &events[i] {
            if str_eq(eid.as_str(), element_id) && et.le(&t) {
                return true;
            }
        }
        i = i + 1;
    }
    false
}


/// The best stroke hit among the first `strokes.len()` strokes: a stroke on
/// the page with at least one point, within the tolerance, and not farther
/// than the best so far (on a tie the later-drawn stroke, which lies on
/// top, wins).
/// Entries are `(stroke index, distance, time)`.
pub open spec fn best_stroke_hit(
    strokes: Seq<Stroke>,
    page_id: Seq<char>,
    distances: Seq<Real>,
    times: Seq<Real>,
    tolerance: Real,
) -> Option<(int, Real, Real)>
    decreases strokes.len(),
{
    if strokes.len() == 0 {
        None
    } else {
        let i = strokes.len() - 1;
        let best = best_stroke_hit(strokes.drop_last(), page_id, distances, times, tolerance);
        let s = strokes.last();
        let d = distances[i];
        if s.page_id@ != page_id || s.points@.len() == 0 || tolerance.spec_lt(d) {
            best
        } else {
            match best {
                Some((bi, bd, bt)) => if bd.spec_lt(d) {
                    best
                } else {
                    Some((i, d, times[i]))
                },
                None => Some((i, d, times[i])),
            }
        }
    }
}

/// Picks the stroke that a click hits: among the strokes on `page_id` with
/// points, those whose distance to the click is within `tolerance`, the
/// nearest (the later-drawn one, on top, on a tie). Returns its index and
/// the time of the nearest point on it. `distances[i]` and `times[i]` are the click's
/// distance to stroke `i` and the time at the nearest point of stroke `i`.
pub fn hit_test_stroke(
    strokes: &Vec<Stroke>,
    page_id: &str,
    distances: &Vec<Real>,
    times: &Vec<Real>,
    tolerance: Real,
) -> (r: Option<(usize, Real)>)
    requires
        distances@.len() == strokes@.len(),
        times@.len() == strokes@.len(),
    ensures
        r == (match best_stroke_hit(strokes@, page_id@, distances@, times@, tolerance) {
            Some((i, _, t)) => Some((i as usize, t)),
            None => None,
        }),
{
    let mut best: Option<(usize, Real, Real)> = None;
    let mut i: usize = 0;
    while i < strokes.len()
        invariant
            i <= strokes@.len(),
            distances@.len() == strokes@.len(),
            times@.len() == strokes@.len(),
            best == (match best_stroke_hit(strokes@.take(i as int), page_id@, distances@, times@, tolerance) {
                Some((bi, bd, bt)) => Some((bi as usize, bd, bt)),
                None => None,
            }),
            forall|k: int|
                #![trigger best_stroke_hit(strokes@.take(k), page_id@, distances@, times@, tolerance)]
                0 <= k <= i ==> match best_stroke_hit(strokes@.take(k), page_id@, distances@, times@, tolerance) {
                    Some((bi, bd, bt)) => 0 <= bi < k,
                    None => true,
                },
        decreases strokes@.len() - i,
    {
        let s = &strokes[i];
        proof {
            assert(strokes@.take(i + 1).drop_last() =~= strokes@.take(i as int));
            assert(strokes@.take(i + 1).last() == strokes@[i as int]);
        }
        if str_eq(s.page_id.as_str(), page_id) && s.points.len() > 0 && !distances[i].gt(&tolerance) {
            let d = distances[i];
            let keep = match best {
                Some((_, bd, _)) => bd.lt(&d),
                None => false,
            };
            if !keep {
                best = Some((i, d, times[i]));
            }
        }
        i = i + 1;
    }
    proof {
        assert(strokes@.take(i as int) =~= strokes@);
    }
    match best {
        Some((bi, _, t)) => Some((bi, t)),
        None => None,
    }
}

} // verus!
