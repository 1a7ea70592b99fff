//! Rehearsals: one recorded run through the talk, kept as timeline events
//! and timed strokes rather than as a video.
use vstd::prelude::*;

use crate::model::page::PageId;
use crate::model::script::SectionId;
use crate::model::stroke::Stroke;
use crate::model::{format_unix_time, now_unix, unix_time_text};
use crate::scalar::Real;
use crate::sort::{lemma_permutation_covers, lemma_stable_order_is_permutation, lists, stable_order};
use crate::text::str_eq;
use crate::timeline::{event_keys, first_reveal, sort_events, stably_sorted_from, TimelineEvent};

verus! {

/// The source recorded by default: the microphone.
pub fn default_source() -> (r: String)
    ensures
        r@ == "mic"@,
{
    "mic".to_owned()
}

/// The audio of a rehearsal: a single microphone track.
#[derive(Clone, Debug)]
pub struct AudioRef {
    /// File name relative to the rehearsal directory.
    pub file: String,
    pub sample_rate: u32,
    pub channels: u16,
    /// Sample frames actually written to the WAV file.
    pub frames: u64,
    /// Where the audio came from; `"mic"` for every recording made here.
    pub source: String,
}

impl AudioRef {
    /// A microphone recording stored as `audio.wav`.
    pub fn mic(sample_rate: u32, channels: u16, frames: u64) -> (r: Self)
        ensures
            r.file@ == "audio.wav"@,
            r.sample_rate == sample_rate,
            r.channels == channels,
            r.frames == frames,
            r.source@ == "mic"@,
    {
        AudioRef { file: "audio.wav".to_owned(), sample_rate, channels, frames, source: default_source() }
    }
}

/// One complete rehearsal. Script anchors are `ScriptMark` events in
/// `events`, so the same fact is never stored twice.
#[derive(Clone, Debug)]
pub struct Rehearsal {
    pub id: String,
    pub name: String,
    pub created_at_unix: u64,
    /// Length of the recording in seconds; set even without audio.
    pub duration: Real,
    /// The page shown when the recording started.
    pub start_page_id: PageId,
    pub audio: Option<AudioRef>,
    /// Timeline events, in time order.
    pub events: Vec<TimelineEvent>,
    pub strokes: Vec<Stroke>,
}

/// `e` is a script anchor of section `id`.
pub open spec fn is_mark_of(e: TimelineEvent, id: Seq<char>) -> bool {
    e matches TimelineEvent::ScriptMark { section_id, .. } && section_id@ == id
}

/// The time of the first script anchor of section `id`.
pub open spec fn first_mark(ev: Seq<TimelineEvent>, id: Seq<char>) -> Option<Real>
    decreases ev.len(),
{
    if ev.len() == 0 {
        None
    } else {
        match first_mark(ev.drop_last(), id) {
            Some(t) => Some(t),
            None => match ev.last() {
                TimelineEvent::ScriptMark { section_id, t } => if section_id@ == id {
                    Some(t)
                } else {
                    None
                },
                _ => None,
            },
        }
    }
}

/// The script anchors among the events, in order, as (section, time).
pub open spec fn script_marks(ev: Seq<TimelineEvent>) -> Seq<(Seq<char>, Real)>
    decreases ev.len(),
{
    if ev.len() == 0 {
        Seq::empty()
    } else {
        let r = script_marks(ev.drop_last());
        match ev.last() {
            TimelineEvent::ScriptMark { section_id, t } => r.push((section_id@, t)),
            _ => r,
        }
    }
}

/// The events that are not script anchors, in order.
pub open spec fn without_marks(ev: Seq<TimelineEvent>) -> Seq<TimelineEvent>
    decreases ev.len(),
{
    if ev.len() == 0 {
        Seq::empty()
    } else {
        let r = without_marks(ev.drop_last());
        if ev.last() is ScriptMark {
            r
        } else {
            r.push(ev.last())
        }
    }
}

/// The script anchors for the given (section, time) pairs.
pub open spec fn mark_events(marks: Seq<(String, Real)>) -> Seq<TimelineEvent> {
    marks.map_values(|m: (String, Real)| TimelineEvent::ScriptMark { section_id: m.0, t: m.1 })
}

/// The strokes drawn on page `page`, in order.
pub open spec fn strokes_on_page(s: Seq<Stroke>, page: Seq<char>) -> Seq<Stroke>
    decreases s.len(),
{
    if s.len() == 0 {
        Seq::empty()
    } else {
        let r = strokes_on_page(s.drop_last(), page);
        if s.last().page_id@ == page {
            r.push(s.last())
        } else {
            r
        }
    }
}

/// `first_mark` finds nothing exactly when no event anchors section `id`.
pub proof fn lemma_first_mark_none(ev: Seq<TimelineEvent>, id: Seq<char>)
    ensures
        first_mark(ev, id) is None <==> forall|i: int| 0 <= i < ev.len() ==> !is_mark_of(#[trigger] ev[i], id),
    decreases ev.len(),
{
    if ev.len() > 0 {
        let init = ev.drop_last();
        lemma_first_mark_none(init, id);
        assert forall|i: int| 0 <= i < init.len() implies #[trigger] init[i] == ev[i] by {}
        if first_mark(ev, id) is None {
            assert forall|i: int| 0 <= i < ev.len() implies !is_mark_of(#[trigger] ev[i], id) by {
                if i < init.len() {
                    assert(init[i] == ev[i]);
                }
            }
        } else {
            if first_mark(init, id) is Some {
                let k = choose|k: int| 0 <= k < init.len() && is_mark_of(#[trigger] init[k], id);
                assert(ev[k] == init[k]);
            } else {
                assert(is_mark_of(ev[ev.len() - 1], id));
            }
        }
    }
}

/// `without_marks` keeps every event that is not a script anchor and
/// nothing else.
pub proof fn lemma_without_marks(ev: Seq<TimelineEvent>)
    ensures
        forall|k: int| 0 <= k < ev.len() && !(#[trigger] ev[k] is ScriptMark) ==> without_marks(ev).contains(ev[k]),
        forall|i: int| 0 <= i < without_marks(ev).len() ==> !(#[trigger] without_marks(ev)[i] is ScriptMark),
        forall|i: int| 0 <= i < without_marks(ev).len() ==> ev.contains(#[trigger] without_marks(ev)[i]),
    decreases ev.len(),
{
    if ev.len() > 0 {
        let init = ev.drop_last();
        lemma_without_marks(init);
        let r = without_marks(init);
        assert forall|k: int| 0 <= k < ev.len() && !(#[trigger] ev[k] is ScriptMark) implies without_marks(ev).contains(ev[k]) by {
            if k < init.len() {
                assert(init[k] == ev[k]);
                let j = choose|j: int| 0 <= j < r.len() && r[j] == init[k];
                if !(ev.last() is ScriptMark) {
                    assert(without_marks(ev)[j] == r[j]);
                }
            } else {
                assert(without_marks(ev)[r.len() as int] == ev[k]);
            }
        }
        assert forall|i: int| 0 <= i < without_marks(ev).len() implies ev.contains(#[trigger] without_marks(ev)[i]) by {
            if i < r.len() {
                assert(without_marks(ev)[i] == r[i]);
                assert(init.contains(r[i]));
                let k = choose|k: int| 0 <= k < init.len() && init[k] == r[i];
                assert(ev[k] == init[k]);
            } else {
                assert(ev[ev.len() - 1] == without_marks(ev)[i]);
            }
        }
    }
}

/// Rewriting the script anchors replaces them: afterwards the anchors are
/// exactly the given ones, and every other event is still there.
pub proof fn lemma_set_section_marks_replaces(
    old_events: Seq<TimelineEvent>,
    marks: Seq<(String, Real)>,
    new_events: Seq<TimelineEvent>,
)
    requires
        stably_sorted_from(without_marks(old_events) + mark_events(marks), new_events),
    ensures
        new_events.len() == without_marks(old_events).len() + marks.len(),
        forall|j: int| 0 <= j < marks.len() ==> (#[trigger] first_mark(new_events, marks[j].0@)) is Some,
        forall|id: Seq<char>|
            (forall|j: int| 0 <= j < marks.len() ==> (#[trigger] marks[j]).0@ != id) ==> (#[trigger] first_mark(
                new_events,
                id,
            )) is None,
        forall|k: int|
            0 <= k < old_events.len() && !(#[trigger] old_events[k] is ScriptMark) ==> new_events.contains(
                old_events[k],
            ),
{
    let src = without_marks(old_events) + mark_events(marks);
    let w = without_marks(old_events);
    let order = choose|order: Seq<usize>|
        #[trigger] stable_order(event_keys(src), order) && new_events.len() == src.len() && forall|k: int|
            0 <= k < new_events.len() ==> new_events[k] == src[order[k] as int];
    lemma_stable_order_is_permutation(event_keys(src), order);
    lemma_permutation_covers(order, src.len() as int);
    lemma_without_marks(old_events);
    assert forall|j: int| 0 <= j < marks.len() implies (#[trigger] first_mark(new_events, marks[j].0@)) is Some by {
        let x = w.len() + j;
        assert(lists(order, x));
        let i = choose|i: int| 0 <= i < order.len() && order[i] as int == x;
        assert(new_events[i] == src[x]);
        assert(src[x] == mark_events(marks)[j]);
        lemma_first_mark_none(new_events, marks[j].0@);
        assert(is_mark_of(new_events[i], marks[j].0@));
    }
    assert forall|id: Seq<char>|
        (forall|j: int| 0 <= j < marks.len() ==> (#[trigger] marks[j]).0@ != id) implies (#[trigger] first_mark(
            new_events,
            id,
        )) is None by {
        lemma_first_mark_none(new_events, id);
        assert forall|i: int| 0 <= i < new_events.len() implies !is_mark_of(#[trigger] new_events[i], id) by {
            let x = order[i] as int;
            assert(new_events[i] == src[x]);
            if x < w.len() {
                assert(src[x] == w[x]);
                assert(!(w[x] is ScriptMark));
            } else {
                let j = x - w.len();
                assert(src[x] == mark_events(marks)[j]);
                assert(marks[j].0@ != id);
            }
        }
    }
    assert forall|k: int|
        0 <= k < old_events.len() && !(#[trigger] old_events[k] is ScriptMark) implies new_events.contains(
        old_events[k],
    ) by {
        assert(w.contains(old_events[k]));
        let x = choose|x: int| 0 <= x < w.len() && w[x] == old_events[k];
        assert(src[x] == w[x]);
        assert(lists(order, x));
        let i = choose|i: int| 0 <= i < order.len() && order[i] as int == x;
        assert(new_events[i] == old_events[k]);
    }
}

impl Rehearsal {
    /// An empty rehearsal that starts on page `start_page_id`, created now.
    pub fn new(id: &str, name: &str, start_page_id: &str) -> (r: Self)
        ensures
            r.id@ == id@,
            r.name@ == name@,
            r.start_page_id@ == start_page_id@,
            r.duration.bits == 0,
            r.audio is None,
            r.events@.len() == 0,
            r.strokes@.len() == 0,
    {
        Rehearsal::new_at(id, name, start_page_id, now_unix())
    }

    /// An empty rehearsal that starts on page `start_page_id`, created at
    /// Unix time `now`.
    pub fn new_at(id: &str, name: &str, start_page_id: &str, now: u64) -> (r: Self)
        ensures
            r.id@ == id@,
            r.name@ == name@,
            r.created_at_unix == now,
            r.start_page_id@ == start_page_id@,
            r.duration.bits == 0,
            r.audio is None,
            r.events@.len() == 0,
            r.strokes@.len() == 0,
    {
        Rehearsal {
            id: id.to_owned(),
            name: name.to_owned(),
            created_at_unix: now,
            duration: Real::zero(),
            start_page_id: start_page_id.to_owned(),
            audio: None,
            events: Vec::new(),
            strokes: Vec::new(),
        }
    }

    /// Adds an event and keeps the events in time order (events may come
    /// in out of order).
    pub fn push_event(&mut self, event: TimelineEvent)
        ensures
            stably_sorted_from(old(self).events@.push(event), final(self).events@),
            final(self).id == old(self).id,
            final(self).name == old(self).name,
            final(self).created_at_unix == old(self).created_at_unix,
            final(self).duration == old(self).duration,
            final(self).start_page_id == old(self).start_page_id,
            final(self).audio == old(self).audio,
            final(self).strokes == old(self).strokes,
    {
        self.events.push(event);
        sort_events(&mut self.events);
    }

    /// The strokes drawn on page `page_id`, in order.
    pub fn strokes_on<'a>(&'a self, page_id: &str) -> (r: Vec<&'a Stroke>)
        ensures
            r@.len() == strokes_on_page(self.strokes@, page_id@).len(),
            forall|k: int| 0 <= k < r@.len() ==> *(#[trigger] r@[k]) == strokes_on_page(self.strokes@, page_id@)[k],
    {
        let mut out: Vec<&'a Stroke> = Vec::new();
        let mut i: usize = 0;
        while i < self.strokes.len()
            invariant
                i <= self.strokes@.len(),
                out@.len() == strokes_on_page(self.strokes@.take(i as int), page_id@).len(),
                forall|k: int|
                    0 <= k < out@.len() ==> *(#[trigger] out@[k]) == strokes_on_page(
                        self.strokes@.take(i as int),
                        page_id@,
                    )[k],
            decreases self.strokes@.len() - i,
        {
            proof {
                assert(self.strokes@.take(i + 1).drop_last() =~= self.strokes@.take(i as int));
            }
            if str_eq(self.strokes[i].page_id.as_str(), page_id) {
                out.push(&self.strokes[i]);
            }
            i = i + 1;
        }
        proof {
            assert(self.strokes@.take(i as int) =~= self.strokes@);
        }
        out
    }

    /// When section `section_id` of the script is first spoken.
    pub fn section_reveal_time(&self, section_id: &str) -> (r: Option<Real>)
        ensures
            r == first_mark(self.events@, section_id@),
    {
        let mut i: usize = 0;
        while i < self.events.len()
            invariant
                i <= self.events@.len(),
                first_mark(self.events@.take(i as int), section_id@) is None,
            decreases self.events@.len() - i,
        {
            proof {
                assert(self.events@.take(i + 1).drop_last() =~= self.events@.take(i as int));
            }
            if let TimelineEvent::ScriptMark { section_id: sid, t } = &self.events[i] {
                if str_eq(sid.as_str(), section_id) {
                    proof {
                        assert(self.events@.take(i + 1).last() == self.events@[i as int]);
                        lemma_first_mark_extends(self.events@, section_id@, i + 1);
                    }
                    return Some(*t);
                }
            }
            proof {
                lemma_first_mark_prefix(self.events@, section_id@, i as int);
            }
            i = i + 1;
        }
        proof {
            assert(self.events@.take(i as int) =~= self.events@);
        }
        None
    }

    /// When element `element_id` first appears.
    pub fn element_reveal_time(&self, element_id: &str) -> (r: Option<Real>)
        ensures
            r == first_reveal(self.events@, element_id@),
    {
        let mut i: usize = 0;
        while i < self.events.len()
            invariant
                i <= self.events@.len(),
                first_reveal(self.events@.take(i as int), element_id@) is None,
            decreases self.events@.len() - i,
        {
            proof {
                assert(self.events@.take(i + 1).drop_last() =~= self.events@.take(i as int));
            }
            if let TimelineEvent::Reveal { element_id: eid, t } = &self.events[i] {
                if str_eq(eid.as_str(), element_id) {
                    proof {
                        assert(self.events@.take(i + 1).last() == self.events@[i as int]);
                        lemma_first_reveal_extends(self.events@, element_id@, i + 1);
                    }
                    return Some(*t);
                }
            }
            proof {
                lemma_first_reveal_prefix(self.events@, element_id@, i as int);
            }
            i = i + 1;
        }
        proof {
            assert(self.events@.take(i as int) =~= self.events@);
        }
        None
    }

    /// Every script anchor as (section, time), in event order.
    pub fn script_anchors(&self) -> (r: Vec<(SectionId, Real)>)
        ensures
            r@.map_values(|p: (SectionId, Real)| (p.0@, p.1)) == script_marks(self.events@),
    {
        let mut out: Vec<(SectionId, Real)> = Vec::new();
        let mut i: usize = 0;
        while i < self.events.len()
            invariant
                i <= self.events@.len(),
                out@.map_values(|p: (SectionId, Real)| (p.0@, p.1)) == script_marks(self.events@.take(i as int)),
            decreases self.events@.len() - i,
        {
            proof {
                assert(self.events@.take(i + 1).drop_last() =~= self.events@.take(i as int));
            }
            if let TimelineEvent::ScriptMark { section_id, t } = &self.events[i] {
                let ghost before = out@;
                out.push((section_id.clone(), *t));
                proof {
                    assert(out@.map_values(|p: (SectionId, Real)| (p.0@, p.1)) =~= before.map_values(
                        |p: (SectionId, Real)| (p.0@, p.1),
                    ).push((section_id@, *t)));
                }
            }
            i = i + 1;
        }
        proof {
            assert(self.events@.take(i as int) =~= self.events@);
        }
        out
    }

    /// The creation time as `YYYY-MM-DD HH:MM:SS` (UTC).
    pub fn created_at_display(&self) -> (r: String)
        ensures
            r@ == unix_time_text(self.created_at_unix as nat),
    {
        format_unix_time(self.created_at_unix)
    }

    /// Drops the old script anchors and records `marks` instead (used when
    /// recording again); the events stay in time order.
    pub fn set_section_marks(&mut self, marks: &[(SectionId, Real)])
        ensures
            stably_sorted_from(without_marks(old(self).events@) + mark_events(marks@), final(self).events@),
            final(self).id == old(self).id,
            final(self).name == old(self).name,
            final(self).created_at_unix == old(self).created_at_unix,
            final(self).duration == old(self).duration,
            final(self).start_page_id == old(self).start_page_id,
            final(self).audio == old(self).audio,
            final(self).strokes == old(self).strokes,
    {
        let mut kept: Vec<TimelineEvent> = Vec::new();
        let n = self.events.len();
        let mut i: usize = 0;
        while i < n
            invariant
                n == self.events@.len(),
                i <= n,
                kept@ == without_marks(self.events@.take(i as int)),
            decreases n - i,
        {
            proof {
                assert(self.events@.take(i + 1).drop_last() =~= self.events@.take(i as int));
            }
            if let TimelineEvent::ScriptMark { .. } = &self.events[i] {
            } else {
                kept.push(self.events[i].copy());
            }
            i = i + 1;
        }
        proof {
            assert(self.events@.take(n as int) =~= self.events@);
        }
        let ghost base = kept@;
        let mut j: usize = 0;
        while j < marks.len()
            invariant
                j <= marks@.len(),
                kept@ == base + mark_events(marks@.take(j as int)),
            decreases marks@.len() - j,
        {
            let (sid, t) = &marks[j];
            kept.push(TimelineEvent::ScriptMark { section_id: sid.clone(), t: *t });
            proof {
                assert(mark_events(marks@.take(j + 1)) =~= mark_events(marks@.take(j as int)).push(
                    TimelineEvent::ScriptMark { section_id: *sid, t: *t },
                ));
            }
            j = j + 1;
        }
        proof {
            assert(marks@.take(j as int) =~= marks@);
        }
        sort_events(&mut kept);
        self.events = kept;
    }
}

/// Once a prefix has found the first anchor of `id`, so has the whole list.
proof fn lemma_first_mark_extends(ev: Seq<TimelineEvent>, id: Seq<char>, k: int)
    requires
        0 <= k <= ev.len(),
        first_mark(ev.take(k), id) is Some,
    ensures
        first_mark(ev, id) == first_mark(ev.take(k), id),
    decreases ev.len(),
{
    if k == ev.len() {
        assert(ev.take(k) =~= ev);
    } else {
        assert(ev.drop_last().take(k) =~= ev.take(k));
        lemma_first_mark_extends(ev.drop_last(), id, k);
    }
}

/// Once a prefix has found the first reveal of `id`, so has the whole list.
proof fn lemma_first_reveal_extends(ev: Seq<TimelineEvent>, id: Seq<char>, k: int)
    requires
        0 <= k <= ev.len(),
        first_reveal(ev.take(k), id) is Some,
    ensures
        first_reveal(ev, id) == first_reveal(ev.take(k), id),
    decreases ev.len(),
{
    if k == ev.len() {
        assert(ev.take(k) =~= ev);
    } else {
        assert(ev.drop_last().take(k) =~= ev.take(k));
        lemma_first_reveal_extends(ev.drop_last(), id, k);
    }
}

/// `first_mark` of a prefix that found nothing, extended by one event.
proof fn lemma_first_mark_prefix(ev: Seq<TimelineEvent>, id: Seq<char>, i: int)
    requires
        0 <= i < ev.len(),
        first_mark(ev.take(i), id) is None,
        !is_mark_of(ev[i], id),
    ensures
        first_mark(ev.take(i + 1), id) is None,
{
    assert(ev.take(i + 1).drop_last() =~= ev.take(i));
    assert(ev.take(i + 1).last() == ev[i]);
}

/// `first_reveal` of a prefix that found nothing, extended by one event.
proof fn lemma_first_reveal_prefix(ev: Seq<TimelineEvent>, id: Seq<char>, i: int)
    requires
        0 <= i < ev.len(),
        first_reveal(ev.take(i), id) is None,
        !(ev[i] matches TimelineEvent::Reveal { element_id, .. } && element_id@ == id),
    ensures
        first_reveal(ev.take(i + 1), id) is None,
{
    assert(ev.take(i + 1).drop_last() =~= ev.take(i));
    assert(ev.take(i + 1).last() == ev[i]);
}

/// The summary of a rehearsal kept in `project.json`; events and strokes
/// stay in the rehearsal's own file so the project file does not grow
/// with every recording.
#[derive(Clone, Debug)]
pub struct RehearsalMeta {
    pub id: String,
    pub name: String,
    pub created_at_unix: u64,
    pub duration: Real,
    pub has_audio: bool,
    pub event_count: usize,
    pub stroke_count: usize,
}

impl RehearsalMeta {
    /// The summary of `r`.
    pub fn from_rehearsal(r: &Rehearsal) -> (m: Self)
        ensures
            m.id == r.id,
            m.name == r.name,
            m.created_at_unix == r.created_at_unix,
            m.duration == r.duration,
            m.has_audio == r.audio is Some,
            m.event_count == r.events@.len(),
            m.stroke_count == r.strokes@.len(),
    {
        RehearsalMeta {
            id: r.id.clone(),
            name: r.name.clone(),
            created_at_unix: r.created_at_unix,
            duration: r.duration,
            has_audio: r.audio.is_some(),
            event_count: r.events.len(),
            stroke_count: r.strokes.len(),
        }
    }

    /// The creation time as `YYYY-MM-DD HH:MM:SS` (UTC).
    pub fn created_at_display(&self) -> (r: String)
        ensures
            r@ == unix_time_text(self.created_at_unix as nat),
    {
        format_unix_time(self.created_at_unix)
    }

    /// An equal copy.
    pub fn copy(&self) -> (r: Self)
        ensures
            r == *self,
    {
        RehearsalMeta {
            id: self.id.clone(),
            name: self.name.clone(),
            created_at_unix: self.created_at_unix,
            duration: self.duration,
            has_audio: self.has_audio,
            event_count: self.event_count,
            stroke_count: self.stroke_count,
        }
    }
}

} // verus!
