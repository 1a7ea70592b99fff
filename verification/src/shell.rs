//! The decisions of the application shell: what a key press does, how a
//! live recording starts, which script sentence a reveal anchors, which
//! element a number key reveals, where paging goes, and how a finished
//! recording becomes a rehearsal. The window, the audio devices and the
//! files are handled by the program around these functions.
use vstd::prelude::*;

use crate::cli::Mode;
use crate::model::element::ElementId;
use crate::model::page::{z_keys, Page};
use crate::model::project::Project;
use crate::model::rehearsal::{AudioRef, Rehearsal};
use crate::model::rehearsal::{first_mark, mark_events, without_marks};
use crate::model::script::{first_section_index, lemma_first_section_index, ScriptLevel, ScriptSection};
use crate::model::page::{first_page_index, page_position};
use crate::model::stroke::Stroke;
use crate::model::ascii_lower;
use crate::scalar::Real;
use crate::text::{chars_of, decimal, decimal_string, push_str, str_eq};
use crate::sort::stable_order;
use crate::timeline::{
    and_flags, best_stroke_hit, first_reveal, hit_test_stroke, hit_test_visible_element, is_state_at,
    last_flagged, last_reveal_by, max_event_time, max_stroke_end, reveal_time, stably_sorted_from, start_page_for,
    visible_flags,
    PresentationState, TimelineEvent, TimelineInput,
};

verus! {

/// What a key press asks for.
#[derive(Clone, Debug, PartialEq, Eq, Structural)]
pub enum KeyCommand {
    Nothing,
    ToggleRecording,
    PlayToggle,
    NewProject,
    OpenProject,
    ToggleInspector,
    Save,
    StopRecording,
    /// Leave to the create mode (Esc when not recording).
    ExitToCreate,
    /// Reveal the next element that has not appeared.
    TriggerNext,
    /// Move by this many pages.
    NextPage(i32),
    /// Reveal the element at this position of the drawing order.
    TriggerSlot(usize),
    AddMarker,
    /// Hide the topmost visible element.
    HideLast,
}

/// `text` is the one letter `l`, in either case.
pub open spec fn is_letter(text: Seq<char>, l: char) -> bool {
    text.len() == 1 && ascii_lower(text[0]) == l
}

/// The element slot of a number key 1 to 9 (0 to 8), when shift is not
/// held; only the first character counts.
pub open spec fn slot_key(text: Seq<char>, shift: bool) -> Option<usize> {
    if !shift && text.len() > 0 && '1' <= text[0] && text[0] <= '9' {
        Some(((text[0] as u32) - 49) as usize)
    } else {
        None
    }
}

/// The command for a key press. `text` is the key's text (control keys
/// arrive as `\u{1b}` for Esc and `\u{F700}`..`\u{F703}` for the arrows).
pub open spec fn key_command_for(
    text: Seq<char>,
    ctrl: bool,
    shift: bool,
    editing: bool,
    mode: Mode,
    recording: bool,
) -> KeyCommand {
    if editing {
        KeyCommand::Nothing
    } else if ctrl {
        if is_letter(text, 'r') {
            KeyCommand::ToggleRecording
        } else if is_letter(text, 'p') {
            KeyCommand::PlayToggle
        } else if is_letter(text, 'n') {
            KeyCommand::NewProject
        } else if is_letter(text, 'o') {
            KeyCommand::OpenProject
        } else if is_letter(text, 'i') {
            KeyCommand::ToggleInspector
        } else if is_letter(text, 's') {
            KeyCommand::Save
        } else {
            KeyCommand::Nothing
        }
    } else if text == seq!['\u{1b}'] {
        if recording {
            KeyCommand::StopRecording
        } else {
            KeyCommand::ExitToCreate
        }
    } else if text == seq![' '] {
        if mode == Mode::Rehearse || mode == Mode::Present {
            KeyCommand::TriggerNext
        } else {
            KeyCommand::PlayToggle
        }
    } else if text == seq!['\u{F703}'] || text == seq!['\u{F701}'] {
        KeyCommand::NextPage(1i32)
    } else if text == seq!['\u{F702}'] || text == seq!['\u{F700}'] {
        KeyCommand::NextPage(-1i32)
    } else if slot_key(text, shift) is Some {
        KeyCommand::TriggerSlot(slot_key(text, shift).unwrap())
    } else if is_letter(text, 'm') && mode == Mode::Rehearse && recording {
        KeyCommand::AddMarker
    } else if is_letter(text, 'h') && (mode == Mode::Rehearse || mode == Mode::Present) {
        KeyCommand::HideLast
    } else {
        KeyCommand::Nothing
    }
}

fn letter_is(text: &Vec<char>, l: char) -> (r: bool)
    requires
        'a' <= l <= 'z',
    ensures
        r == is_letter(text@, l),
{
    if text.len() != 1 {
        return false;
    }
    let c = text[0];
    if 'A' <= c && c <= 'Z' {
        let lower = ((c as u8) + 32) as char;
        proof {
            assert(lower == ascii_lower(c)) by {
                assert(((c as u8) + 32) as char == ((c as u32) + 32) as char);
            }
        }
        lower == l
    } else {
        c == l
    }
}

/// What a key press does (see [`key_command_for`]).
pub fn key_command(text: &str, ctrl: bool, shift: bool, editing: bool, mode: Mode, recording: bool) -> (r:
    KeyCommand)
    ensures
        r == key_command_for(text@, ctrl, shift, editing, mode, recording),
{
    let cs = chars_of(text);
    if editing {
        return KeyCommand::Nothing;
    }
    if ctrl {
        return if letter_is(&cs, 'r') {
            KeyCommand::ToggleRecording
        } else if letter_is(&cs, 'p') {
            KeyCommand::PlayToggle
        } else if letter_is(&cs, 'n') {
            KeyCommand::NewProject
        } else if letter_is(&cs, 'o') {
            KeyCommand::OpenProject
        } else if letter_is(&cs, 'i') {
            KeyCommand::ToggleInspector
        } else if letter_is(&cs, 's') {
            KeyCommand::Save
        } else {
            KeyCommand::Nothing
        };
    }
    let one = cs.len() == 1;
    if one && cs[0] == '\u{1b}' {
        proof {
            assert(text@ =~= seq!['\u{1b}']);
        }
        return if recording {
            KeyCommand::StopRecording
        } else {
            KeyCommand::ExitToCreate
        };
    }
    if one && cs[0] == ' ' {
        proof {
            assert(text@ =~= seq![' ']);
        }
        return if mode == Mode::Rehearse || mode == Mode::Present {
            KeyCommand::TriggerNext
        } else {
            KeyCommand::PlayToggle
        };
    }
    if one && (cs[0] == '\u{F703}' || cs[0] == '\u{F701}') {
        proof {
            assert(text@ =~= seq![cs@[0]]);
        }
        return KeyCommand::NextPage(1);
    }
    if one && (cs[0] == '\u{F702}' || cs[0] == '\u{F700}') {
        proof {
            assert(text@ =~= seq![cs@[0]]);
        }
        return KeyCommand::NextPage(-1);
    }
    proof {
        if one {
            assert(text@ != seq!['\u{1b}']);
            assert(text@ != seq![' ']);
            assert(text@ != seq!['\u{F703}'] && text@ != seq!['\u{F701}']);
            assert(text@ != seq!['\u{F702}'] && text@ != seq!['\u{F700}']);
        } else {
            assert(text@.len() != 1);
            assert(seq!['\u{1b}'].len() == 1);
            assert(seq![' '].len() == 1);
            assert(seq!['\u{F703}'].len() == 1 && seq!['\u{F701}'].len() == 1);
            assert(seq!['\u{F702}'].len() == 1 && seq!['\u{F700}'].len() == 1);
        }
    }
    if !shift && cs.len() > 0 {
        let c = cs[0];
        if '1' <= c && c <= '9' {
            let d = (c as u32) - 48;
            return KeyCommand::TriggerSlot((d - 1) as usize);
        }
    }
    if letter_is(&cs, 'm') && mode == Mode::Rehearse && recording {
        return KeyCommand::AddMarker;
    }
    if letter_is(&cs, 'h') && (mode == Mode::Rehearse || mode == Mode::Present) {
        return KeyCommand::HideLast;
    }
    KeyCommand::Nothing
}

/// What is being recorded right now: the events and strokes so far, the
/// page the recording started on, and the counter for stroke ids.
#[derive(Clone, Debug)]
pub struct LiveRecording {
    pub events: Vec<TimelineEvent>,
    pub strokes: Vec<Stroke>,
    pub start_page: usize,
    pub next_stroke_serial: u64,
}

/// `r` is a live recording just started on page `page_id` (index
/// `start_page`) at time 0: a page change to it, then, when given, the
/// script section `script_first` started at 0; no strokes yet.
pub open spec fn is_fresh_live(
    r: LiveRecording,
    start_page: usize,
    page_id: Seq<char>,
    script_first: Option<Seq<char>>,
) -> bool {
    &&& r.start_page == start_page
    &&& r.strokes@.len() == 0
    &&& r.next_stroke_serial == 1
    &&& r.events@.len() == (if script_first is Some {
        2int
    } else {
        1int
    })
    &&& r.events@[0] matches TimelineEvent::PageChange { page_id: p, t } && p@ == page_id && t.bits == 0
    &&& script_first matches Some(sid) ==> (r.events@[1] matches TimelineEvent::ScriptMark { section_id: s, t }
        && s@ == sid && t.bits == 0)
}

impl LiveRecording {
    /// A recording that starts on page `page_id` (index `start_page`) at
    /// time 0; when the script has a first sentence it counts as started at
    /// 0 too, so the prompt shows at once.
    pub fn fresh(start_page: usize, page_id: &str, script_first: Option<&str>) -> (r: Self)
        ensures
            is_fresh_live(
                r,
                start_page,
                page_id@,
                match script_first {
                    Some(sid) => Some(sid@),
                    None => None,
                },
            ),
    {
        let mut events: Vec<TimelineEvent> = Vec::new();
        events.push(TimelineEvent::PageChange { page_id: page_id.to_owned(), t: Real::zero() });
        match script_first {
            Some(sid) => {
                events.push(TimelineEvent::ScriptMark { section_id: sid.to_owned(), t: Real::zero() });
            },
            None => {},
        }
        LiveRecording { events, strokes: Vec::new(), start_page, next_stroke_serial: 1 }
    }
}

/// The ids of the sentences anchored so far.
pub open spec fn marked_ids(marked: Seq<(String, Real)>) -> Seq<Seq<char>> {
    marked.map_values(|m: (String, Real)| m.0@)
}

/// Sentence `s` belongs to page `page` and has no anchor yet.
pub open spec fn anchor_candidate(s: ScriptSection, page: Seq<char>, marked: Seq<Seq<char>>) -> bool {
    (s.page_id matches Some(p) && p@ == page) && !marked.contains(s.id@)
}

/// The first sentence of page `page` without an anchor.
pub open spec fn first_candidate(secs: Seq<ScriptSection>, page: Seq<char>, marked: Seq<Seq<char>>) -> Option<int>
    decreases secs.len(),
{
    if secs.len() == 0 {
        None
    } else {
        match first_candidate(secs.drop_last(), page, marked) {
            Some(i) => Some(i),
            None => if anchor_candidate(secs.last(), page, marked) {
                Some(secs.len() - 1)
            } else {
                None
            },
        }
    }
}

proof fn lemma_first_candidate_prefix(secs: Seq<ScriptSection>, page: Seq<char>, marked: Seq<Seq<char>>, i: int)
    requires
        0 <= i < secs.len(),
        first_candidate(secs.take(i), page, marked) is None,
    ensures
        first_candidate(secs.take(i + 1), page, marked) == (if anchor_candidate(secs[i], page, marked) {
            Some(i)
        } else {
            None::<int>
        }),
{
    assert(secs.take(i + 1).drop_last() =~= secs.take(i));
}

proof fn lemma_first_candidate_extends(secs: Seq<ScriptSection>, page: Seq<char>, marked: Seq<Seq<char>>, k: int)
    requires
        0 <= k <= secs.len(),
        first_candidate(secs.take(k), page, marked) is Some,
    ensures
        first_candidate(secs, page, marked) == first_candidate(secs.take(k), page, marked),
    decreases secs.len(),
{
    if k == secs.len() {
        assert(secs.take(k) =~= secs);
    } else {
        assert(secs.drop_last().take(k) =~= secs.take(k));
        lemma_first_candidate_extends(secs.drop_last(), page, marked, k);
    }
}

/// While recording, revealing an element anchors the first sentence of the
/// current page that has no anchor yet ("belongs to this page" and "not yet
/// anchored" are one condition, so later sentences of the page are found).
pub fn auto_mark_candidate(sections: &Vec<ScriptSection>, page_id: &str, marked: &Vec<(String, Real)>) -> (r:
    Option<String>)
    ensures
        match first_candidate(sections@, page_id@, marked_ids(marked@)) {
            Some(i) => r matches Some(id) && id@ == sections@[i].id@,
            None => r is None,
        },
{
    let ghost m = marked_ids(marked@);
    let mut i: usize = 0;
    while i < sections.len()
        invariant
            m == marked_ids(marked@),
            i <= sections@.len(),
            first_candidate(sections@.take(i as int), page_id@, m) is None,
        decreases sections@.len() - i,
    {
        let s = &sections[i];
        let on_page = match &s.page_id {
            Some(p) => str_eq(p.as_str(), page_id),
            None => false,
        };
        let mut seen = false;
        let mut k: usize = 0;
        while k < marked.len()
            invariant
                m == marked_ids(marked@),
                k <= marked@.len(),
                seen == exists|q: int| 0 <= q < k && #[trigger] m[q] == s.id@,
            decreases marked@.len() - k,
        {
            proof {
                assert(m[k as int] == marked@[k as int].0@);
            }
            if str_eq(marked[k].0.as_str(), s.id.as_str()) {
                seen = true;
            }
            k = k + 1;
        }
        proof {
            lemma_first_candidate_prefix(sections@, page_id@, m, i as int);
            assert(seen == m.contains(s.id@));
        }
        if on_page && !seen {
            proof {
                lemma_first_candidate_extends(sections@, page_id@, m, i + 1);
            }
            return Some(s.id.clone());
        }
        i = i + 1;
    }
    proof {
        assert(sections@.take(i as int) =~= sections@);
    }
    None
}

/// The index of the first anchor kept for section `id`.
pub open spec fn first_marked_index(marked: Seq<(String, Real)>, id: Seq<char>) -> Option<int>
    decreases marked.len(),
{
    if marked.len() == 0 {
        None
    } else {
        match first_marked_index(marked.drop_last(), id) {
            Some(i) => Some(i),
            None => if marked.last().0@ == id {
                Some(marked.len() - 1)
            } else {
                None
            },
        }
    }
}

proof fn lemma_first_marked_index(marked: Seq<(String, Real)>, id: Seq<char>)
    ensures
        match first_marked_index(marked, id) {
            Some(i) => 0 <= i < marked.len() && marked[i].0@ == id && forall|j: int|
                0 <= j < i ==> #[trigger] marked[j].0@ != id,
            None => forall|j: int| 0 <= j < marked.len() ==> #[trigger] marked[j].0@ != id,
        },
    decreases marked.len(),
{
    if marked.len() > 0 {
        let d = marked.drop_last();
        lemma_first_marked_index(d, id);
        match first_marked_index(d, id) {
            Some(i) => {
                assert forall|j: int| 0 <= j < i implies #[trigger] marked[j].0@ != id by {
                    assert(d[j] == marked[j]);
                }
                assert(d[i] == marked[i]);
            },
            None => {
                assert forall|j: int| 0 <= j < marked.len() - 1 implies #[trigger] marked[j].0@ != id by {
                    assert(d[j] == marked[j]);
                }
            },
        }
    }
}

/// Keeps the anchor time of section `section_id`: the time of its entry is
/// replaced, or a new entry is added.
pub fn remember_mark(marked: &mut Vec<(String, Real)>, section_id: &str, t: Real)
    ensures
        match first_marked_index(old(marked)@, section_id@) {
            Some(i) => final(marked)@ == old(marked)@.update(i, (old(marked)@[i].0, t)),
            None => final(marked)@.len() == old(marked)@.len() + 1 && final(marked)@.drop_last() == old(
                marked,
            )@ && final(marked)@.last().0@ == section_id@ && final(marked)@.last().1 == t,
        },
{
    proof {
        lemma_first_marked_index(marked@, section_id@);
    }
    let mut i: usize = 0;
    while i < marked.len()
        invariant
            i <= marked@.len(),
            marked@ == old(marked)@,
            forall|j: int| 0 <= j < i ==> #[trigger] marked@[j].0@ != section_id@,
        decreases marked@.len() - i,
    {
        if str_eq(marked[i].0.as_str(), section_id) {
            proof {
                lemma_first_marked_index(marked@, section_id@);
                match first_marked_index(marked@, section_id@) {
                    Some(k) => {
                        if k > i {
                            assert(marked@[i as int].0@ == section_id@);
                        }
                    },
                    None => {
                        assert(marked@[i as int].0@ == section_id@);
                    },
                }
            }
            let id = marked[i].0.clone();
            marked.set(i, (id, t));
            return;
        }
        i = i + 1;
    }
    marked.push((section_id.to_owned(), t));
    proof {
        assert(marked@.drop_last() =~= old(marked)@);
    }
}

/// What a number key does on the current page.
#[derive(Clone, Debug, PartialEq, Eq)]
pub enum SlotOutcome {
    /// The page has fewer elements than the slot.
    NoSuchElement,
    /// The element at the slot is already visible.
    AlreadyVisible(ElementId),
    /// Reveal the element at the slot.
    Reveal(ElementId),
}

/// The number key for `slot` (0 for key 1) addresses the element at that
/// position of the page's drawing order.
pub fn slot_target(page: &Page, state: &PresentationState, slot: usize) -> (r: SlotOutcome)
    ensures
        exists|order: Seq<usize>|
            #[trigger] stable_order(z_keys(page.elements@), order) && order.len() == page.elements@.len() && if slot
                < order.len() {
                let id = page.elements@[order[slot as int] as int].id@;
                if state.visibility().contains_key(id) && state.visibility()[id] {
                    r matches SlotOutcome::AlreadyVisible(x) && x@ == id
                } else {
                    r matches SlotOutcome::Reveal(x) && x@ == id
                }
            } else {
                r is NoSuchElement
            },
{
    let order = page.draw_order();
    if slot >= order.len() {
        return SlotOutcome::NoSuchElement;
    }
    let id = page.elements[order[slot]].id.clone();
    if state.is_visible(id.as_str()) {
        SlotOutcome::AlreadyVisible(id)
    } else {
        SlotOutcome::Reveal(id)
    }
}

/// The topmost visible element of the page (the one `H` hides).
pub fn last_visible_element(page: &Page, state: &PresentationState) -> (r: Option<ElementId>)
    ensures
        exists|order: Seq<usize>|
            #[trigger] stable_order(z_keys(page.elements@), order) && match last_flagged(
                order,
                and_flags(
                    visible_flags(page.elements@, state.visibility()),
                    Seq::new(page.elements@.len(), |i: int| true),
                ),
            ) {
                Some(i) => r matches Some(id) && id@ == page.elements@[i].id@,
                None => r is None,
            },
{
    let mut all: Vec<bool> = Vec::new();
    let mut i: usize = 0;
    while i < page.elements.len()
        invariant
            i <= page.elements@.len(),
            all@ == Seq::new(i as nat, |k: int| true),
        decreases page.elements@.len() - i,
    {
        all.push(true);
        proof {
            assert(all@ =~= Seq::new((i + 1) as nat, |k: int| true));
        }
        i = i + 1;
    }
    hit_test_visible_element(page, state, &all)
}

/// Where paging by `delta` goes.
#[derive(Clone, Copy, Debug, PartialEq, Eq, Structural)]
pub enum PageStep {
    /// The project has no page.
    NoPages,
    /// Already at the first (`at_last` false) or last page.
    Stay { at_last: bool },
    Go(usize),
}

/// Paging from `current` by `delta` among `count` pages, clamped to the
/// first and last page.
pub fn page_step(current: usize, count: usize, delta: i32) -> (r: PageStep)
    requires
        count <= i32::MAX,
        current <= i32::MAX,
        i32::MIN <= current + delta <= i32::MAX,
    ensures
        count == 0 ==> r == PageStep::NoPages,
        count > 0 ==> {
            let target = if current + delta < 0 {
                0
            } else if current + delta > count - 1 {
                count - 1
            } else {
                current + delta
            };
            if target == current {
                r == PageStep::Stay { at_last: delta > 0 }
            } else {
                r == PageStep::Go(target as usize)
            }
        },
{
    if count == 0 {
        return PageStep::NoPages;
    }
    let n = count as i32;
    let cur = current as i32;
    let sum = cur + delta;
    let next = if sum < 0 {
        0
    } else if sum > n - 1 {
        n - 1
    } else {
        sum
    };
    if next == cur {
        PageStep::Stay { at_last: delta > 0 }
    } else {
        PageStep::Go(next as usize)
    }
}

/// How many markers there are among the events.
pub open spec fn marker_count(ev: Seq<TimelineEvent>) -> nat
    decreases ev.len(),
{
    if ev.len() == 0 {
        0
    } else {
        marker_count(ev.drop_last()) + if ev.last() is Marker {
            1nat
        } else {
            0nat
        }
    }
}

/// The label of the next marker: `标记 n`, numbered after those there are.
pub fn next_marker_label(events: &Vec<TimelineEvent>) -> (r: String)
    requires
        events@.len() < u64::MAX,
    ensures
        r@ == "标记 "@ + decimal(marker_count(events@) + 1),
{
    let mut c: u64 = 0;
    let mut i: usize = 0;
    while i < events.len()
        invariant
            events@.len() < u64::MAX,
            i <= events@.len(),
            c == marker_count(events@.take(i as int)),
            marker_count(events@.take(i as int)) <= i,
        decreases events@.len() - i,
    {
        proof {
            assert(events@.take(i + 1).drop_last() =~= events@.take(i as int));
        }
        if let TimelineEvent::Marker { .. } = &events[i] {
            c = c + 1;
        }
        i = i + 1;
    }
    proof {
        assert(events@.take(i as int) =~= events@);
    }
    let mut out = "标记 ".to_owned();
    let digits = decimal_string(c + 1);
    push_str(&mut out, digits.as_str());
    out
}

/// What a recorder hands back when it stops: the file it wrote and how
/// much audio is in it.
#[derive(Clone, Debug)]
pub struct FinishedRecording {
    pub file_name: String,
    pub sample_rate: u32,
    pub channels: u16,
    pub frames: u64,
}

impl FinishedRecording {
    /// The rehearsal's reference to this recording, under the file name the
    /// recorder actually wrote.
    pub fn audio_ref(&self) -> (r: AudioRef)
        ensures
            r.file == self.file_name,
            r.sample_rate == self.sample_rate,
            r.channels == self.channels,
            r.frames == self.frames,
            r.source@ == "mic"@,
    {
        let mut a = AudioRef::mic(self.sample_rate, self.channels, self.frames);
        a.file = self.file_name.clone();
        a
    }
}

/// The sections after recording the anchor times: each anchor sets the
/// time of the first section with its id.
pub open spec fn apply_marks(secs: Seq<ScriptSection>, marks: Seq<(String, Real)>) -> Seq<ScriptSection>
    decreases marks.len(),
{
    if marks.len() == 0 {
        secs
    } else {
        let prev = apply_marks(secs, marks.drop_last());
        let m = marks.last();
        match first_section_index(prev, m.0@) {
            Some(i) => prev.update(i, ScriptSection { reveal_time: Some(m.1), ..prev[i] }),
            None => prev,
        }
    }
}

/// Writing anchors changes only reveal times: the sentences, their ids and
/// texts stay.
proof fn lemma_apply_marks_keeps_ids(secs: Seq<ScriptSection>, marks: Seq<(String, Real)>)
    ensures
        apply_marks(secs, marks).len() == secs.len(),
        forall|j: int| 0 <= j < secs.len() ==> #[trigger] apply_marks(secs, marks)[j].id == secs[j].id,
    decreases marks.len(),
{
    if marks.len() > 0 {
        lemma_apply_marks_keeps_ids(secs, marks.drop_last());
        lemma_first_section_index(apply_marks(secs, marks.drop_last()), marks.last().0@);
    }
}

/// The first sentence with an id depends only on the ids.
proof fn lemma_first_section_index_by_ids(a: Seq<ScriptSection>, b: Seq<ScriptSection>, id: Seq<char>)
    requires
        a.len() == b.len(),
        forall|j: int| 0 <= j < a.len() ==> #[trigger] a[j].id == b[j].id,
    ensures
        first_section_index(a, id) == first_section_index(b, id),
    decreases a.len(),
{
    if a.len() > 0 {
        lemma_first_section_index_by_ids(a.drop_last(), b.drop_last(), id);
        assert(a.last().id == b.last().id);
    }
}

/// The newest anchor wins: after writing the anchors `marks`, the first
/// sentence with the id of mark `k` (the last mark of that id) has that
/// mark's time, whatever time it had before; a sentence whose id no mark
/// names keeps its time.
pub proof fn lemma_marks_write_latest(secs: Seq<ScriptSection>, marks: Seq<(String, Real)>, k: int)
    requires
        0 <= k < marks.len(),
        forall|j: int| k < j < marks.len() ==> (#[trigger] marks[j]).0@ != marks[k].0@,
        first_section_index(secs, marks[k].0@) is Some,
    ensures
        apply_marks(secs, marks)[first_section_index(secs, marks[k].0@).unwrap()].reveal_time == Some(marks[k].1),
    decreases marks.len(),
{
    let id = marks[k].0@;
    let i = first_section_index(secs, id).unwrap();
    lemma_first_section_index(secs, id);
    let d = marks.drop_last();
    let prev = apply_marks(secs, d);
    lemma_apply_marks_keeps_ids(secs, d);
    let m = marks.last();
    lemma_first_section_index_by_ids(prev, secs, m.0@);
    lemma_first_section_index(secs, m.0@);
    if k < marks.len() - 1 {
        assert forall|j: int| k < j < d.len() implies (#[trigger] d[j]).0@ != d[k].0@ by {
            assert(d[j] == marks[j]);
        }
        assert(d[k] == marks[k]);
        lemma_marks_write_latest(secs, d, k);
        assert(m.0@ != id);
    } else {
        lemma_first_section_index_by_ids(prev, secs, id);
    }
}

/// A sentence that no anchor names keeps its time.
pub proof fn lemma_unmarked_sentence_keeps_time(secs: Seq<ScriptSection>, marks: Seq<(String, Real)>, i: int)
    requires
        0 <= i < secs.len(),
        forall|j: int| 0 <= j < marks.len() ==> (#[trigger] marks[j]).0@ != secs[i].id@,
    ensures
        apply_marks(secs, marks)[i] == secs[i],
    decreases marks.len(),
{
    if marks.len() > 0 {
        let d = marks.drop_last();
        assert forall|j: int| 0 <= j < d.len() implies (#[trigger] d[j]).0@ != secs[i].id@ by {
            assert(d[j] == marks[j]);
        }
        lemma_unmarked_sentence_keeps_time(secs, d, i);
        let prev = apply_marks(secs, d);
        lemma_apply_marks_keeps_ids(secs, d);
        let m = marks.last();
        assert(m == marks[marks.len() - 1]);
        lemma_first_section_index(prev, m.0@);
    }
}

/// The length of a recording: the time recorded, at least the audio's
/// length, at least the latest event and stroke point.
pub open spec fn recorded_duration(
    elapsed: Real,
    audio: Option<(AudioRef, Real)>,
    events: Seq<TimelineEvent>,
    strokes: Seq<Stroke>,
) -> Real {
    let d = match audio {
        Some((_, ad)) => elapsed.spec_max(ad),
        None => elapsed,
    };
    d.spec_max(max_event_time(events, Real { bits: 0 }).spec_max(max_stroke_end(strokes, Real { bits: 0 })))
}

/// Turns a finished live recording into a rehearsal of the project: a new
/// id `r<n>`, the name `演练 <k>`, the start page, the length (see
/// [`recorded_duration`]), the audio if any, the events with the script
/// anchors `marks`, the strokes. The anchor times are copied into the
/// script and the project returns to the start page.
pub fn finish_recording(
    project: &mut Project,
    live: LiveRecording,
    elapsed: Real,
    audio: Option<(AudioRef, Real)>,
    marks: &Vec<(String, Real)>,
) -> (r: Rehearsal)
    requires
        old(project).serial + old(project).id_count() < u64::MAX,
    ensures
        r.id@ == "r"@ + decimal(final(project).serial as nat),
        !old(project).uses_id(r.id@),
        old(project).serial < final(project).serial,
        r.name@ == "演练 "@ + decimal(old(project).rehearsals@.len() + 1),
        r.start_page_id@ == (if live.start_page < old(project).pages@.len() {
            old(project).pages@[live.start_page as int].id@
        } else {
            Seq::<char>::empty()
        }),
        r.duration == recorded_duration(elapsed, audio, live.events@, live.strokes@),
        r.audio == (match audio {
            Some((a, _)) => Some(a),
            None => None,
        }),
        stably_sorted_from(without_marks(live.events@) + mark_events(marks@), r.events@),
        r.strokes == live.strokes,
        final(project).script.sections@ == apply_marks(old(project).script.sections@, marks@),
        final(project).current_page == live.start_page,
        forall|m: nat|
            old(project).serial < m < final(project).serial ==> #[trigger] old(project).uses_id("r"@ + decimal(m)),
        final(project).pages == old(project).pages,
        final(project).rehearsals == old(project).rehearsals,
        final(project).assets == old(project).assets,
        final(project).id == old(project).id,
        final(project).name == old(project).name,
        final(project).schema_version == old(project).schema_version,
        final(project).page_size == old(project).page_size,
        final(project).created_at_unix == old(project).created_at_unix,
        final(project).updated_at_unix == old(project).updated_at_unix,
{
    let start_page_id = if live.start_page < project.pages.len() {
        project.pages[live.start_page].id.clone()
    } else {
        String::new()
    };
    let rid = project.next_id("r");
    let ghost serial_after = project.serial;
    let mut rname = "演练 ".to_owned();
    let count = decimal_string(project.rehearsals.len() as u64 + 1);
    push_str(&mut rname, count.as_str());
    let mut rehearsal = Rehearsal::new(rid.as_str(), rname.as_str(), start_page_id.as_str());
    rehearsal.duration = elapsed;
    rehearsal.events = live.events;
    rehearsal.strokes = live.strokes;
    match audio {
        Some((a, audio_duration)) => {
            rehearsal.duration = rehearsal.duration.max(audio_duration);
            rehearsal.audio = Some(a);
        },
        None => {},
    }
    let timeline_end = {
        let input = TimelineInput {
            pages: project.pages.as_slice(),
            strokes: rehearsal.strokes.as_slice(),
            script: &project.script,
            events: rehearsal.events.as_slice(),
            start_page_index: 0,
        };
        input.duration()
    };
    rehearsal.duration = rehearsal.duration.max(timeline_end);
    rehearsal.set_section_marks(marks.as_slice());
    let ghost before = project.script.sections@;
    let mut k: usize = 0;
    while k < marks.len()
        invariant
            k <= marks@.len(),
            project.script.sections@ == apply_marks(before, marks@.take(k as int)),
            project.pages == old(project).pages,
            project.rehearsals == old(project).rehearsals,
            project.assets == old(project).assets,
            project.id == old(project).id,
            project.name == old(project).name,
            project.schema_version == old(project).schema_version,
            project.page_size == old(project).page_size,
            project.created_at_unix == old(project).created_at_unix,
            project.updated_at_unix == old(project).updated_at_unix,
            project.serial == serial_after,
        decreases marks@.len() - k,
    {
        proof {
            assert(marks@.take(k + 1).drop_last() =~= marks@.take(k as int));
            lemma_first_section_index(project.script.sections@, marks@[k as int].0@);
        }
        let (sid, t) = &marks[k];
        match project.script.section_index(sid.as_str()) {
            Some(idx) => {
                project.script.sections[idx].reveal_time = Some(*t);
            },
            None => {},
        }
        k = k + 1;
    }
    proof {
        assert(marks@.take(k as int) =~= marks@);
    }
    project.current_page = live.start_page;
    rehearsal
}

/// How far (in page units) a click may be from a stroke and still hit it:
/// 14 (as the bits of the number).
pub const CLICK_TOLERANCE_BITS: u64 = 0x402C_0000_0000_0000;

/// Where a click on the canvas during review sends the playhead.
#[derive(Clone, Debug)]
pub enum SeekTarget {
    /// A stroke was hit: the time at its nearest point.
    Stroke { index: usize, t: Real },
    /// An element was hit: the time it appeared (none if it never did).
    Element { id: ElementId, t: Option<Real> },
    /// Nothing clickable there.
    Nothing,
}

/// The time a click on an element goes to (see `reveal_time`).
pub open spec fn element_seek_time(events: Seq<TimelineEvent>, id: Seq<char>, t_now: Real) -> Option<Real> {
    match last_reveal_by(events, id, t_now) {
        Some(t) => Some(t),
        None => first_reveal(events, id),
    }
}

/// A click during review: strokes lie on top of elements and win; an
/// element is looked up among the visible ones. `contains_point`,
/// `distances` and `times` are what the caller measured for this click
/// (element containment, distance to each stroke, time at each stroke's
/// nearest point).
pub fn click_seek_target(
    page: &Page,
    state: &PresentationState,
    contains_point: &Vec<bool>,
    strokes: &Vec<Stroke>,
    distances: &Vec<Real>,
    times: &Vec<Real>,
    events: &Vec<TimelineEvent>,
    t_now: Real,
) -> (r: SeekTarget)
    requires
        contains_point@.len() == page.elements@.len(),
        distances@.len() == strokes@.len(),
        times@.len() == strokes@.len(),
    ensures
        match best_stroke_hit(strokes@, page.id@, distances@, times@, Real { bits: CLICK_TOLERANCE_BITS }) {
            Some((i, _, t)) => r matches SeekTarget::Stroke { index, t: st } && index == i as usize && st == t,
            None => exists|order: Seq<usize>|
                #[trigger] stable_order(z_keys(page.elements@), order) && match last_flagged(
                    order,
                    and_flags(visible_flags(page.elements@, state.visibility()), contains_point@),
                ) {
                    Some(k) => r matches SeekTarget::Element { id, t } && id@ == page.elements@[k].id@ && t
                        == element_seek_time(events@, id@, t_now),
                    None => r is Nothing,
                },
        },
{
    let hit = hit_test_stroke(strokes, page.id.as_str(), distances, times, Real::from_bits(CLICK_TOLERANCE_BITS));
    match hit {
        Some((index, t)) => SeekTarget::Stroke { index, t },
        None => match hit_test_visible_element(page, state, contains_point) {
            Some(id) => {
                let t = reveal_time(events, id.as_str(), t_now);
                SeekTarget::Element { id, t }
            },
            None => SeekTarget::Nothing,
        },
    }
}

/// How an element is drawn on the canvas.
#[derive(Clone, Debug)]
pub struct ElementRow {
    /// The element's index in the page.
    pub index: usize,
    /// Not yet revealed while rehearsing: only a placeholder frame.
    pub hint_only: bool,
    /// The number key that reveals it (1 to 9), shown on placeholders.
    pub trigger_key: Option<usize>,
    /// While editing, elements hidden by default get corner marks.
    pub corner_marks: bool,
}

/// The rows drawn for a page, in drawing order: visible elements, and
/// while rehearsing a placeholder for each element not yet revealed.
pub open spec fn rows_for(
    els: Seq<crate::model::element::Element>,
    order: Seq<usize>,
    vis: Map<Seq<char>, bool>,
    mode: Mode,
) -> Seq<(usize, bool, Option<usize>, bool)>
    decreases order.len(),
{
    if order.len() == 0 {
        Seq::empty()
    } else {
        let prev = rows_for(els, order.drop_last(), vis, mode);
        let slot = order.len() - 1;
        let idx = order.last();
        let e = els[idx as int];
        let visible = vis.contains_key(e.id@) && vis[e.id@];
        let hint_only = !visible && mode == Mode::Rehearse;
        if !visible && !hint_only {
            prev
        } else {
            prev.push(
                (
                    idx,
                    hint_only,
                    if hint_only && slot < 9 {
                        Some((slot + 1) as usize)
                    } else {
                        None
                    },
                    mode == Mode::Create && e.hidden_by_default,
                ),
            )
        }
    }
}

/// The rows drawn for the page in `mode` (see [`rows_for`]).
pub fn element_rows(page: &Page, state: &PresentationState, mode: Mode) -> (r: Vec<ElementRow>)
    ensures
        exists|order: Seq<usize>|
            #[trigger] stable_order(z_keys(page.elements@), order) && r@.map_values(
                |x: ElementRow| (x.index, x.hint_only, x.trigger_key, x.corner_marks),
            ) == rows_for(page.elements@, order, state.visibility(), mode),
{
    let order = page.draw_order();
    let mut rows: Vec<ElementRow> = Vec::new();
    let mut slot: usize = 0;
    while slot < order.len()
        invariant
            slot <= order@.len(),
            order@.len() == page.elements@.len(),
            forall|i: int| 0 <= i < order@.len() ==> #[trigger] order@[i] < page.elements@.len(),
            rows@.map_values(|x: ElementRow| (x.index, x.hint_only, x.trigger_key, x.corner_marks)) == rows_for(
                page.elements@,
                order@.take(slot as int),
                state.visibility(),
                mode,
            ),
        decreases order@.len() - slot,
    {
        proof {
            assert(order@.take(slot + 1).drop_last() =~= order@.take(slot as int));
            assert(order@.take(slot + 1).last() == order@[slot as int]);
        }
        let idx = order[slot];
        let el = &page.elements[idx];
        let visible = state.is_visible(el.id.as_str());
        let hint_only = !visible && mode == Mode::Rehearse;
        if visible || hint_only {
            let trigger_key = if hint_only && slot < 9 {
                Some(slot + 1)
            } else {
                None
            };
            let corner_marks = mode == Mode::Create && el.hidden_by_default;
            let ghost before_rows = rows@;
            rows.push(ElementRow { index: idx, hint_only, trigger_key, corner_marks });
            proof {
                assert(rows@.map_values(|x: ElementRow| (x.index, x.hint_only, x.trigger_key, x.corner_marks))
                    =~= before_rows.map_values(|x: ElementRow| (x.index, x.hint_only, x.trigger_key, x.corner_marks)).push(
                    (idx, hint_only, trigger_key, corner_marks),
                ));
            }
        }
        slot = slot + 1;
    }
    proof {
        assert(order@.take(slot as int) =~= order@);
    }
    rows
}

/// The presentation of `project` at time `t` of `rehearsal` (with no
/// rehearsal: no events and no strokes), as shown during review.
pub fn compute_state(project: &Project, rehearsal: Option<&Rehearsal>, t: Real) -> (r: PresentationState)
    ensures
        is_state_at(
            project.pages@,
            match rehearsal {
                Some(x) => x.strokes@,
                None => Seq::<Stroke>::empty(),
            },
            project.script.sections@,
            match rehearsal {
                Some(x) => x.events@,
                None => Seq::<TimelineEvent>::empty(),
            },
            start_page_for(*project, match rehearsal {
                Some(x) => Some(*x),
                None => None,
            }),
            t,
            r,
        ),
{
    TimelineInput::new(project, rehearsal).state_at(t)
}

/// The state shown while editing: the current page with everything that
/// happens in the project's timeline applied (no rehearsal events), and
/// then every element made visible for layout.
pub fn editing_state(project: &Project) -> (r: PresentationState)
    ensures
        exists|s: PresentationState|
            #![trigger is_state_at(
                project.pages@,
                Seq::<Stroke>::empty(),
                project.script.sections@,
                Seq::<TimelineEvent>::empty(),
                project.current_page as int,
                Real { bits: crate::scalar::INFINITY_BITS },
                s,
            )]
            is_state_at(
                project.pages@,
                Seq::<Stroke>::empty(),
                project.script.sections@,
                Seq::<TimelineEvent>::empty(),
                project.current_page as int,
                Real { bits: crate::scalar::INFINITY_BITS },
                s,
            ) && r.page_index == s.page_index && r.page_id == s.page_id && r.section_index == s.section_index
                && r.visibility().dom() == s.visibility().dom(),
        forall|k: Seq<char>| #[trigger] r.visibility().contains_key(k) ==> r.visibility()[k],
{
    let input = TimelineInput {
        pages: project.pages.as_slice(),
        strokes: &[],
        script: &project.script,
        events: &[],
        start_page_index: project.current_page,
    };
    proof {
        assert(input.strokes@ =~= Seq::<Stroke>::empty());
        assert(input.events@ =~= Seq::<TimelineEvent>::empty());
    }
    let mut st = input.final_state();
    let ghost before = st;
    st.show_all();
    proof {
        assert(is_state_at(
            project.pages@,
            Seq::<Stroke>::empty(),
            project.script.sections@,
            Seq::<TimelineEvent>::empty(),
            project.current_page as int,
            Real { bits: crate::scalar::INFINITY_BITS },
            before,
        ));
    }
    st
}

/// The script level with the given tab index (1 prompt, 2 keywords, any
/// other the full text).
pub fn level_from_index(i: i32) -> (r: ScriptLevel)
    ensures
        r == (if i == 1 {
            ScriptLevel::Prompt
        } else if i == 2 {
            ScriptLevel::Minimal
        } else {
            ScriptLevel::Full
        }),
{
    match i {
        1 => ScriptLevel::Prompt,
        2 => ScriptLevel::Minimal,
        _ => ScriptLevel::Full,
    }
}

/// When sentence `s` was spoken: its anchor in the rehearsal shown, else
/// the working copy kept in the script.
pub open spec fn section_time(s: ScriptSection, rehearsal: Option<Rehearsal>) -> Option<Real> {
    match rehearsal {
        Some(x) => match first_mark(x.events@, s.id@) {
            Some(t) => Some(t),
            None => s.reveal_time,
        },
        None => s.reveal_time,
    }
}

/// `e` anchors sentence `id`.
pub open spec fn marks_section(e: TimelineEvent, id: Seq<char>) -> bool {
    e matches TimelineEvent::ScriptMark { section_id, .. } && section_id@ == id
}

proof fn lemma_first_mark_at(ev: Seq<TimelineEvent>, id: Seq<char>, k: int)
    requires
        0 <= k < ev.len(),
        marks_section(ev[k], id),
        forall|j: int| 0 <= j < k ==> !marks_section(#[trigger] ev[j], id),
    ensures
        first_mark(ev, id) == Some(ev[k].spec_time()),
    decreases ev.len(),
{
    let d = ev.drop_last();
    if k < ev.len() - 1 {
        assert forall|j: int| 0 <= j < k implies !marks_section(#[trigger] d[j], id) by {
            assert(d[j] == ev[j]);
        }
        assert(d[k] == ev[k]);
        lemma_first_mark_at(d, id, k);
    } else {
        assert forall|j: int| 0 <= j < d.len() implies !marks_section(#[trigger] d[j], id) by {
            assert(d[j] == ev[j]);
        }
        lemma_first_mark_absent(d, id);
    }
}

proof fn lemma_first_mark_absent(ev: Seq<TimelineEvent>, id: Seq<char>)
    requires
        forall|j: int| 0 <= j < ev.len() ==> !marks_section(#[trigger] ev[j], id),
    ensures
        first_mark(ev, id) is None,
    decreases ev.len(),
{
    if ev.len() > 0 {
        let d = ev.drop_last();
        assert forall|j: int| 0 <= j < d.len() implies !marks_section(#[trigger] d[j], id) by {
            assert(d[j] == ev[j]);
        }
        lemma_first_mark_absent(d, id);
        assert(!marks_section(ev[ev.len() - 1], id));
    }
}

/// The time of a sentence while reviewing a rehearsal is that rehearsal's
/// own anchor of it (its first one), whatever time the script's working
/// copy holds; the working copy's time is used only when the rehearsal
/// does not anchor the sentence, or when no rehearsal is shown.
pub proof fn lemma_rehearsal_anchor_wins(s: ScriptSection, r: Rehearsal, k: int)
    requires
        0 <= k < r.events@.len(),
        marks_section(r.events@[k], s.id@),
        forall|j: int| 0 <= j < k ==> !marks_section(#[trigger] r.events@[j], s.id@),
    ensures
        section_time(s, Some(r)) == Some(r.events@[k].spec_time()),
{
    lemma_first_mark_at(r.events@, s.id@, k);
}

/// Without an anchor of the sentence in the rehearsal shown, the working
/// copy's time stands.
pub proof fn lemma_working_copy_time(s: ScriptSection, r: Option<Rehearsal>)
    requires
        r matches Some(x) ==> forall|j: int| 0 <= j < x.events@.len() ==> !marks_section(#[trigger] x.events@[j], s.id@),
    ensures
        section_time(s, r) == s.reveal_time,
{
    if let Some(x) = r {
        lemma_first_mark_absent(x.events@, s.id@);
    }
}

/// The time of every sentence (see [`section_time`]).
pub fn section_times(sections: &Vec<ScriptSection>, rehearsal: Option<&Rehearsal>) -> (r: Vec<Option<Real>>)
    ensures
        r@.len() == sections@.len(),
        forall|i: int|
            0 <= i < sections@.len() ==> #[trigger] r@[i] == section_time(
                sections@[i],
                match rehearsal {
                    Some(x) => Some(*x),
                    None => None,
                },
            ),
{
    let mut out: Vec<Option<Real>> = Vec::new();
    let mut i: usize = 0;
    while i < sections.len()
        invariant
            i <= sections@.len(),
            out@.len() == i,
            forall|k: int|
                0 <= k < i ==> #[trigger] out@[k] == section_time(
                    sections@[k],
                    match rehearsal {
                        Some(x) => Some(*x),
                        None => None,
                    },
                ),
        decreases sections@.len() - i,
    {
        let s = &sections[i];
        let t = match rehearsal {
            Some(x) => match x.section_reveal_time(s.id.as_str()) {
                Some(t) => Some(t),
                None => s.reveal_time,
            },
            None => s.reveal_time,
        };
        out.push(t);
        i = i + 1;
    }
    out
}

/// What clicking a script sentence does.
#[derive(Clone, Debug)]
pub enum ScriptAction {
    /// No such sentence.
    Nothing,
    /// While recording: anchor the sentence now.
    Mark(String),
    /// While rehearsing or presenting: show the sentence's page.
    GoToPage { section: String, page_index: usize },
    /// The sentence has no page (or its page does not exist).
    NoPage(String),
    /// While reviewing: jump to the time the sentence was spoken.
    Seek { section: String, t: Real },
    /// The sentence was never anchored; show its page if it has one.
    NoTime { section: String, page_index: Option<usize> },
}

/// The page a sentence belongs to, if it names one that exists.
pub open spec fn section_page(s: ScriptSection, pages: Seq<Page>) -> Option<int> {
    match s.page_id {
        Some(p) => first_page_index(pages, p@),
        None => None,
    }
}

/// Clicking sentence `index`: anchor it while recording; show its page
/// while rehearsing or presenting; otherwise jump to its time (`times`
/// holds each sentence's time), or show its page when it has none.
pub fn script_row_action(
    mode: Mode,
    recording: bool,
    index: usize,
    sections: &Vec<ScriptSection>,
    pages: &Vec<Page>,
    times: &Vec<Option<Real>>,
) -> (r: ScriptAction)
    requires
        times@.len() == sections@.len(),
    ensures
        index >= sections@.len() ==> r is Nothing,
        index < sections@.len() ==> {
            let s = sections@[index as int];
            if mode == Mode::Rehearse && recording {
                r matches ScriptAction::Mark(id) && id@ == s.id@
            } else if mode == Mode::Rehearse || mode == Mode::Present {
                match section_page(s, pages@) {
                    Some(i) => r matches ScriptAction::GoToPage { section, page_index } && section@ == s.id@
                        && page_index == i,
                    None => r matches ScriptAction::NoPage(id) && id@ == s.id@,
                }
            } else {
                match times@[index as int] {
                    Some(t) => r matches ScriptAction::Seek { section, t: st } && section@ == s.id@ && st == t,
                    None => r matches ScriptAction::NoTime { section, page_index } && section@ == s.id@
                        && page_index == match section_page(s, pages@) {
                        Some(i) => Some(i as usize),
                        None => None,
                    },
                }
            }
        },
{
    if index >= sections.len() {
        return ScriptAction::Nothing;
    }
    let s = &sections[index];
    let id = s.id.clone();
    if mode == Mode::Rehearse && recording {
        return ScriptAction::Mark(id);
    }
    let page = match &s.page_id {
        Some(p) => page_position(pages.as_slice(), p.as_str()),
        None => None,
    };
    if mode == Mode::Rehearse || mode == Mode::Present {
        return match page {
            Some(i) => ScriptAction::GoToPage { section: id, page_index: i },
            None => ScriptAction::NoPage(id),
        };
    }
    match times[index] {
        Some(t) => ScriptAction::Seek { section: id, t },
        None => ScriptAction::NoTime { section: id, page_index: page },
    }
}

} // verus!
