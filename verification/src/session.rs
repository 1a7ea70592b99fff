//! The working state of the desktop shell and its steps: switching between
//! the four modes, starting and stopping a recording, changing page,
//! editing and deleting elements. Each step changes the state and lists
//! the work the program then does (the player, the recorder, the status
//! line), in order.
use vstd::prelude::*;

use crate::cli::Mode;
use crate::model::element::{Element, ElementKind};
use crate::model::page::{first_element_index, Page};
use crate::model::project::Project;
use crate::scalar::Real;
use crate::shell::{is_fresh_live, LiveRecording};
use crate::text::{chars_of, trim_chars, trim_seq};
use crate::model::page::z_keys;
use crate::sort::stable_order;
use crate::timeline::{
    and_flags, hit_test_visible_element, last_flagged, sort_events, stably_sorted_from, visible_flags, PresentationState,
    TimelineEvent,
};

verus! {

/// What is being dragged on the canvas.
#[derive(Clone, Debug)]
pub enum Drag {
    /// Nothing is dragged.
    Idle,
    /// Moving an element; the grip's offset from the element's corner.
    Move { id: String, dx: Real, dy: Real },
    /// Resizing an element from its lower right corner.
    Resize { id: String },
    /// Writing: the stroke's index among the live strokes.
    Stroke { index: usize },
}

/// Where the pointer went down, and how far it has travelled since.
#[derive(Clone, Copy, Debug)]
pub struct Press {
    pub x: Real,
    pub y: Real,
    pub travel: Real,
}

/// The shell's working state.
#[derive(Clone, Debug)]
pub struct ShellState {
    pub mode: Mode,
    /// A recording is running.
    pub recording: bool,
    pub drag: Drag,
    pub press: Option<Press>,
    /// The selected element.
    pub selected: Option<String>,
    /// The text element being edited.
    pub editing: Option<String>,
    /// What rehearsing or presenting has produced so far.
    pub live: LiveRecording,
    /// The script anchors set during the running recording.
    pub marked: Vec<(String, Real)>,
    /// A rehearsal is loaded into the player.
    pub rehearsal_loaded: bool,
}

/// Work the program does after a step, in the order listed.
#[derive(Clone, Debug)]
pub enum ShellAction {
    /// Stop the recorder, turn the live recording into a rehearsal (see
    /// `shell::finish_recording`), save it and load it into the player.
    StopRecording,
    /// Start the microphone recorder.
    StartRecorder,
    /// Pause the player.
    PausePlayer,
    /// Forget the waveform of the loaded rehearsal.
    ResetWaveform,
    /// Load the most recent rehearsal into the player, then report whether
    /// there was one (see [`review_after_load`]).
    LoadLatestRehearsal,
    /// Move the player to the start.
    SeekToStart,
    /// Show this text in the status line.
    Status(String),
}

/// Status text in the create mode.
pub const CREATE_STATUS: &'static str = "制作模式：添加文字 / 图片、拖动排版、双击文字改内容";

/// Status text in the rehearse mode.
pub const REHEARSE_STATUS: &'static str = "演练模式：按 Record（Ctrl+R）开始；1-9 触发元素 · 空格下一个 · 鼠标拖动 = 手写";

/// Status text in the review mode.
pub const REVIEW_STATUS: &'static str = "回放模式：拖时间轴同步画面/笔迹/讲稿；点元素或笔迹跳回当时的话";

/// Status text in the review mode when there is no rehearsal yet.
pub const NO_REHEARSAL_STATUS: &'static str = "还没有演练记录：先去「演练」录一次";

/// Status text in the present mode.
pub const PRESENT_STATUS: &'static str = "演讲模式：←/→ 翻页，1-9 / 空格 触发元素出现（不录音）";

/// The text put into a text element whose new text is blank.
pub const EMPTY_TEXT: &'static str = "（空文字）";

/// `a` shows `text` in the status line.
pub open spec fn is_status(a: ShellAction, text: Seq<char>) -> bool {
    a matches ShellAction::Status(s) && s@ == text
}

/// The work of entering `mode`, where `loaded` tells whether a rehearsal
/// is in the player: every mode but review pauses the player; rehearse also
/// forgets the waveform; review seeks to the start, or first loads the
/// latest rehearsal when none is loaded.
pub open spec fn mode_actions(acts: Seq<ShellAction>, mode: Mode, loaded: bool) -> bool {
    match mode {
        Mode::Create => acts.len() == 2 && acts[0] is PausePlayer && is_status(acts[1], CREATE_STATUS@),
        Mode::Rehearse => acts.len() == 3 && acts[0] is PausePlayer && acts[1] is ResetWaveform && is_status(
            acts[2],
            REHEARSE_STATUS@,
        ),
        Mode::Review => if loaded {
            acts.len() == 2 && acts[0] is SeekToStart && is_status(acts[1], REVIEW_STATUS@)
        } else {
            acts.len() == 1 && acts[0] is LoadLatestRehearsal
        },
        Mode::Present => acts.len() == 2 && acts[0] is PausePlayer && is_status(acts[1], PRESENT_STATUS@),
    }
}

/// The id of the page at `index`, empty when there is none.
pub open spec fn page_id_at(pages: Seq<Page>, index: int) -> Seq<char> {
    if 0 <= index < pages.len() {
        pages[index].id@
    } else {
        Seq::empty()
    }
}

/// The id of the first script section, if any.
pub open spec fn first_section_id(project: Project) -> Option<Seq<char>> {
    if project.script.sections@.len() > 0 {
        Some(project.script.sections@[0].id@)
    } else {
        None
    }
}

/// The live recording once its events and strokes were handed over to the
/// finished rehearsal.
pub open spec fn emptied(before: LiveRecording, after: LiveRecording) -> bool {
    &&& after.events@.len() == 0
    &&& after.strokes@.len() == 0
    &&& after.start_page == before.start_page
    &&& after.next_stroke_serial == before.next_stroke_serial
}

/// Nothing is dragged, pressed, selected or edited.
pub open spec fn pointer_cleared(s: ShellState) -> bool {
    &&& s.drag is Idle
    &&& s.press is None
    &&& s.selected is None
    &&& s.editing is None
}

/// The state after switching from `s` to `mode` on `project` (see
/// [`change_mode`]).
pub open spec fn switched(s: ShellState, project: Project, mode: Mode, r: ShellState) -> bool {
    let stop = s.recording && mode != Mode::Rehearse;
    let page = if stop {
        s.live.start_page as int
    } else {
        project.current_page as int
    };
    let loaded = s.rehearsal_loaded || stop;
    &&& r.mode == mode
    &&& r.recording == (s.recording && mode == Mode::Rehearse)
    &&& pointer_cleared(r)
    &&& match mode {
        Mode::Rehearse => {
            &&& is_fresh_live(r.live, page as usize, page_id_at(project.pages@, page), first_section_id(project))
            &&& !r.rehearsal_loaded
        },
        Mode::Present => {
            &&& is_fresh_live(r.live, page as usize, page_id_at(project.pages@, page), None)
            &&& r.rehearsal_loaded == loaded
        },
        _ => {
            &&& if stop {
                emptied(s.live, r.live)
            } else {
                r.live == s.live
            }
            &&& r.rehearsal_loaded == loaded
        },
    }
    &&& if stop {
        r.marked@.len() == 0
    } else {
        r.marked == s.marked
    }
}

/// A live recording on the page at `page` of `project`, optionally with the
/// first script section started at 0.
fn fresh_live_at(project: &Project, page: usize, with_script: bool) -> (r: LiveRecording)
    ensures
        is_fresh_live(
            r,
            page,
            page_id_at(project.pages@, page as int),
            if with_script {
                first_section_id(*project)
            } else {
                None
            },
        ),
{
    let page_id = if page < project.pages.len() {
        project.pages[page].id.clone()
    } else {
        String::new()
    };
    if with_script && project.script.sections.len() > 0 {
        LiveRecording::fresh(page, page_id.as_str(), Some(project.script.sections[0].id.as_str()))
    } else {
        LiveRecording::fresh(page, page_id.as_str(), None)
    }
}

impl ShellState {
    /// The state at start: the create mode, nothing recorded or loaded.
    pub fn new() -> (r: Self)
        ensures
            r.mode == Mode::Create,
            !r.recording,
            pointer_cleared(r),
            is_fresh_live(r.live, 0, Seq::empty(), None),
            r.marked@.len() == 0,
            !r.rehearsal_loaded,
    {
        proof {
            reveal_strlit("");
            assert(""@ =~= Seq::<char>::empty());
        }
        ShellState {
            mode: Mode::Create,
            recording: false,
            drag: Drag::Idle,
            press: None,
            selected: None,
            editing: None,
            live: LiveRecording::fresh(0, "", None),
            marked: Vec::new(),
            rehearsal_loaded: false,
        }
    }
}

/// Switches to `mode`. Leaving the rehearse mode while recording first
/// stops the recording, which returns the project to the recording's start
/// page and loads the new rehearsal. Whatever was dragged, pressed,
/// selected or edited is let go. Rehearse and present start a fresh live
/// recording on the current page (rehearse with the first script section
/// started, and without a loaded rehearsal); review seeks to the start of
/// the loaded rehearsal, or loads the latest one first.
pub fn change_mode(state: ShellState, project: &Project, mode: Mode) -> (r: (ShellState, Vec<ShellAction>))
    ensures
        switched(state, *project, mode, r.0),
        ({
            let stop = state.recording && mode != Mode::Rehearse;
            let rest = if stop {
                r.1@.skip(1)
            } else {
                r.1@
            };
            &&& stop ==> r.1@.len() >= 1 && r.1@[0] is StopRecording
            &&& mode_actions(rest, mode, state.rehearsal_loaded || stop)
        }),
{
    let stop = state.recording && mode != Mode::Rehearse;
    let mut actions: Vec<ShellAction> = Vec::new();
    if stop {
        actions.push(ShellAction::StopRecording);
    }
    let ghost first = actions@;
    let page = if stop {
        state.live.start_page
    } else {
        project.current_page
    };
    let loaded = state.rehearsal_loaded || stop;
    let ghost old_live = state.live;
    let ghost old_marked = state.marked;
    let kept_live = if stop {
        LiveRecording {
            events: Vec::new(),
            strokes: Vec::new(),
            start_page: state.live.start_page,
            next_stroke_serial: state.live.next_stroke_serial,
        }
    } else {
        state.live
    };
    let marked = if stop {
        Vec::new()
    } else {
        state.marked
    };
    let (live, rehearsal_loaded) = match mode {
        Mode::Create => {
            actions.push(ShellAction::PausePlayer);
            actions.push(ShellAction::Status(CREATE_STATUS.to_owned()));
            (kept_live, loaded)
        },
        Mode::Rehearse => {
            actions.push(ShellAction::PausePlayer);
            actions.push(ShellAction::ResetWaveform);
            actions.push(ShellAction::Status(REHEARSE_STATUS.to_owned()));
            (fresh_live_at(project, page, true), false)
        },
        Mode::Review => {
            if loaded {
                actions.push(ShellAction::SeekToStart);
                actions.push(ShellAction::Status(REVIEW_STATUS.to_owned()));
            } else {
                actions.push(ShellAction::LoadLatestRehearsal);
            }
            (kept_live, loaded)
        },
        Mode::Present => {
            actions.push(ShellAction::PausePlayer);
            actions.push(ShellAction::Status(PRESENT_STATUS.to_owned()));
            (fresh_live_at(project, page, false), loaded)
        },
    };
    proof {
        if stop {
            assert(actions@.skip(1) =~= actions@.subrange(1, actions@.len() as int));
        }
    }
    let s = ShellState {
        mode,
        recording: state.recording && mode == Mode::Rehearse,
        drag: Drag::Idle,
        press: None,
        selected: None,
        editing: None,
        live,
        marked,
        rehearsal_loaded,
    };
    (s, actions)
}

/// After [`ShellAction::LoadLatestRehearsal`]: with a rehearsal found the
/// player goes to its start, else the status line says there is none.
pub fn review_after_load(state: ShellState, found: bool) -> (r: (ShellState, Vec<ShellAction>))
    ensures
        r.0 == (ShellState { rehearsal_loaded: found, ..state }),
        found ==> r.1@.len() == 2 && r.1@[0] is SeekToStart && is_status(r.1@[1], REVIEW_STATUS@),
        !found ==> r.1@.len() == 1 && is_status(r.1@[0], NO_REHEARSAL_STATUS@),
{
    let mut actions: Vec<ShellAction> = Vec::new();
    if found {
        actions.push(ShellAction::SeekToStart);
        actions.push(ShellAction::Status(REVIEW_STATUS.to_owned()));
    } else {
        actions.push(ShellAction::Status(NO_REHEARSAL_STATUS.to_owned()));
    }
    let mut s = state;
    s.rehearsal_loaded = found;
    (s, actions)
}

/// The state after a recording is stopped: review mode, the new rehearsal
/// loaded, the live recording and its anchors handed over.
pub open spec fn stopped(s: ShellState, r: ShellState) -> bool {
    &&& r.mode == Mode::Review
    &&& !r.recording
    &&& r.rehearsal_loaded
    &&& emptied(s.live, r.live)
    &&& r.marked@.len() == 0
    &&& r.drag == s.drag
    &&& r.press == s.press
    &&& r.selected == s.selected
    &&& r.editing == s.editing
}

/// The anchors at the start of a recording: the first script section, if
/// any, at time 0.
pub open spec fn start_marks(marked: Seq<(String, Real)>, first: Option<Seq<char>>) -> bool {
    match first {
        Some(id) => marked.len() == 1 && marked[0].0@ == id && marked[0].1.bits == 0,
        None => marked.len() == 0,
    }
}

/// The Record button (Ctrl+R): stops a running recording (and goes to
/// review, see [`ShellAction::StopRecording`]), else starts one, switching
/// to the rehearse mode first where needed. A new recording starts on the
/// current page with the first script section anchored at 0; the recorder
/// is started last.
pub fn toggle_recording(state: ShellState, project: &Project) -> (r: (ShellState, Vec<ShellAction>))
    ensures
        state.recording ==> stopped(state, r.0) && r.1@.len() == 1 && r.1@[0] is StopRecording,
        !state.recording ==> {
            &&& r.0.mode == Mode::Rehearse
            &&& r.0.recording
            &&& !r.0.rehearsal_loaded
            &&& is_fresh_live(
                r.0.live,
                project.current_page,
                page_id_at(project.pages@, project.current_page as int),
                first_section_id(*project),
            )
            &&& start_marks(r.0.marked@, first_section_id(*project))
            &&& r.1@.len() >= 1 && r.1@.last() is StartRecorder
            &&& if state.mode != Mode::Rehearse {
                pointer_cleared(r.0) && mode_actions(r.1@.drop_last(), Mode::Rehearse, state.rehearsal_loaded)
            } else {
                &&& r.1@.len() == 1
                &&& r.0.drag == state.drag && r.0.press == state.press
                &&& r.0.selected == state.selected && r.0.editing == state.editing
            }
        },
{
    if state.recording {
        let mut s = state;
        let start_page = s.live.start_page;
        let serial = s.live.next_stroke_serial;
        s.live = LiveRecording { events: Vec::new(), strokes: Vec::new(), start_page, next_stroke_serial: serial };
        s.marked = Vec::new();
        s.recording = false;
        s.mode = Mode::Review;
        s.rehearsal_loaded = true;
        let mut actions: Vec<ShellAction> = Vec::new();
        actions.push(ShellAction::StopRecording);
        return (s, actions);
    }
    let ghost was_loaded = state.rehearsal_loaded;
    let (mut s, mut actions) = if state.mode != Mode::Rehearse {
        change_mode(state, project, Mode::Rehearse)
    } else {
        (state, Vec::new())
    };
    let ghost before = actions@;
    s.live = fresh_live_at(project, project.current_page, true);
    let mut marked: Vec<(String, Real)> = Vec::new();
    if project.script.sections.len() > 0 {
        marked.push((project.script.sections[0].id.clone(), Real::zero()));
    }
    s.marked = marked;
    s.rehearsal_loaded = false;
    s.recording = true;
    actions.push(ShellAction::StartRecorder);
    proof {
        assert(actions@.drop_last() =~= before);
    }
    (s, actions)
}

/// The state with the selection and the edit let go.
pub open spec fn unselected(s: ShellState, r: ShellState) -> bool {
    r == (ShellState { selected: None, editing: None, ..s })
}

/// Shows page `index`: out of range nothing happens (the result is
/// false); else it becomes the current page, the selection and the edit
/// are let go, and while rehearsing or presenting a page change at `t` is
/// added to the live events, which stay sorted.
pub fn select_page(state: &mut ShellState, project: &mut Project, index: i32, t: Real) -> (r: bool)
    ensures
        r == (0 <= index < old(project).pages@.len()),
        !r ==> *final(state) == *old(state) && *final(project) == *old(project),
        r ==> *final(project) == (Project { current_page: index as usize, ..*old(project) }),
        r ==> final(state).selected is None && final(state).editing is None,
        r ==> final(state).mode == old(state).mode && final(state).recording == old(state).recording,
        r ==> final(state).drag == old(state).drag && final(state).press == old(state).press,
        r ==> final(state).marked == old(state).marked && final(state).rehearsal_loaded == old(state).rehearsal_loaded,
        r ==> final(state).live.strokes == old(state).live.strokes && final(state).live.start_page
            == old(state).live.start_page && final(state).live.next_stroke_serial == old(state).live.next_stroke_serial,
        r && (old(state).mode == Mode::Rehearse || old(state).mode == Mode::Present) ==> exists|ev: TimelineEvent|
            #![trigger old(state).live.events@.push(ev)]
            (ev matches TimelineEvent::PageChange { page_id, t: et } && page_id@
                == old(project).pages@[index as int].id@ && et == t) && stably_sorted_from(
                old(state).live.events@.push(ev),
                final(state).live.events@,
            ),
        r && !(old(state).mode == Mode::Rehearse || old(state).mode == Mode::Present) ==> final(state).live.events
            == old(state).live.events,
{
    if index < 0 || index as usize >= project.pages.len() {
        return false;
    }
    let i = index as usize;
    project.current_page = i;
    state.selected = None;
    state.editing = None;
    if state.mode == Mode::Rehearse || state.mode == Mode::Present {
        let ghost old_events = state.live.events@;
        let ev = TimelineEvent::PageChange { page_id: project.pages[i].id.clone(), t };
        state.live.events.push(ev);
        sort_events(&mut state.live.events);
        proof {
            assert(old_events.push(ev) == old_events.push(ev));
        }
    }
    true
}

/// Starts editing the text of element `id` (anywhere in the project): it
/// becomes selected and edited. Without such an element nothing happens
/// (the result is false).
pub fn begin_edit(state: &mut ShellState, project: &Project, id: &str) -> (r: bool)
    ensures
        r == (crate::model::project::page_holding(project.pages@, id@) is Some),
        r ==> *final(state) == (ShellState { selected: final(state).selected, editing: final(state).editing, ..*old(state) })
            && (final(state).selected matches Some(s) && s@ == id@) && (final(state).editing matches Some(e) && e@
            == id@),
        !r ==> *final(state) == *old(state),
{
    match project.find_element(id) {
        Some(_) => {
            state.selected = Some(id.to_owned());
            state.editing = Some(id.to_owned());
            true
        },
        None => false,
    }
}

/// Stops editing (the edit is given up or was committed).
pub fn end_edit(state: &mut ShellState)
    ensures
        *final(state) == (ShellState { editing: None, ..*old(state) }),
{
    state.editing = None;
}

/// The text a committed edit puts in: the text without surrounding white
/// space, or a placeholder when nothing is left.
pub open spec fn committed_text(text: Seq<char>) -> Seq<char> {
    if trim_seq(text).len() == 0 {
        EMPTY_TEXT@
    } else {
        trim_seq(text)
    }
}

/// `new` is `old` with its text set to `text` (only a text element has
/// one; any other element stays as it was).
pub open spec fn text_set(old: Element, new: Element, text: Seq<char>) -> bool {
    &&& new.id == old.id && new.x == old.x && new.y == old.y && new.w == old.w && new.h == old.h
    &&& new.z == old.z && new.hidden_by_default == old.hidden_by_default && new.style == old.style
    &&& match old.kind {
        ElementKind::Text { .. } => new.kind matches ElementKind::Text { text: t } && t@ == text,
        _ => new.kind == old.kind,
    }
}

/// `new` is page `old` with the text of its first element `id` set to
/// `text`; without such an element it is unchanged.
pub open spec fn page_text_set(old: Page, new: Page, id: Seq<char>, text: Seq<char>) -> bool {
    &&& new.id == old.id && new.name == old.name && new.note == old.note
    &&& match first_element_index(old.elements@, id) {
        Some(i) => {
            &&& new.elements@.len() == old.elements@.len()
            &&& forall|j: int| 0 <= j < old.elements@.len() && j != i ==> #[trigger] new.elements@[j] == old.elements@[j]
            &&& text_set(old.elements@[i], new.elements@[i], text)
        },
        None => new.elements == old.elements,
    }
}

/// Commits the edit of element `id` on the current page: its text becomes
/// `text` without surrounding white space (a placeholder when blank), the
/// project is marked as changed, and the edit ends.
pub fn commit_edit(state: &mut ShellState, project: &mut Project, id: &str, text: &str)
    ensures
        *final(state) == (ShellState { editing: None, ..*old(state) }),
        final(project).pages@.len() == old(project).pages@.len(),
        forall|p: int|
            0 <= p < old(project).pages@.len() && p != old(project).current_page ==> #[trigger] final(project).pages@[p]
                == old(project).pages@[p],
        old(project).current_page < old(project).pages@.len() ==> page_text_set(
            old(project).pages@[old(project).current_page as int],
            final(project).pages@[old(project).current_page as int],
            id@,
            committed_text(text@),
        ),
        final(project).schema_version == old(project).schema_version,
        final(project).id == old(project).id,
        final(project).name == old(project).name,
        final(project).page_size == old(project).page_size,
        final(project).script == old(project).script,
        final(project).assets == old(project).assets,
        final(project).rehearsals == old(project).rehearsals,
        final(project).current_page == old(project).current_page,
        final(project).serial == old(project).serial,
        final(project).created_at_unix == old(project).created_at_unix,
{
    let chars = chars_of(text);
    let trimmed = trim_chars(&chars);
    let new_text = if trimmed.as_str().unicode_len() == 0 {
        EMPTY_TEXT.to_owned()
    } else {
        trimmed
    };
    proof {
        assert(new_text@ == committed_text(text@));
    }
    let cur = project.current_page;
    if cur < project.pages.len() {
        let ghost old_pages = project.pages@;
        let mut page = project.pages.remove(cur);
        let ghost old_page = page;
        proof {
            crate::model::page::lemma_first_element_index(page.elements@, id@);
        }
        match page.element_index(id) {
            Some(i) => {
                let ghost old_els = page.elements@;
                let mut e = page.elements.remove(i);
                e.set_text(new_text.as_str());
                page.elements.insert(i, e);
                proof {
                    assert forall|j: int| 0 <= j < old_els.len() && j != i implies #[trigger] page.elements@[j]
                        == old_els[j] by {}
                }
            },
            None => {},
        }
        project.pages.insert(cur, page);
        proof {
            assert forall|p: int| 0 <= p < old_pages.len() && p != cur implies #[trigger] project.pages@[p]
                == old_pages[p] by {}
        }
    }
    project.touch();
    state.editing = None;
}

/// The elements of `els` other than those called `id`, in order.
pub open spec fn without_id(els: Seq<Element>, id: Seq<char>) -> Seq<Element> {
    els.filter(|e: Element| e.id@ != id)
}

fn remove_by_id(els: Vec<Element>, id: &str) -> (r: Vec<Element>)
    ensures
        r@ == without_id(els@, id@),
{
    let ghost all = els@;
    let n = els.len();
    let mut src = els;
    let mut out: Vec<Element> = Vec::new();
    let mut k: usize = 0;
    while src.len() > 0
        invariant
            k <= all.len(),
            all.len() == n,
            k + src@.len() == all.len(),
            src@ == all.skip(k as int),
            out@ == without_id(all.take(k as int), id@),
        decreases src@.len(),
    {
        let e = src.remove(0);
        proof {
            reveal(Seq::filter);
            assert(all.take(k + 1).drop_last() =~= all.take(k as int));
            assert(all.take(k + 1).last() == e);
            assert(src@ =~= all.skip(k + 1));
        }
        if !crate::text::str_eq(e.id.as_str(), id) {
            out.push(e);
        }
        k = k + 1;
    }
    proof {
        assert(all.take(k as int) =~= all);
    }
    out
}

/// Deletes the selected element from the current page (every element of
/// that id there) and lets the selection go; the project is marked as
/// changed. Returns the deleted id; with nothing selected nothing happens.
pub fn delete_selected(state: &mut ShellState, project: &mut Project) -> (r: Option<String>)
    ensures
        old(state).selected is None ==> r is None && *final(state) == *old(state) && *final(project) == *old(project),
        old(state).selected matches Some(id) ==> {
            &&& r matches Some(x) && x@ == id@
            &&& *final(state) == (ShellState { selected: None, ..*old(state) })
            &&& final(project).pages@.len() == old(project).pages@.len()
            &&& forall|p: int|
                0 <= p < old(project).pages@.len() && p != old(project).current_page ==> #[trigger] final(project).pages@[p] == old(project).pages@[p]
            &&& old(project).current_page < old(project).pages@.len() ==> {
                let before = old(project).pages@[old(project).current_page as int];
                let after = final(project).pages@[old(project).current_page as int];
                &&& after.id == before.id && after.name == before.name && after.note == before.note
                &&& after.elements@ == without_id(before.elements@, id@)
            }
            &&& final(project).schema_version == old(project).schema_version
            &&& final(project).id == old(project).id
            &&& final(project).name == old(project).name
            &&& final(project).page_size == old(project).page_size
            &&& final(project).script == old(project).script
            &&& final(project).assets == old(project).assets
            &&& final(project).rehearsals == old(project).rehearsals
            &&& final(project).current_page == old(project).current_page
            &&& final(project).serial == old(project).serial
            &&& final(project).created_at_unix == old(project).created_at_unix
        },
{
    let id = match state.selected.take() {
        Some(id) => id,
        None => return None,
    };
    let cur = project.current_page;
    if cur < project.pages.len() {
        let ghost old_pages = project.pages@;
        let Page { id: page_id, name, elements, note } = project.pages.remove(cur);
        let page = Page { id: page_id, name, elements: remove_by_id(elements, id.as_str()), note };
        project.pages.insert(cur, page);
        proof {
            assert forall|p: int| 0 <= p < old_pages.len() && p != cur implies #[trigger] project.pages@[p]
                == old_pages[p] by {}
        }
    }
    project.touch();
    Some(id)
}

/// What a double click on the canvas does.
#[derive(Clone, Debug)]
pub enum DoubleClickAction {
    /// Review: seek to the time of what was clicked (see
    /// `shell::click_seek_target`).
    Seek,
    /// Create: edit the text of this element.
    EditText(String),
    /// Create: the element hit has no text to edit.
    NotEditable,
    /// Create: nothing was hit; a text element is made there.
    CreateText,
    /// The other modes ignore double clicks.
    Ignore,
}

/// The element called `id` (the first one, on the first page holding one)
/// is a text element.
pub open spec fn is_text_element(project: Project, id: Seq<char>) -> bool {
    match crate::model::project::page_holding(project.pages@, id) {
        Some(pi) => project.pages@[pi].elements@[first_element_index(project.pages@[pi].elements@, id).unwrap()].kind is Text,
        None => false,
    }
}

/// Status text when a double-clicked element has no text.
pub const NOT_EDITABLE_STATUS: &'static str = "只有文字元素可以直接编辑内容";

/// Decides a double click on `page` (the page shown, in `state`).
/// `contains_point[i]` tells whether the click lies in element `i`. In
/// review it seeks; in create the topmost visible element hit is edited
/// when it is a text element, and a click on nothing makes a new text
/// element; the other modes ignore it.
pub fn double_click_action(
    mode: Mode,
    project: &Project,
    page: &Page,
    state: &PresentationState,
    contains_point: &Vec<bool>,
) -> (r: DoubleClickAction)
    requires
        contains_point@.len() == page.elements@.len(),
    ensures
        mode == Mode::Review ==> r is Seek,
        mode == Mode::Rehearse || mode == Mode::Present ==> r is Ignore,
        mode == Mode::Create ==> exists|order: Seq<usize>|
            #[trigger] stable_order(z_keys(page.elements@), order) && match last_flagged(
                order,
                and_flags(visible_flags(page.elements@, state.visibility()), contains_point@),
            ) {
                Some(i) => if is_text_element(*project, page.elements@[i].id@) {
                    r matches DoubleClickAction::EditText(id) && id@ == page.elements@[i].id@
                } else {
                    r is NotEditable
                },
                None => r is CreateText,
            },
{
    match mode {
        Mode::Review => DoubleClickAction::Seek,
        Mode::Create => {
            let hit = hit_test_visible_element(page, state, contains_point);
            match hit {
                Some(id) => {
                    let is_text = match project.find_element(id.as_str()) {
                        Some((_, e)) => match &e.kind {
                            ElementKind::Text { .. } => true,
                            _ => false,
                        },
                        None => false,
                    };
                    if is_text {
                        DoubleClickAction::EditText(id)
                    } else {
                        DoubleClickAction::NotEditable
                    }
                },
                None => DoubleClickAction::CreateText,
            }
        },
        _ => DoubleClickAction::Ignore,
    }
}

} // verus!
