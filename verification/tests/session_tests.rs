use slidetrace::cli::Mode;
use slidetrace::model::element::{Element, ElementKind};
use slidetrace::model::project::Project;
use slidetrace::model::script::ScriptSection;
use slidetrace::scalar::Real;
use slidetrace::session::{
    begin_edit, change_mode, commit_edit, delete_selected, double_click_action, end_edit, review_after_load,
    select_page, toggle_recording, DoubleClickAction, ShellAction, ShellState, CREATE_STATUS, NO_REHEARSAL_STATUS,
    PRESENT_STATUS, REHEARSE_STATUS, REVIEW_STATUS,
};
use slidetrace::timeline::{TimelineEvent, TimelineInput};

fn r(x: f64) -> Real {
    Real::from_bits(x.to_bits())
}

fn project() -> Project {
    let mut p = Project::new("Talk");
    p.pages[0].elements.push(Element::text("t1", r(0.0), r(0.0), r(100.0), r(50.0), "hello"));
    p.pages[0].elements.push(Element::image("i1", r(200.0), r(0.0), r(100.0), r(50.0), "a.png"));
    p.pages[0].elements.push(Element::text("t2", r(0.0), r(100.0), r(100.0), r(50.0), "second"));
    p.add_page();
    let mut s1 = ScriptSection::new("s1", "first sentence");
    s1.page_id = Some("p1".to_owned());
    p.script.sections.push(s1);
    p
}

fn kinds(actions: &[ShellAction]) -> Vec<String> {
    actions
        .iter()
        .map(|a| match a {
            ShellAction::Status(s) => format!("Status({s})"),
            other => format!("{:?}", other),
        })
        .collect()
}

#[test]
fn switching_to_create_pauses_and_clears_the_selection() {
    let p = project();
    let mut s = ShellState::new();
    s.selected = Some("t1".to_owned());
    s.editing = Some("t1".to_owned());
    let (s, acts) = change_mode(s, &p, Mode::Create);
    assert_eq!(s.mode, Mode::Create);
    assert!(s.selected.is_none() && s.editing.is_none());
    assert_eq!(kinds(&acts), vec!["PausePlayer".to_string(), format!("Status({CREATE_STATUS})")]);
}

#[test]
fn switching_to_rehearse_starts_a_fresh_live_recording() {
    let p = project();
    let mut s = ShellState::new();
    s.rehearsal_loaded = true;
    let (s, acts) = change_mode(s, &p, Mode::Rehearse);
    assert_eq!(s.mode, Mode::Rehearse);
    assert!(!s.rehearsal_loaded);
    assert_eq!(s.live.events.len(), 2);
    assert!(matches!(&s.live.events[0], TimelineEvent::PageChange { page_id, .. } if page_id == "p1"));
    assert!(matches!(&s.live.events[1], TimelineEvent::ScriptMark { section_id, .. } if section_id == "s1"));
    assert_eq!(
        kinds(&acts),
        vec!["PausePlayer".to_string(), "ResetWaveform".to_string(), format!("Status({REHEARSE_STATUS})")]
    );
}

#[test]
fn switching_to_present_starts_without_script() {
    let mut p = project();
    p.current_page = 1;
    let (s, acts) = change_mode(ShellState::new(), &p, Mode::Present);
    assert_eq!(s.live.events.len(), 1);
    assert_eq!(s.live.start_page, 1);
    assert!(matches!(&s.live.events[0], TimelineEvent::PageChange { page_id, .. } if page_id == "p2"));
    assert_eq!(kinds(&acts), vec!["PausePlayer".to_string(), format!("Status({PRESENT_STATUS})")]);
}

#[test]
fn switching_to_review_loads_or_seeks() {
    let p = project();
    let (s, acts) = change_mode(ShellState::new(), &p, Mode::Review);
    assert_eq!(kinds(&acts), vec!["LoadLatestRehearsal".to_string()]);
    let (s2, acts) = review_after_load(s.clone(), false);
    assert!(!s2.rehearsal_loaded);
    assert_eq!(kinds(&acts), vec![format!("Status({NO_REHEARSAL_STATUS})")]);
    let (s3, acts) = review_after_load(s, true);
    assert!(s3.rehearsal_loaded);
    assert_eq!(kinds(&acts), vec!["SeekToStart".to_string(), format!("Status({REVIEW_STATUS})")]);

    let mut loaded = ShellState::new();
    loaded.rehearsal_loaded = true;
    let (_, acts) = change_mode(loaded, &p, Mode::Review);
    assert_eq!(kinds(&acts), vec!["SeekToStart".to_string(), format!("Status({REVIEW_STATUS})")]);
}

#[test]
fn leaving_a_recording_stops_it_first() {
    let p = project();
    let (s, acts) = toggle_recording(ShellState::new(), &p);
    assert!(s.recording);
    assert_eq!(s.mode, Mode::Rehearse);
    assert_eq!(s.marked.len(), 1);
    assert_eq!(s.marked[0].0, "s1");
    assert_eq!(acts.last().map(|a| format!("{:?}", a)), Some("StartRecorder".to_string()));
    assert_eq!(acts.len(), 4);

    let (stopped, acts) = change_mode(s.clone(), &p, Mode::Create);
    assert!(!stopped.recording);
    assert!(stopped.rehearsal_loaded);
    assert!(stopped.live.events.is_empty());
    assert_eq!(
        kinds(&acts),
        vec!["StopRecording".to_string(), "PausePlayer".to_string(), format!("Status({CREATE_STATUS})")]
    );

    let (to_review, acts) = change_mode(s.clone(), &p, Mode::Review);
    assert_eq!(
        kinds(&acts),
        vec!["StopRecording".to_string(), "SeekToStart".to_string(), format!("Status({REVIEW_STATUS})")]
    );
    assert_eq!(to_review.mode, Mode::Review);

    let (toggled, acts) = toggle_recording(s, &p);
    assert_eq!(toggled.mode, Mode::Review);
    assert!(!toggled.recording && toggled.rehearsal_loaded);
    assert_eq!(kinds(&acts), vec!["StopRecording".to_string()]);
}

#[test]
fn staying_in_rehearse_keeps_recording() {
    let p = project();
    let (s, _) = toggle_recording(ShellState::new(), &p);
    let (s, acts) = change_mode(s, &p, Mode::Rehearse);
    assert!(s.recording);
    assert_eq!(acts.len(), 3);
}

#[test]
fn selecting_a_page_records_a_page_change_while_rehearsing() {
    let mut p = project();
    let (mut s, _) = change_mode(ShellState::new(), &p, Mode::Rehearse);
    s.selected = Some("t1".to_owned());
    assert!(!select_page(&mut s, &mut p, 5, r(3.0)));
    assert!(!select_page(&mut s, &mut p, -1, r(3.0)));
    assert_eq!(s.selected.as_deref(), Some("t1"));
    assert!(select_page(&mut s, &mut p, 1, r(3.0)));
    assert_eq!(p.current_page, 1);
    assert!(s.selected.is_none());
    assert_eq!(s.live.events.len(), 3);
    assert!(matches!(&s.live.events[2], TimelineEvent::PageChange { page_id, t } if page_id == "p2" && t.bits == 3.0f64.to_bits()));

    let mut c = ShellState::new();
    assert!(select_page(&mut c, &mut p, 0, r(3.0)));
    assert_eq!(c.live.events.len(), 1);
}

#[test]
fn editing_a_text_element() {
    let mut p = project();
    let mut s = ShellState::new();
    assert!(!begin_edit(&mut s, &p, "nope"));
    assert!(s.editing.is_none());
    assert!(begin_edit(&mut s, &p, "t1"));
    assert_eq!(s.editing.as_deref(), Some("t1"));
    assert_eq!(s.selected.as_deref(), Some("t1"));
    commit_edit(&mut s, &mut p, "t1", "  new words \n");
    assert!(s.editing.is_none());
    assert_eq!(s.selected.as_deref(), Some("t1"));
    assert_eq!(p.pages[0].elements[0].text_content(), Some("new words"));
    commit_edit(&mut s, &mut p, "t1", "   ");
    assert_eq!(p.pages[0].elements[0].text_content(), Some("（空文字）"));
    commit_edit(&mut s, &mut p, "i1", "text");
    assert!(matches!(&p.pages[0].elements[1].kind, ElementKind::Image { asset } if asset == "a.png"));
    s.editing = Some("t2".to_owned());
    end_edit(&mut s);
    assert!(s.editing.is_none());
}

#[test]
fn deleting_the_selected_element() {
    let mut p = project();
    let mut s = ShellState::new();
    assert!(delete_selected(&mut s, &mut p).is_none());
    assert_eq!(p.pages[0].elements.len(), 3);
    s.selected = Some("i1".to_owned());
    assert_eq!(delete_selected(&mut s, &mut p).as_deref(), Some("i1"));
    assert!(s.selected.is_none());
    let ids: Vec<&str> = p.pages[0].elements.iter().map(|e| e.id.as_str()).collect();
    assert_eq!(ids, vec!["t1", "t2"]);
}

#[test]
fn double_clicks_edit_text_or_create_it() {
    let p = project();
    let input = TimelineInput::new(&p, None);
    let mut st = input.final_state();
    st.show_all();
    let page = &p.pages[0];
    let on_text = vec![true, false, false];
    let on_image = vec![false, true, false];
    let on_nothing = vec![false, false, false];
    assert!(matches!(double_click_action(Mode::Create, &p, page, &st, &on_text), DoubleClickAction::EditText(id) if id == "t1"));
    assert!(matches!(double_click_action(Mode::Create, &p, page, &st, &on_image), DoubleClickAction::NotEditable));
    assert!(matches!(double_click_action(Mode::Create, &p, page, &st, &on_nothing), DoubleClickAction::CreateText));
    assert!(matches!(double_click_action(Mode::Review, &p, page, &st, &on_text), DoubleClickAction::Seek));
    assert!(matches!(double_click_action(Mode::Present, &p, page, &st, &on_text), DoubleClickAction::Ignore));
}
