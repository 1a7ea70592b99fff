use slidetrace::camera::CAMERA_FILE_NAME;
use slidetrace::cli::Mode;
use slidetrace::model::element::Element;
use slidetrace::model::page::Page;
use slidetrace::model::project::Project;
use slidetrace::model::rehearsal::AudioRef;
use slidetrace::model::script::{ScriptDoc, ScriptSection};
use slidetrace::model::stroke::Stroke;
use slidetrace::scalar::Real;
use slidetrace::shell::{
    auto_mark_candidate, click_seek_target, editing_state, element_rows, finish_recording, key_command,
    last_visible_element, level_from_index, next_marker_label, page_step, remember_mark, script_row_action,
    section_times, slot_target, FinishedRecording, KeyCommand, LiveRecording, PageStep, ScriptAction, SeekTarget,
    SlotOutcome,
};
use slidetrace::model::rehearsal::Rehearsal;
use slidetrace::model::script::ScriptLevel;
use slidetrace::timeline::{is_sorted, TimelineEvent, TimelineInput};

fn r(x: f64) -> Real {
    Real::from_bits(x.to_bits())
}

fn f(v: Real) -> f64 {
    f64::from_bits(v.bits)
}

#[test]
fn key_presses_map_to_commands() {
    let k = |t: &str, ctrl: bool, shift: bool, mode: Mode, rec: bool| key_command(t, ctrl, shift, false, mode, rec);
    assert_eq!(k("r", true, false, Mode::Create, false), KeyCommand::ToggleRecording);
    assert_eq!(k("S", true, false, Mode::Create, false), KeyCommand::Save);
    assert_eq!(k("x", true, false, Mode::Create, false), KeyCommand::Nothing);
    assert_eq!(k("\u{1b}", false, false, Mode::Rehearse, true), KeyCommand::StopRecording);
    assert_eq!(k("\u{1b}", false, false, Mode::Present, false), KeyCommand::ExitToCreate);
    assert_eq!(k(" ", false, false, Mode::Rehearse, false), KeyCommand::TriggerNext);
    assert_eq!(k(" ", false, false, Mode::Review, false), KeyCommand::PlayToggle);
    assert_eq!(k("\u{F703}", false, false, Mode::Present, false), KeyCommand::NextPage(1));
    assert_eq!(k("\u{F700}", false, false, Mode::Present, false), KeyCommand::NextPage(-1));
    assert_eq!(k("3", false, false, Mode::Present, false), KeyCommand::TriggerSlot(2));
    assert_eq!(k("3", false, true, Mode::Present, false), KeyCommand::Nothing);
    assert_eq!(k("0", false, false, Mode::Present, false), KeyCommand::Nothing);
    assert_eq!(k("M", false, false, Mode::Rehearse, true), KeyCommand::AddMarker);
    assert_eq!(k("m", false, false, Mode::Rehearse, false), KeyCommand::Nothing);
    assert_eq!(k("h", false, false, Mode::Present, false), KeyCommand::HideLast);
    assert_eq!(k("h", false, false, Mode::Review, false), KeyCommand::Nothing);
    // nothing happens while a text is being edited
    assert_eq!(key_command("r", true, false, true, Mode::Create, false), KeyCommand::Nothing);
}

#[test]
fn live_recording_starts_with_page_and_first_sentence() {
    let live = LiveRecording::fresh(1, "p2", Some("s1"));
    assert_eq!(live.start_page, 1);
    assert_eq!(live.events.len(), 2);
    assert_eq!(live.events[0].kind_str(), "page");
    assert_eq!(live.events[1].kind_str(), "script");
    assert_eq!(f(live.events[1].time()), 0.0);
    assert_eq!(LiveRecording::fresh(0, "p1", None).events.len(), 1);
}

fn section(id: &str, page: Option<&str>) -> ScriptSection {
    let mut s = ScriptSection::new(id, "一句话");
    s.page_id = page.map(|p| p.to_string());
    s
}

#[test]
fn auto_mark_picks_first_unmarked_sentence_of_the_page() {
    let secs = vec![section("s1", Some("p1")), section("s2", Some("p2")), section("s3", Some("p2"))];
    let mut marked: Vec<(String, Real)> = Vec::new();
    assert_eq!(auto_mark_candidate(&secs, "p2", &marked).as_deref(), Some("s2"));
    remember_mark(&mut marked, "s2", r(3.0));
    // s2 is anchored: the next sentence of the same page is chosen
    assert_eq!(auto_mark_candidate(&secs, "p2", &marked).as_deref(), Some("s3"));
    remember_mark(&mut marked, "s3", r(4.0));
    assert_eq!(auto_mark_candidate(&secs, "p2", &marked), None);
    // anchoring again replaces the time
    remember_mark(&mut marked, "s2", r(9.0));
    assert_eq!(marked.len(), 2);
    assert_eq!(f(marked[0].1), 9.0);
}

fn two_element_page() -> Page {
    let mut p = Page::new("p1", "第 1 页");
    let mut under = Element::text("under", r(0.0), r(0.0), r(100.0), r(100.0), "under");
    under.hidden_by_default = false;
    let mut over = Element::text("over", r(0.0), r(0.0), r(100.0), r(100.0), "over");
    over.z = 5;
    over.hidden_by_default = true;
    p.elements = vec![under, over];
    p
}

#[test]
fn number_keys_follow_the_drawing_order() {
    let p = two_element_page();
    let script = ScriptDoc::default();
    let input = TimelineInput { pages: std::slice::from_ref(&p), strokes: &[], script: &script, events: &[], start_page_index: 0 };
    let s = input.state_at(r(0.0));
    assert_eq!(slot_target(&p, &s, 0), SlotOutcome::AlreadyVisible("under".into()));
    assert_eq!(slot_target(&p, &s, 1), SlotOutcome::Reveal("over".into()));
    assert_eq!(slot_target(&p, &s, 2), SlotOutcome::NoSuchElement);
    assert_eq!(last_visible_element(&p, &s).as_deref(), Some("under"));

    let rows = element_rows(&p, &s, Mode::Rehearse);
    let view: Vec<(usize, bool, Option<usize>)> = rows.iter().map(|x| (x.index, x.hint_only, x.trigger_key)).collect();
    assert_eq!(view, vec![(0, false, None), (1, true, Some(2))]);
    assert_eq!(element_rows(&p, &s, Mode::Present).len(), 1);
    assert!(element_rows(&p, &s, Mode::Create).iter().all(|x| !x.hint_only));
}

#[test]
fn paging_clamps_at_both_ends() {
    assert_eq!(page_step(0, 0, 1), PageStep::NoPages);
    assert_eq!(page_step(0, 3, -1), PageStep::Stay { at_last: false });
    assert_eq!(page_step(2, 3, 1), PageStep::Stay { at_last: true });
    assert_eq!(page_step(1, 3, 1), PageStep::Go(2));
    assert_eq!(page_step(1, 3, -5), PageStep::Go(0));
}

#[test]
fn markers_are_numbered() {
    let mut evs = vec![TimelineEvent::Marker { label: "标记 1".into(), t: r(1.0) }];
    assert_eq!(next_marker_label(&evs), "标记 2");
    evs.push(TimelineEvent::Reveal { element_id: "el1".into(), t: r(2.0) });
    assert_eq!(next_marker_label(&evs), "标记 2");
    assert_eq!(next_marker_label(&Vec::new()), "标记 1");
}

#[test]
fn finishing_a_recording_builds_the_rehearsal() {
    let mut project = Project::new("Talk");
    project.script.sections.push(section("s1", Some("p1")));
    project.script.sections.push(section("s2", Some("p1")));
    let mut live = LiveRecording::fresh(0, "p1", Some("s1"));
    live.events.push(TimelineEvent::Reveal { element_id: "el1".into(), t: r(12.0) });
    let mut st = Stroke::new("st1", "p1", "#000", r(2.0));
    st.push(r(1.0), r(1.0), r(14.0));
    live.strokes.push(st);
    let fin = FinishedRecording { file_name: "take.wav".into(), sample_rate: 16_000, channels: 1, frames: 160_000 };
    let audio = fin.audio_ref();
    assert_eq!(audio.file, "take.wav");
    let marks = vec![("s1".to_string(), r(0.0)), ("s2".to_string(), r(6.0))];
    let reh = finish_recording(&mut project, live, r(9.5), Some((audio, r(10.0))), &marks);
    assert_eq!(reh.id, "r2");
    assert_eq!(reh.name, "演练 1");
    assert_eq!(reh.start_page_id, "p1");
    // the stroke ends after the audio: the rehearsal is as long as the stroke
    assert_eq!(f(reh.duration), 14.0);
    assert!(reh.audio.is_some());
    assert!(is_sorted(&reh.events));
    assert_eq!(reh.script_anchors().len(), 2);
    assert_eq!(project.script.sections[1].reveal_time.map(f), Some(6.0));
    assert_eq!(project.serial, 2);

    let no_audio: Option<(AudioRef, Real)> = None;
    let reh2 = finish_recording(&mut project, LiveRecording::fresh(5, "p9", None), r(3.0), no_audio, &Vec::new());
    assert_eq!(reh2.start_page_id, "");
    assert_eq!(f(reh2.duration), 3.0);
    assert_eq!(project.current_page, 5);
}

#[test]
fn review_clicks_prefer_strokes_then_elements() {
    let p = two_element_page();
    let script = ScriptDoc::default();
    let input = TimelineInput { pages: std::slice::from_ref(&p), strokes: &[], script: &script, events: &[], start_page_index: 0 };
    let s = input.state_at(r(0.0));
    let mut st = Stroke::new("st1", "p1", "#000", r(2.0));
    st.push(r(50.0), r(50.0), r(7.5));
    let strokes = vec![st];
    let events = vec![TimelineEvent::Reveal { element_id: "under".into(), t: r(4.0) }];
    let inside = vec![true, true];
    match click_seek_target(&p, &s, &inside, &strokes, &vec![r(1.0)], &vec![r(7.5)], &events, r(20.0)) {
        SeekTarget::Stroke { index, t } => assert_eq!((index, f(t)), (0, 7.5)),
        other => panic!("expected a stroke, got {:?}", other),
    }
    match click_seek_target(&p, &s, &inside, &strokes, &vec![r(30.0)], &vec![r(7.5)], &events, r(20.0)) {
        SeekTarget::Element { id, t } => {
            assert_eq!(id, "under");
            assert_eq!(t.map(f), Some(4.0));
        }
        other => panic!("expected an element, got {:?}", other),
    }
    let outside = vec![false, false];
    assert!(matches!(
        click_seek_target(&p, &s, &outside, &strokes, &vec![r(30.0)], &vec![r(7.5)], &events, r(20.0)),
        SeekTarget::Nothing
    ));
}

#[test]
fn editing_shows_every_element_of_the_current_page() {
    let mut project = Project::new("Talk");
    let mut e = Element::text("el1", r(0.0), r(0.0), r(10.0), r(10.0), "hidden");
    e.hidden_by_default = true;
    project.pages[0].elements.push(e);
    let st = editing_state(&project);
    assert_eq!(st.page_id, "p1");
    assert!(st.is_visible("el1"));
    assert_eq!(CAMERA_FILE_NAME, "camera.mp4");
}

#[test]
fn script_clicks_depend_on_the_mode() {
    let mut project = Project::new("Talk");
    project.add_page();
    let secs = vec![section("s1", Some("p1")), section("s2", None), section("s3", Some(&project.pages[1].id))];
    let mut reh = Rehearsal::new("r1", "演练", "p1");
    reh.push_event(TimelineEvent::ScriptMark { section_id: "s1".into(), t: r(2.5) });
    let mut with_copy = secs.clone();
    with_copy[2].reveal_time = Some(r(7.0));
    let times = section_times(&with_copy, Some(&reh));
    assert_eq!(times.iter().map(|t| t.map(f)).collect::<Vec<_>>(), vec![Some(2.5), None, Some(7.0)]);
    assert_eq!(section_times(&with_copy, None).iter().map(|t| t.map(f)).collect::<Vec<_>>(), vec![None, None, Some(7.0)]);

    assert!(matches!(script_row_action(Mode::Rehearse, true, 1, &secs, &project.pages, &times), ScriptAction::Mark(id) if id == "s2"));
    assert!(matches!(
        script_row_action(Mode::Present, false, 2, &secs, &project.pages, &times),
        ScriptAction::GoToPage { page_index: 1, .. }
    ));
    assert!(matches!(script_row_action(Mode::Rehearse, false, 1, &secs, &project.pages, &times), ScriptAction::NoPage(_)));
    assert!(matches!(
        script_row_action(Mode::Review, false, 0, &secs, &project.pages, &times),
        ScriptAction::Seek { t, .. } if f(t) == 2.5
    ));
    assert!(matches!(
        script_row_action(Mode::Review, false, 1, &secs, &project.pages, &times),
        ScriptAction::NoTime { page_index: None, .. }
    ));
    assert!(matches!(script_row_action(Mode::Review, false, 9, &secs, &project.pages, &times), ScriptAction::Nothing));
    assert_eq!(level_from_index(1), ScriptLevel::Prompt);
    assert_eq!(level_from_index(2), ScriptLevel::Minimal);
    assert_eq!(level_from_index(7), ScriptLevel::Full);
}
