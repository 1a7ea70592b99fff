use slidetrace::demo::{build_demo_project, demo_events, demo_rehearsal, Xorshift, DEMO_DURATION_BITS};
use slidetrace::model::project::Project;
use slidetrace::model::script::ScriptLevel;
use slidetrace::scalar::Real;
use slidetrace::timeline::{is_sorted, TimelineEvent, TimelineInput};

fn r(x: f64) -> Real {
    Real::from_bits(x.to_bits())
}

fn f(v: Real) -> f64 {
    f64::from_bits(v.bits)
}

#[test]
fn demo_project_shape_matches_spec() {
    let p = build_demo_project();
    assert_eq!(p.pages.len(), 3, "the demo project has 3 pages");
    assert_eq!(p.script.sections.len(), 5, "the demo project has 5 script sections");
    for page in &p.pages {
        assert!((2..=3).contains(&page.elements.len()), "2 or 3 elements per page, got {}", page.elements.len());
    }
    assert_eq!(p.assets.len(), 2);
    // no level of any section is blank
    for s in &p.script.sections {
        for lvl in [ScriptLevel::Full, ScriptLevel::Prompt, ScriptLevel::Minimal] {
            assert!(!s.text(lvl).trim().is_empty(), "section {} is blank at {:?}", s.id, lvl);
        }
    }
}

#[test]
fn demo_project_ids_are_unique() {
    let p = build_demo_project();
    let mut ids: Vec<&str> = p.pages.iter().flat_map(|pg| pg.elements.iter().map(|e| e.id.as_str())).collect();
    let before = ids.len();
    ids.sort_unstable();
    ids.dedup();
    assert_eq!(ids.len(), before);
}

#[test]
fn demo_events_only_reference_existing_ids() {
    let p = build_demo_project();
    for ev in demo_events() {
        match &ev {
            TimelineEvent::Reveal { element_id, .. } | TimelineEvent::Hide { element_id, .. } => {
                assert!(p.find_element(element_id).is_some(), "{element_id} does not exist");
            }
            TimelineEvent::PageChange { page_id, .. } => {
                assert!(p.page(page_id).is_some(), "{page_id} does not exist");
            }
            TimelineEvent::ScriptMark { section_id, .. } => {
                assert!(p.script.section_index(section_id).is_some(), "{section_id} does not exist");
            }
            TimelineEvent::Marker { .. } => {}
        }
    }
}

#[test]
fn demo_events_are_sorted_and_within_duration() {
    let evs = demo_events();
    assert!(is_sorted(&evs));
    let duration = f64::from_bits(DEMO_DURATION_BITS);
    for e in &evs {
        assert!(f(e.time()) >= 0.0 && f(e.time()) <= duration, "{:?}", e);
    }
}

#[test]
fn demo_state_at_end_shows_everything_revealed() {
    let p = build_demo_project();
    let reh = demo_rehearsal(0, Vec::new());
    let input = TimelineInput::new(&p, Some(&reh));
    let last = input.state_at(r(f64::from_bits(DEMO_DURATION_BITS)));
    assert_eq!(last.page_id, "p3");
    assert!(last.is_visible("el7"));
    assert!(last.is_visible("el8"));
    assert_eq!(last.section_index, Some(4));

    let first = input.state_at(r(0.0));
    assert_eq!(first.page_id, "p1");
    assert!(first.is_visible("el1"));
    assert!(!first.is_visible("el2"));
}

#[test]
fn demo_rehearsal_carries_audio_and_duration() {
    let reh = demo_rehearsal(584_000, Vec::new());
    assert_eq!(reh.id, "r1");
    assert_eq!(reh.start_page_id, "p1");
    assert_eq!(f(reh.duration), 36.5);
    let audio = reh.audio.as_ref().unwrap();
    assert_eq!((audio.sample_rate, audio.channels, audio.frames), (16_000, 1, 584_000));
    assert_eq!(audio.file, "audio.wav");
    assert_eq!(reh.events.len(), 14);
}

#[test]
fn xorshift_matches_reference_steps() {
    // seed 1: the first xorshift32 outputs
    let mut g = Xorshift::new(0);
    assert_eq!(g.next_u32(), 270_369);
    assert_eq!(g.next_u32(), 67_634_689);
    // the seed is forced odd, so 0 and 1 start the same sequence
    let mut a = Xorshift::new(0x5EED_1234);
    let mut b = Xorshift::new(0x5EED_1235);
    for _ in 0..100 {
        let x = a.next_u32();
        assert_eq!(x, b.next_u32());
        assert_ne!(x, 0);
    }
}

#[test]
fn project_demo_is_the_demo_project() {
    let p = Project::demo();
    assert_eq!(p.name, "示例演讲：以讲话时间为主轴");
    let ids: Vec<&str> = p.pages.iter().map(|pg| pg.id.as_str()).collect();
    assert_eq!(ids, vec!["p1", "p2", "p3"]);
    assert_eq!(p.pages[0].name, "第 1 页 · 开场");
    assert_eq!(p.pages[1].elements[1].id, "el6");
    assert_eq!(p.pages[1].elements[1].asset_name(), Some("figure-canvas.png"));
    assert_eq!(f(p.pages[0].elements[0].style.font_size), 64.0);
    assert!(!p.pages[0].elements[0].hidden_by_default);
    assert!(p.pages[0].elements[1].hidden_by_default);
    assert_eq!(p.serial, 100);
    assert_eq!(p.assets.len(), 2);
}

#[test]
fn demo_events_follow_the_table() {
    let evs = demo_events();
    assert_eq!(evs.len(), 14);
    match &evs[0] {
        TimelineEvent::PageChange { page_id, t } => {
            assert_eq!(page_id, "p1");
            assert_eq!(f(*t), 0.0);
        }
        other => panic!("first event: {:?}", other),
    }
    match &evs[1] {
        TimelineEvent::ScriptMark { section_id, .. } => assert_eq!(section_id, "s1"),
        other => panic!("second event: {:?}", other),
    }
    match &evs[13] {
        TimelineEvent::Marker { label, t } => {
            assert_eq!(label, "结束");
            assert_eq!(f(*t), 36.2);
        }
        other => panic!("last event: {:?}", other),
    }
    assert_eq!(f(evs[7].time()), 21.4);
}

#[test]
fn demo_project_for_takes_id_and_creation_time() {
    let mut blank = Project::new("Demo Target");
    blank.created_at_unix = 1_700_000_000;
    let p = slidetrace::demo::demo_project_for(&blank);
    assert_eq!(p.id, "demo-target");
    assert_eq!(p.created_at_unix, 1_700_000_000);
    assert_eq!(p.serial, 100);
    assert_eq!(p.pages.len(), 3);
}

#[test]
fn compute_state_follows_the_demo_rehearsal() {
    let p = build_demo_project();
    let reh = demo_rehearsal(0, Vec::new());
    let mid = slidetrace::shell::compute_state(&p, Some(&reh), r(20.0));
    assert_eq!(mid.page_id, "p2");
    assert!(mid.is_visible("el4"));
    assert!(!mid.is_visible("el6"));
    assert_eq!(mid.section_index, Some(2));
    let later = slidetrace::shell::compute_state(&p, Some(&reh), r(22.0));
    assert!(later.is_visible("el6"));
    let plain = slidetrace::shell::compute_state(&p, None, r(20.0));
    assert_eq!(plain.page_id, "p1");
    assert!(!plain.is_visible("el2"));
}

#[test]
fn camera_is_explicitly_unimplemented_in_v1() {
    assert!(slidetrace::camera::CameraTrack::probe().is_none());
    assert_eq!(slidetrace::camera::CAMERA_FILE_NAME, "camera.mp4");
}
