use slidetrace::model::element::Element;
use slidetrace::model::page::Page;
use slidetrace::model::script::{ScriptDoc, ScriptSection};
use slidetrace::model::stroke::Stroke;
use slidetrace::scalar::Real;
use slidetrace::timeline::{
    hit_test_element, hit_test_stroke, hit_test_visible_element, is_sorted, next_hidden_element, reveal_time,
    sort_events, was_triggered, TimelineEvent, TimelineInput,
};

fn r(x: f64) -> Real {
    Real::from_bits(x.to_bits())
}

fn f(v: Real) -> f64 {
    f64::from_bits(v.bits)
}

/// Three pages: p1 holds el1 (hidden at first) and el2 (shown), p2 holds
/// el3 (hidden at first), p3 is empty.
fn fixture() -> (Vec<Page>, ScriptDoc) {
    let mut p1 = Page::new("p1", "第 1 页");
    let mut el1 = Element::text("el1", r(0.0), r(0.0), r(100.0), r(40.0), "A");
    el1.hidden_by_default = true;
    let mut el2 = Element::text("el2", r(0.0), r(50.0), r(100.0), r(40.0), "B");
    el2.hidden_by_default = false;
    p1.elements = vec![el1, el2];

    let mut p2 = Page::new("p2", "第 2 页");
    let mut el3 = Element::text("el3", r(0.0), r(0.0), r(100.0), r(40.0), "C");
    el3.hidden_by_default = true;
    p2.elements = vec![el3];

    let p3 = Page::new("p3", "第 3 页");

    let script = ScriptDoc {
        sections: vec![
            ScriptSection::new("s1", "第一段"),
            ScriptSection::new("s2", "第二段"),
            ScriptSection::new("s3", "第三段"),
        ],
    };
    (vec![p1, p2, p3], script)
}

fn fixture_strokes() -> Vec<Stroke> {
    let mut s = Stroke::new("st1", "p1", "#e11d48", r(3.0));
    s.push(r(0.0), r(0.0), r(10.0));
    s.push(r(10.0), r(0.0), r(11.0));
    s.push(r(20.0), r(0.0), r(12.0));
    vec![s]
}

fn events() -> Vec<TimelineEvent> {
    vec![
        TimelineEvent::PageChange { page_id: "p1".into(), t: r(0.0) },
        TimelineEvent::ScriptMark { section_id: "s1".into(), t: r(0.0) },
        TimelineEvent::Reveal { element_id: "el1".into(), t: r(5.0) },
        TimelineEvent::ScriptMark { section_id: "s2".into(), t: r(8.0) },
        TimelineEvent::PageChange { page_id: "p2".into(), t: r(20.0) },
        TimelineEvent::Reveal { element_id: "el3".into(), t: r(21.0) },
        TimelineEvent::Hide { element_id: "el1".into(), t: r(30.0) },
    ]
}

#[test]
fn state_at_visibility_over_time() {
    let (pages, script) = fixture();
    let strokes = fixture_strokes();
    let evs = events();
    let input = TimelineInput { pages: &pages, strokes: &strokes, script: &script, events: &evs, start_page_index: 0 };

    // t = 0: el1 has not appeared, el2 is shown from the start
    let s0 = input.state_at(r(0.0));
    assert_eq!(s0.page_index, 0);
    assert_eq!(s0.page_id, "p1");
    assert!(!s0.is_visible("el1"));
    assert!(s0.is_visible("el2"));
    assert!(!s0.is_visible("el3"));
    assert_eq!(s0.section_index, Some(0));

    // t = 6: el1 has appeared
    let s6 = input.state_at(r(6.0));
    assert!(s6.is_visible("el1"));
    assert!(s6.is_visible("el2"));

    // t = 9: the script is at the second sentence
    assert_eq!(input.state_at(r(9.0)).section_index, Some(1));

    // t = 20 / 22: page change, then el3 appears
    let s20 = input.state_at(r(20.0));
    assert_eq!(s20.page_index, 1);
    assert_eq!(s20.page_id, "p2");
    assert!(!s20.is_visible("el3"));
    let s22 = input.state_at(r(22.0));
    assert!(s22.is_visible("el3"));

    // t = 31: el1 was hidden again
    assert!(!input.state_at(r(31.0)).is_visible("el1"));

    // a very large t is the final state
    let sf = input.final_state();
    assert!(sf.is_visible("el3"));
    assert_eq!(sf.page_index, 1);
}

#[test]
fn state_at_stroke_point_counts() {
    let (pages, script) = fixture();
    let strokes = fixture_strokes();
    let evs = events();
    let input = TimelineInput { pages: &pages, strokes: &strokes, script: &script, events: &evs, start_page_index: 0 };

    assert_eq!(input.state_at(r(9.9)).stroke_points(0), 0);
    assert_eq!(input.state_at(r(10.0)).stroke_points(0), 1);
    assert_eq!(input.state_at(r(10.5)).stroke_points(0), 1);
    assert_eq!(input.state_at(r(11.0)).stroke_points(0), 2);
    assert_eq!(input.state_at(r(12.0)).stroke_points(0), 3);
    assert_eq!(input.state_at(r(100.0)).stroke_points(0), 3);
    // an index out of range is safe
    assert_eq!(input.state_at(r(100.0)).stroke_points(42), 0);
}

#[test]
fn show_all_makes_every_element_visible() {
    let (pages, script) = fixture();
    let input = TimelineInput { pages: &pages, strokes: &[], script: &script, events: &[], start_page_index: 0 };
    // without events, elements hidden by default stay hidden
    let mut st = input.state_at(r(f64::INFINITY));
    assert!(!st.is_visible("el1"));
    assert!(!st.is_visible("el3"));
    st.show_all();
    assert!(st.is_visible("el1"));
    assert!(st.is_visible("el2"));
    assert!(st.is_visible("el3"));
}

#[test]
fn state_at_before_start_page_change() {
    // recording started on the third page and there is no page change at 0
    let (pages, script) = fixture();
    let input = TimelineInput { pages: &pages, strokes: &[], script: &script, events: &[], start_page_index: 2 };
    assert_eq!(input.state_at(r(0.0)).page_index, 2);
    assert_eq!(input.state_at(r(-5.0)).page_index, 2);
}

#[test]
fn visible_elements_filters_and_orders_by_z() {
    let (mut pages, script) = fixture();
    let mut top = Element::text("el_top", r(0.0), r(0.0), r(10.0), r(10.0), "top");
    top.z = 9;
    top.hidden_by_default = false;
    pages[0].elements.push(top);
    let input = TimelineInput { pages: &pages, strokes: &[], script: &script, events: &[], start_page_index: 0 };
    let s = input.state_at(r(0.0));
    // a larger z comes later (drawn on top)
    let ids: Vec<&str> = s.visible_elements(&pages[0]).iter().map(|e| e.id.as_str()).collect();
    assert_eq!(ids, vec!["el2", "el_top"]);
    assert_eq!(s.visible_count(&pages[0]), 2);
}

#[test]
fn events_are_sorted_after_out_of_order_insert() {
    let mut evs = vec![
        TimelineEvent::Reveal { element_id: "b".into(), t: r(14.21) },
        TimelineEvent::Reveal { element_id: "d".into(), t: r(28.32) },
        TimelineEvent::Reveal { element_id: "a".into(), t: r(8.42) },
        TimelineEvent::Reveal { element_id: "c".into(), t: r(21.75) },
    ];
    sort_events(&mut evs);
    assert!(is_sorted(&evs));
    let order: Vec<(String, f64)> = evs
        .iter()
        .map(|e| match e {
            TimelineEvent::Reveal { element_id, t } => (element_id.clone(), f(*t)),
            _ => unreachable!(),
        })
        .collect();
    assert_eq!(
        order,
        vec![("a".to_string(), 8.42), ("b".to_string(), 14.21), ("c".to_string(), 21.75), ("d".to_string(), 28.32),]
    );
}

#[test]
fn same_timestamp_uses_kind_priority_then_insertion_order() {
    let mut evs = vec![
        TimelineEvent::Marker { label: "m".into(), t: r(0.0) },
        TimelineEvent::Reveal { element_id: "e1".into(), t: r(0.0) },
        TimelineEvent::ScriptMark { section_id: "s1".into(), t: r(0.0) },
        TimelineEvent::PageChange { page_id: "p1".into(), t: r(0.0) },
        TimelineEvent::Reveal { element_id: "e2".into(), t: r(0.0) },
    ];
    sort_events(&mut evs);
    let kinds: Vec<&str> = evs.iter().map(|e| e.kind_str()).collect();
    assert_eq!(kinds, vec!["page", "script", "reveal", "reveal", "marker"]);
    // events of one kind keep their insertion order
    match (&evs[2], &evs[3]) {
        (TimelineEvent::Reveal { element_id: a, .. }, TimelineEvent::Reveal { element_id: b, .. }) => {
            assert_eq!((a.as_str(), b.as_str()), ("e1", "e2"));
        }
        _ => panic!("unexpected order"),
    }
}

#[test]
fn sorting_is_stable_for_many_equal_events() {
    let mut evs: Vec<TimelineEvent> =
        (0..50).map(|i| TimelineEvent::Reveal { element_id: format!("e{i}"), t: r(3.0) }).collect();
    sort_events(&mut evs);
    for (i, e) in evs.iter().enumerate() {
        match e {
            TimelineEvent::Reveal { element_id, .. } => assert_eq!(element_id, &format!("e{i}")),
            _ => unreachable!(),
        }
    }
}

/// Whether the point (x, y) lies in the element's rectangle (edges included).
fn contains(e: &Element, x: f64, y: f64) -> bool {
    let (ex, ey, ew, eh) = (f(e.x), f(e.y), f(e.w), f(e.h));
    x >= ex && x <= ex + ew && y >= ey && y <= ey + eh
}

fn flags(p: &Page, x: f64, y: f64) -> Vec<bool> {
    p.elements.iter().map(|e| contains(e, x, y)).collect()
}

#[test]
fn hit_test_prefers_topmost_element_and_respects_visibility() {
    let mut p = Page::new("p1", "第 1 页");
    let mut under = Element::text("under", r(0.0), r(0.0), r(100.0), r(100.0), "under");
    under.hidden_by_default = false;
    let mut over = Element::text("over", r(0.0), r(0.0), r(100.0), r(100.0), "over");
    over.z = 5;
    over.hidden_by_default = true;
    p.elements = vec![under, over];

    // geometry only: the element with the larger z wins
    assert_eq!(hit_test_element(&p, &flags(&p, 50.0, 50.0)).as_deref(), Some("over"));
    assert_eq!(hit_test_element(&p, &flags(&p, 500.0, 50.0)), None);

    // with visibility: at t = 0 `over` has not appeared, so `under` is hit
    let script = ScriptDoc::default();
    let input = TimelineInput {
        pages: std::slice::from_ref(&p),
        strokes: &[],
        script: &script,
        events: &[],
        start_page_index: 0,
    };
    let s = input.state_at(r(0.0));
    assert_eq!(hit_test_visible_element(&p, &s, &flags(&p, 50.0, 50.0)).as_deref(), Some("under"));
    assert_eq!(next_hidden_element(&p, &s).as_deref(), Some("over"));
}

#[test]
fn hit_test_stroke_returns_time_of_nearest_point() {
    let strokes = fixture_strokes();
    // the click (5, 2) is 2 away from the stroke, nearest at t = 10.5
    let hit = hit_test_stroke(&strokes, "p1", &vec![r(2.0)], &vec![r(10.5)], r(5.0));
    assert!(hit.is_some());
    let (idx, t) = hit.unwrap();
    assert_eq!(idx, 0);
    assert!((f(t) - 10.5).abs() < 1e-9);

    // a click 500 away is outside the tolerance
    assert!(hit_test_stroke(&strokes, "p1", &vec![r(500.0)], &vec![r(10.5)], r(5.0)).is_none());
    // a stroke on another page is not hit
    assert!(hit_test_stroke(&strokes, "p2", &vec![r(0.0)], &vec![r(10.5)], r(5.0)).is_none());
}

#[test]
fn script_section_lookup_by_time() {
    let (pages, script) = fixture();
    let evs = events();
    let input = TimelineInput { pages: &pages, strokes: &[], script: &script, events: &evs, start_page_index: 0 };
    assert_eq!(input.state_at(r(0.0)).section_index, Some(0));
    assert_eq!(input.state_at(r(7.99)).section_index, Some(0));
    assert_eq!(input.state_at(r(8.0)).section_index, Some(1));
    assert_eq!(input.state_at(r(19.0)).section_index, Some(1));
    assert_eq!(input.state_at(r(999.0)).section_index, Some(1));
}

#[test]
fn script_defaults_to_first_section_when_no_marks() {
    let (pages, script) = fixture();
    let input = TimelineInput { pages: &pages, strokes: &[], script: &script, events: &[], start_page_index: 0 };
    assert_eq!(input.state_at(r(3.0)).section_index, Some(0));

    // an empty script does not panic
    let empty = ScriptDoc::default();
    let input2 = TimelineInput { pages: &pages, strokes: &[], script: &empty, events: &[], start_page_index: 0 };
    assert_eq!(input2.state_at(r(3.0)).section_index, None);
}

#[test]
fn reveal_time_navigation() {
    let evs = events();
    // the element appears at t = 5
    assert_eq!(reveal_time(&evs, "el1", r(100.0)).map(f), Some(5.0));
    assert_eq!(reveal_time(&evs, "el3", r(100.0)).map(f), Some(21.0));
    // before it appears: fall back to its first appearance
    assert_eq!(reveal_time(&evs, "el1", r(1.0)).map(f), Some(5.0));
    // an element that never appears
    assert_eq!(reveal_time(&evs, "nope", r(100.0)).map(f), None);
    assert!(was_triggered(&evs, "el1", r(6.0)));
    assert!(!was_triggered(&evs, "el1", r(4.0)));
}

#[test]
fn duration_is_max_of_events_and_strokes() {
    let (pages, script) = fixture();
    let strokes = fixture_strokes();
    let evs = events();
    let input = TimelineInput { pages: &pages, strokes: &strokes, script: &script, events: &evs, start_page_index: 0 };
    // the latest event is at 30, the latest stroke point at 12
    assert_eq!(f(input.duration()), 30.0);
}

#[test]
fn hit_test_stroke_prefers_the_later_stroke_on_a_tie() {
    let mut a = Stroke::new("a", "p1", "#000", r(1.0));
    a.push(r(0.0), r(0.0), r(1.0));
    a.push(r(10.0), r(0.0), r(2.0));
    let mut b = Stroke::new("b", "p1", "#000", r(1.0));
    b.push(r(0.0), r(0.0), r(5.0));
    b.push(r(10.0), r(0.0), r(6.0));
    let strokes = vec![a, b];
    // the click (5, 0) lies on both strokes: at t = 1.5 on a, t = 5.5 on b
    let hit = hit_test_stroke(&strokes, "p1", &vec![r(0.0), r(0.0)], &vec![r(1.5), r(5.5)], r(1.0));
    let (idx, t) = hit.unwrap();
    assert_eq!(idx, 1);
    assert_eq!(f(t), 5.5);
    // a strictly nearer earlier stroke still wins
    let hit = hit_test_stroke(&strokes, "p1", &vec![r(0.25), r(0.5)], &vec![r(1.5), r(5.5)], r(1.0));
    assert_eq!(hit.unwrap().0, 0);
}
