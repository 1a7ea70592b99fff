use slidetrace::model::element::{hex_color_checked, parse_hex_color, Element};
use slidetrace::model::page::Page;
use slidetrace::model::project::Project;
use slidetrace::model::rehearsal::{AudioRef, Rehearsal, RehearsalMeta};
use slidetrace::model::script::{ScriptLevel, ScriptSection};
use slidetrace::model::stroke::Stroke;
use slidetrace::model::{format_unix_time, slugify};
use slidetrace::scalar::Real;
use slidetrace::timeline::TimelineEvent;

fn r(x: f64) -> Real {
    Real::from_bits(x.to_bits())
}

fn f(v: Real) -> f64 {
    f64::from_bits(v.bits)
}

#[test]
fn hex_colors_parse() {
    assert_eq!(parse_hex_color("#ff8800"), Some((255, 136, 0, 255)));
    assert_eq!(parse_hex_color("#f80"), Some((255, 136, 0, 255)));
    assert_eq!(parse_hex_color("#80ff8800"), Some((255, 136, 0, 128)));
    assert_eq!(parse_hex_color("nope"), None);
    assert_eq!(parse_hex_color("#12345"), None);
}

#[test]
fn unix_formatting_is_correct() {
    assert_eq!(format_unix_time(0), "1970-01-01 00:00:00");
    // 2021-01-01 00:00:00 UTC
    assert_eq!(format_unix_time(1_609_459_200), "2021-01-01 00:00:00");
    // 2024-02-29 12:34:56 UTC, a leap day
    assert_eq!(format_unix_time(1_709_210_096), "2024-02-29 12:34:56");
}

#[test]
fn slug_is_filesystem_safe() {
    assert_eq!(slugify("TiDB 架构分享"), "tidb");
    assert_eq!(slugify("My Talk 01"), "my-talk-01");
    assert_eq!(slugify("a//b"), "ab");
    // no ASCII character to use: falls back to a time-stamped slug
    assert!(slugify("架构分享").starts_with("project-"));
}

#[test]
fn level_cycles() {
    assert_eq!(ScriptLevel::Full.next(), ScriptLevel::Prompt);
    assert_eq!(ScriptLevel::Prompt.next(), ScriptLevel::Minimal);
    assert_eq!(ScriptLevel::Minimal.next(), ScriptLevel::Full);
}

#[test]
fn ids_are_unique_and_monotonic() {
    let mut p = Project::new("Demo");
    let a = p.next_id("el");
    let b = p.next_id("el");
    assert_ne!(a, b);
    let c = p.next_id("st");
    assert_ne!(a, c);
}

#[test]
fn cannot_delete_last_page() {
    let mut p = Project::new("Demo");
    assert!(!p.remove_page(0));
    let second = p.add_page();
    assert_eq!(p.pages.len(), 2);
    assert!(p.remove_page(1));
    assert_eq!(p.pages.len(), 1);
    assert_eq!(p.page_index(&second), None);
}

#[test]
fn next_id_skips_ids_already_in_use() {
    let mut p = Project::new("Demo");
    p.pages[0].elements.push(Element::text("el2", r(0.0), r(0.0), r(1.0), r(1.0), "x"));
    // the counter starts at 1: with el2 taken the next id is el3
    assert_eq!(p.next_id("el"), "el3");
    // page ids are avoided as well
    let pid = p.add_page();
    assert_ne!(pid, "el3");
    let fresh = p.next_id("el");
    assert!(!p.id_in_use(&fresh));
}

#[test]
fn slug_comes_from_name() {
    assert_eq!(Project::new("My Talk").id, "my-talk");
}

#[test]
fn script_marks_are_derived_from_events() {
    let mut reh = Rehearsal::new("r1", "第一次演练", "p1");
    reh.push_event(TimelineEvent::ScriptMark { section_id: "s2".into(), t: r(8.5) });
    reh.push_event(TimelineEvent::Reveal { element_id: "el1".into(), t: r(4.0) });
    reh.push_event(TimelineEvent::ScriptMark { section_id: "s1".into(), t: r(0.0) });
    // the events are sorted
    assert_eq!(f(reh.events[0].time()), 0.0);
    assert_eq!(reh.section_reveal_time("s2").map(f), Some(8.5));
    assert_eq!(reh.section_reveal_time("s9").map(f), None);
    assert_eq!(reh.element_reveal_time("el1").map(f), Some(4.0));
    assert_eq!(reh.script_anchors().len(), 2);
    // rewriting the anchors replaces the old ones
    reh.set_section_marks(&[("s1".into(), r(0.0)), ("s3".into(), r(12.0))]);
    assert_eq!(reh.script_anchors().len(), 2);
    assert_eq!(reh.section_reveal_time("s2").map(f), None);
    assert_eq!(reh.section_reveal_time("s3").map(f), Some(12.0));
}

#[test]
fn meta_mirrors_rehearsal() {
    let mut reh = Rehearsal::new("r1", "演练 01", "p1");
    reh.duration = r(12.5);
    reh.audio = Some(AudioRef::mic(16_000, 1, 16_000 * 12));
    reh.strokes.push(Stroke::new("st1", "p1", "#000", r(2.0)));
    let m = RehearsalMeta::from_rehearsal(&reh);
    assert!(m.has_audio);
    assert_eq!(m.stroke_count, 1);
    assert_eq!(f(m.duration), 12.5);
}

#[test]
fn auto_prompt_and_minimal_are_generated() {
    let s = ScriptSection::new("s1", "首先我们来讨论整个数据库系统，然后看一下它的架构。");
    assert_eq!(s.prompt, "首先我们来讨论整个数据库…");
    assert_eq!(s.minimal, "首先我们来讨… · 然后看一下它…");
    // all three levels have text, never blank
    assert!(!s.text(ScriptLevel::Minimal).is_empty());
}

#[test]
fn empty_level_falls_back() {
    let mut s = ScriptSection::new("s1", "完整内容");
    s.prompt = "  ".into();
    s.minimal = String::new();
    assert_eq!(s.text(ScriptLevel::Prompt), "完整内容");
    assert_eq!(s.text(ScriptLevel::Minimal), "完整内容");
}

fn sample_stroke() -> Stroke {
    let mut s = Stroke::new("st1", "p1", "#e11d48", r(3.0));
    for (x, y, t) in [(10.0, 10.0, 1.0), (20.0, 10.0, 2.0), (30.0, 10.0, 3.0)] {
        s.push(r(x), r(y), r(t));
    }
    s
}

#[test]
fn point_count_prefix() {
    let s = sample_stroke();
    assert_eq!(s.point_count_at(r(0.5)), 0);
    assert_eq!(s.point_count_at(r(1.0)), 1);
    assert_eq!(s.point_count_at(r(1.5)), 1);
    assert_eq!(s.point_count_at(r(3.0)), 3);
    assert_eq!(s.point_count_at(r(99.0)), 3);
}

#[test]
fn draw_order_respects_z_then_insertion() {
    let mut p = Page::new("p1", "第一页");
    let mut a = Element::text("a", r(0.0), r(0.0), r(10.0), r(10.0), "a");
    let mut b = Element::text("b", r(0.0), r(0.0), r(10.0), r(10.0), "b");
    let c = Element::text("c", r(0.0), r(0.0), r(10.0), r(10.0), "c");
    a.z = 5;
    b.z = 5;
    p.elements = vec![a, b, c];
    // c (z = 0) is drawn first, then a and b (z = 5), a before b
    assert_eq!(p.draw_order(), vec![2, 0, 1]);
    assert_eq!(p.next_z(), 6);
}

#[test]
fn hex_colors_inside_a_character_are_outside_the_domain() {
    assert_eq!(hex_color_checked("#abc"), Some(Some((170, 187, 204, 255))));
    assert_eq!(hex_color_checked("#+f+8+0"), Some(None));
    assert_eq!(hex_color_checked("nope"), Some(None));
    // slicing the first field would cut a three-byte character
    assert_eq!(hex_color_checked("#中"), None);
    // the first field is not hex, so the reading stops before the cut
    assert_eq!(hex_color_checked("#zz中x"), Some(None));
    assert_eq!(hex_color_checked("#ab中x"), None);
}

#[test]
fn white_space_matches_std_for_every_char() {
    for u in 0u32..=0x10FFFF {
        if let Some(c) = char::from_u32(u) {
            assert_eq!(slidetrace::text::is_whitespace(c), c.is_whitespace(), "U+{:04X}", u);
        }
    }
    assert!(slidetrace::text::is_blank(" \u{3000}\t\u{2028}"));
    assert!(!slidetrace::text::is_blank(" x "));
    assert!(slidetrace::text::str_eq("讲稿", "讲稿"));
    assert!(!slidetrace::text::str_eq("讲稿", "讲"));
    assert!(!slidetrace::text::str_eq("ab", "ac"));
}

#[test]
fn clamp_size_raises_to_the_minimum() {
    let mut e = slidetrace::model::element::Element::text(
        "el1",
        Real::from_bits(10.0f64.to_bits()),
        Real::from_bits(20.0f64.to_bits()),
        Real::from_bits(100.0f64.to_bits()),
        Real::from_bits(50.0f64.to_bits()),
        "hi",
    );
    e.w = Real::from_bits((-5.0f64).to_bits());
    e.h = Real::from_bits(0.0f64.to_bits());
    e.clamp_size(Real::from_bits(4.0f64.to_bits()), Real::from_bits(4.0f64.to_bits()));
    assert_eq!((f64::from_bits(e.w.bits), f64::from_bits(e.h.bits)), (4.0, 4.0));
    e.clamp_size(Real::from_bits(2.0f64.to_bits()), Real::from_bits(9.0f64.to_bits()));
    assert_eq!((f64::from_bits(e.w.bits), f64::from_bits(e.h.bits)), (4.0, 9.0));
}

#[test]
fn unix_time_texts_sort_as_the_times() {
    let times: [u64; 8] = [0, 59, 86_399, 86_400, 951_782_400, 1_709_210_096, 4_102_444_800, 253_402_300_799];
    let texts: Vec<String> = times.iter().map(|&t| format_unix_time(t)).collect();
    for t in &texts {
        assert_eq!(t.chars().count(), 19);
    }
    for w in texts.windows(2) {
        assert!(w[0] < w[1], "{} < {}", w[0], w[1]);
    }
    assert_eq!(texts[4], "2000-02-29 00:00:00");
    assert_eq!(texts[7], "9999-12-31 23:59:59");
}

#[test]
fn hex_colours_take_hex_digits_only() {
    assert_eq!(parse_hex_color("#+f+f+f"), None);
    assert_eq!(parse_hex_color("#+fffff"), None);
    assert_eq!(parse_hex_color("#ff+fff"), None);
    assert_eq!(parse_hex_color("#12345g"), None);
    assert_eq!(parse_hex_color("#ABCDEF"), Some((171, 205, 239, 255)));
}

#[test]
fn slug_fallback_uses_the_given_time() {
    assert_eq!(slidetrace::model::slug_or_fallback("架构分享", 1_700_000_123), "project-1700000123");
    assert_eq!(slidetrace::model::slug_or_fallback("My Talk!", 5), "my-talk");
    assert_eq!(slidetrace::model::slug_or_fallback("--", 0), "project-0");
}

#[test]
fn timestamped_constructors_take_the_given_time() {
    let p = Project::new_at("架构分享", 42);
    assert_eq!(p.id, "project-42");
    assert_eq!((p.created_at_unix, p.updated_at_unix), (42, 42));
    let mut q = Project::new_at("Plan", 7);
    assert_eq!(q.id, "plan");
    q.touch_at(99);
    assert_eq!((q.created_at_unix, q.updated_at_unix), (7, 99));
    let a = slidetrace::model::asset::AssetRef::new_at("a.png", 3, 4, 11);
    assert_eq!((a.added_at_unix, a.width, a.height), (11, 3, 4));
    let r = Rehearsal::new_at("r1", "演练", "p1", 12);
    assert_eq!(r.created_at_unix, 12);
}
