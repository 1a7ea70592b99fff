use slidetrace::cli::{first_startup_step, next_startup_step, parse_args, Mode, StartupOutcome, DEFAULT_SCREENSHOT_DELAY_MS};
use slidetrace::model::page::Page;
use slidetrace::model::project::Project;
use slidetrace::model::rehearsal::{AudioRef, Rehearsal, RehearsalMeta};
use slidetrace::model::script::{compact, keywords, split_clauses, truncate_chars};
use slidetrace::model::stroke::Stroke;
use slidetrace::scalar::Real;
use slidetrace::storage::{
    asset_candidate, finish_loaded_rehearsal, latest_rehearsal_id, prepare_opened_project, prepare_rehearsal_for_save, slug_candidate,
    sort_project_list, upsert_rehearsal_meta, StorageError, Store,
};
use slidetrace::text::parse_unsigned;
use slidetrace::timeline::{is_sorted, TimelineEvent, TimelineInput};

fn r(x: f64) -> Real {
    Real::from_bits(x.to_bits())
}

fn f(v: Real) -> f64 {
    f64::from_bits(v.bits)
}

fn args(list: &[&str]) -> Vec<String> {
    list.iter().map(|s| s.to_string()).collect()
}

#[test]
fn parse_args_defaults_and_values() {
    let a = parse_args(&[]).unwrap().unwrap();
    assert_eq!(a.root, None);
    assert_eq!(a.screenshot_mode, Mode::Create);
    assert_eq!(a.screenshot_delay_ms, DEFAULT_SCREENSHOT_DELAY_MS);
    assert!(!a.reset && !a.selftest);

    let a = parse_args(&args(&[
        "--root",
        "/tmp/x",
        "--project",
        "talk",
        "--reset",
        "--screenshot",
        "out.png",
        "--screenshot-mode",
        "review",
        "--screenshot-delay",
        "250",
        "--screenshot-crop",
        " 1, 2 ,30,40",
        "--selftest",
    ]))
    .unwrap()
    .unwrap();
    assert_eq!(a.root.as_deref(), Some("/tmp/x"));
    assert_eq!(a.project.as_deref(), Some("talk"));
    assert!(a.reset);
    assert_eq!(a.screenshot.as_deref(), Some("out.png"));
    assert_eq!(a.screenshot_mode, Mode::Review);
    assert_eq!(a.screenshot_delay_ms, 250);
    assert_eq!(a.screenshot_crop, Some((1, 2, 30, 40)));
    assert!(a.selftest);
}

#[test]
fn parse_args_help_and_errors() {
    assert!(parse_args(&args(&["-h"])).unwrap().is_none());
    assert!(parse_args(&args(&["--reset", "--help", "--bogus"])).unwrap().is_none());
    assert_eq!(parse_args(&args(&["--root"])).unwrap_err(), "--root 缺少参数值");
    assert_eq!(parse_args(&args(&["--bogus"])).unwrap_err(), "未知参数：--bogus");
    assert_eq!(parse_args(&args(&["--screenshot-mode", "draw"])).unwrap_err(), "未知模式：draw");
    assert_eq!(parse_args(&args(&["--screenshot-delay", "-3"])).unwrap_err(), "不是合法毫秒数：-3");
    assert_eq!(
        parse_args(&args(&["--screenshot-crop", "1,2,3"])).unwrap_err(),
        "--screenshot-crop 需要 x,y,w,h 四个整数：1,2,3"
    );
    assert_eq!(
        parse_args(&args(&["--screenshot-crop", "1,2,3,x"])).unwrap_err(),
        "--screenshot-crop 需要 x,y,w,h 四个整数：1,2,3,x"
    );
    assert_eq!(parse_args(&args(&["--screenshot-crop"])).unwrap_err(), "--screenshot-crop 缺少参数值");
}

#[test]
fn mode_from_index_maps_tabs() {
    assert_eq!(Mode::from_index(0), Mode::Create);
    assert_eq!(Mode::from_index(1), Mode::Rehearse);
    assert_eq!(Mode::from_index(2), Mode::Review);
    assert_eq!(Mode::from_index(3), Mode::Present);
    assert_eq!(Mode::from_index(-7), Mode::Create);
}

#[test]
fn unsigned_numbers_parse_like_std() {
    assert_eq!(parse_unsigned("250", u64::MAX), Some(250));
    assert_eq!(parse_unsigned("+7", u64::MAX), Some(7));
    assert_eq!(parse_unsigned("007", u64::MAX), Some(7));
    assert_eq!(parse_unsigned("18446744073709551615", u64::MAX), Some(u64::MAX));
    assert_eq!(parse_unsigned("18446744073709551616", u64::MAX), None);
    assert_eq!(parse_unsigned("4294967296", u32::MAX as u64), None);
    assert_eq!(parse_unsigned("", u64::MAX), None);
    assert_eq!(parse_unsigned("+", u64::MAX), None);
    assert_eq!(parse_unsigned("1 ", u64::MAX), None);
    for s in ["0", "42", "+9", "99999999999", "x1", "-1"] {
        assert_eq!(parse_unsigned(s, u64::MAX), s.parse::<u64>().ok());
    }
}

#[test]
fn clauses_prompts_and_keywords() {
    assert_eq!(split_clauses("甲，乙。 丙 !"), vec!["甲", "乙", "丙"]);
    assert_eq!(split_clauses("  ，。 "), vec!["，。"]);
    assert_eq!(split_clauses("no stop"), vec!["no stop"]);
    assert_eq!(truncate_chars("abcdef", 3), "abc…");
    assert_eq!(truncate_chars("abc", 3), "abc");
    assert_eq!(compact("短句。再来一句。第三句", 12), "短句 再来一句");
    assert_eq!(compact("", 12), "");
    assert_eq!(keywords("一二三四五六七，八九", 3), "一二三四五六… · 八九");
}

#[test]
fn store_paths_join_under_root() {
    let s = Store::new("/data/slidetrace");
    assert_eq!(s.root(), "/data/slidetrace");
    assert_eq!(s.projects_dir(), "/data/slidetrace/projects");
    assert_eq!(s.project_dir("my-talk"), "/data/slidetrace/projects/my-talk");
}

#[test]
fn slug_candidates_count_from_two() {
    assert_eq!(slug_candidate("same-name", 2), "same-name-2");
    assert_eq!(slug_candidate("x", 10), "x-10");
}

#[test]
fn storage_error_messages() {
    assert_eq!(StorageError::NotFound("a/b".into()).message(), "找不到：a/b");
    assert_eq!(StorageError::Version(6).message(), "项目文件版本 6 高于本程序支持的 1");
    assert_eq!(StorageError::Io("denied".into()).message(), "文件读写失败：denied");
    assert_eq!(StorageError::Json("eof".into()).message(), "JSON 解析失败：eof");
    assert_eq!(StorageError::Message("无效的文件名".into()).message(), "无效的文件名");
}

fn meta(id: &str, at: u64) -> RehearsalMeta {
    let mut reh = Rehearsal::new(id, id, "p1");
    reh.created_at_unix = at;
    RehearsalMeta::from_rehearsal(&reh)
}

#[test]
fn opening_rejects_newer_schema_and_sorts_rehearsals() {
    let mut p = Project::new("Talk");
    p.schema_version = 6;
    assert!(matches!(prepare_opened_project(p), Err(StorageError::Version(6))));

    let mut p = Project::new("Talk");
    p.rehearsals = vec![meta("r3", 30), meta("r1", 10), meta("r2", 10)];
    let opened = prepare_opened_project(p).ok().unwrap();
    let ids: Vec<&str> = opened.rehearsals.iter().map(|m| m.id.as_str()).collect();
    assert_eq!(ids, vec!["r1", "r2", "r3"]);
}

#[test]
fn saving_a_rehearsal_replaces_its_summary_and_orders_the_list() {
    let mut metas = vec![meta("r2", 20), meta("r1", 10)];
    let mut again = meta("r2", 5);
    again.stroke_count = 9;
    upsert_rehearsal_meta(&mut metas, again);
    let view: Vec<(&str, u64, usize)> =
        metas.iter().map(|m| (m.id.as_str(), m.created_at_unix, m.stroke_count)).collect();
    assert_eq!(view, vec![("r2", 5, 9), ("r1", 10, 0)]);

    upsert_rehearsal_meta(&mut metas, meta("r0", 10));
    let ids: Vec<&str> = metas.iter().map(|m| m.id.as_str()).collect();
    assert_eq!(ids, vec!["r2", "r0", "r1"]);
    assert_eq!(latest_rehearsal_id(&metas).as_deref(), Some("r1"));
    assert_eq!(latest_rehearsal_id(&[]), None);
}

#[test]
fn project_listing_is_sorted_by_id_then_name() {
    let list = vec![
        ("beta".to_string(), "B".to_string()),
        ("alpha".to_string(), "Z".to_string()),
        ("alpha".to_string(), "A".to_string()),
        ("Alpha".to_string(), "Q".to_string()),
    ];
    let sorted = sort_project_list(&list);
    let mut expected = list.clone();
    expected.sort();
    assert_eq!(sorted, expected);
}

#[test]
fn saved_and_loaded_rehearsals_are_normalised() {
    let mut reh = Rehearsal::new("r1", "演练", "p1");
    reh.push_event(TimelineEvent::Reveal { element_id: "el1".into(), t: r(8.42) });
    reh.events.push(TimelineEvent::PageChange { page_id: "p1".into(), t: r(0.0) });
    assert!(!is_sorted(&reh.events));
    let saved = prepare_rehearsal_for_save(reh.clone());
    assert!(is_sorted(&saved.events));

    let mut s = Stroke::new("st1", "p1", "#e11d48", r(3.0));
    s.push(r(10.0), r(10.0), r(12.01));
    s.push(r(20.0), r(15.0), r(12.08));
    s.start_time = r(0.0);
    s.end_time = r(0.0);
    reh.strokes.push(s);
    reh.audio = Some(AudioRef::mic(44_100, 2, 44_100 * 2 * 5));
    let kept = finish_loaded_rehearsal(reh.clone(), true);
    assert!(kept.audio.is_some());
    assert!(is_sorted(&kept.events));
    assert_eq!(f(kept.strokes[0].start_time), 12.01);
    assert_eq!(f(kept.strokes[0].end_time), 12.08);
    let dropped = finish_loaded_rehearsal(reh, false);
    assert!(dropped.audio.is_none());
}

#[test]
fn timeline_input_starts_on_the_rehearsal_page() {
    let mut p = Project::new("Talk");
    p.pages.push(Page::new("p2", "第 2 页"));
    p.current_page = 7;
    // no rehearsal: the current page, clamped to the last page
    let input = TimelineInput::new(&p, None);
    assert_eq!(input.start_page_index, 1);
    assert!(input.events.is_empty());
    let reh = Rehearsal::new("r1", "演练", "p2");
    let input = TimelineInput::new(&p, Some(&reh));
    assert_eq!(input.start_page_index, 1);
    let reh = Rehearsal::new("r1", "演练", "p1");
    let input = TimelineInput::new(&p, Some(&reh));
    assert_eq!(input.start_page_index, 0);
}

#[test]
fn project_lookups() {
    let mut p = Project::new("Talk");
    let pid = p.add_page();
    assert_eq!(p.pages[1].name, "第 2 页");
    assert_eq!(p.page(&pid).map(|pg| pg.id.as_str()), Some(pid.as_str()));
    assert_eq!(p.current_page_id(), "p1");
    p.current_page = 5;
    assert_eq!(p.current_page_id(), "");
    assert!(p.current_page_ref().is_none());
    p.current_page = 1;
    if let Some(page) = p.page_mut(&pid) {
        page.note = "changed".into();
    }
    assert_eq!(p.pages[1].note, "changed");
    assert!(p.remove_page(1));
    assert_eq!(p.current_page, 0);
    assert!(p.find_element("el1").is_none());
    assert!(p.asset("none.png").is_none());
}

fn run_startup(argv: &[&str], outcomes: &[StartupOutcome]) -> Vec<String> {
    let a = parse_args(&args(argv)).unwrap().unwrap();
    let mut step = first_startup_step(&a);
    let mut seen = vec![format!("{:?}", step)];
    for o in outcomes {
        step = next_startup_step(&step, o, &a);
        seen.push(format!("{:?}", step));
    }
    seen
}

#[test]
fn startup_opens_first_existing_project() {
    let seen = run_startup(
        &[],
        &[
            StartupOutcome::Succeeded,
            StartupOutcome::Listed { first: Some("alpha".to_owned()) },
            StartupOutcome::Succeeded,
        ],
    );
    assert_eq!(
        seen,
        vec!["EnsureRoot", "ListProjects", "OpenExisting { slug: \"alpha\" }", "Ready"]
    );
}

#[test]
fn startup_falls_back_to_demo_then_blank_project() {
    let seen = run_startup(
        &["--reset", "--project", "gone"],
        &[
            StartupOutcome::Succeeded,
            StartupOutcome::Succeeded,
            StartupOutcome::Failed,
            StartupOutcome::Listed { first: None },
            StartupOutcome::Failed,
            StartupOutcome::Failed,
            StartupOutcome::Succeeded,
        ],
    );
    assert_eq!(
        seen,
        vec![
            "ClearProjects",
            "EnsureRoot",
            "OpenRequested { slug: \"gone\" }",
            "ListProjects",
            "InstallDemo",
            "CreateBlank { name: \"未命名项目\" }",
            "GiveUp",
            "GiveUp",
        ]
    );
}

#[test]
fn startup_opens_requested_project() {
    let seen = run_startup(&["--project", "talk"], &[StartupOutcome::Failed, StartupOutcome::Succeeded]);
    assert_eq!(seen, vec!["EnsureRoot", "OpenRequested { slug: \"talk\" }", "Ready"]);
    let seen = run_startup(&[], &[StartupOutcome::Succeeded, StartupOutcome::Listed { first: None }, StartupOutcome::Succeeded]);
    assert_eq!(seen, vec!["EnsureRoot", "ListProjects", "InstallDemo", "Ready"]);
}

#[test]
fn asset_candidates_keep_the_extension() {
    assert_eq!(asset_candidate("figure.png", 2), "figure-2.png");
    assert_eq!(asset_candidate("figure.png", 3), "figure-3.png");
    assert_eq!(asset_candidate("archive.tar.gz", 2), "archive.tar-2.gz");
    assert_eq!(asset_candidate("README", 2), "README-2");
    assert_eq!(asset_candidate(".hidden", 2), ".hidden-2");
    assert_eq!(asset_candidate("trailing.", 4), "trailing-4.");
    assert_eq!(asset_candidate("图片.jpeg", 10), "图片-10.jpeg");
    assert_eq!(asset_candidate("", 2), "asset-2");
}

fn event_summary(events: &[TimelineEvent]) -> Vec<String> {
    events.iter().map(|e| format!("{:?}", e)).collect()
}

#[test]
fn reading_back_a_saved_rehearsal_keeps_its_events() {
    let mut reh = Rehearsal::new("r2", "演练", "p1");
    reh.events.push(TimelineEvent::Marker { label: "M1".into(), t: r(5.0) });
    reh.events.push(TimelineEvent::Reveal { element_id: "el2".into(), t: r(5.0) });
    reh.events.push(TimelineEvent::ScriptMark { section_id: "s1".into(), t: r(5.0) });
    reh.events.push(TimelineEvent::PageChange { page_id: "p1".into(), t: r(0.0) });
    reh.events.push(TimelineEvent::Reveal { element_id: "el1".into(), t: r(5.0) });
    let saved = prepare_rehearsal_for_save(reh);
    assert_eq!(
        event_summary(&saved.events),
        vec![
            "PageChange { page_id: \"p1\", t: Real { bits: 0 } }".to_string(),
            format!("ScriptMark {{ section_id: \"s1\", t: Real {{ bits: {} }} }}", 5.0f64.to_bits()),
            format!("Reveal {{ element_id: \"el2\", t: Real {{ bits: {} }} }}", 5.0f64.to_bits()),
            format!("Reveal {{ element_id: \"el1\", t: Real {{ bits: {} }} }}", 5.0f64.to_bits()),
            format!("Marker {{ label: \"M1\", t: Real {{ bits: {} }} }}", 5.0f64.to_bits()),
        ]
    );
    let loaded = finish_loaded_rehearsal(saved.clone(), true);
    assert_eq!(event_summary(&loaded.events), event_summary(&saved.events));
}

#[test]
fn project_slug_attempts_count_from_two() {
    assert_eq!(slidetrace::storage::project_slug_attempt("Same Name", 0, 9), "same-name");
    assert_eq!(slidetrace::storage::project_slug_attempt("Same Name", 1, 9), "same-name-2");
    assert_eq!(slidetrace::storage::project_slug_attempt("Same Name", 2, 9), "same-name-3");
    assert_eq!(slidetrace::storage::project_slug_attempt("未来版本", 0, 77), "project-77");
    assert_eq!(slidetrace::storage::project_slug_attempt("未来版本", 1, 77), "project-77-2");
}
