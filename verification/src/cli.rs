//! The command line of the desktop program: options, their defaults and
//! how the argument list is read.
use vstd::prelude::*;

use crate::text::{chars_of, parse_unsigned, parsed_unsigned, push_str, str_eq, trim_chars, trim_seq};

verus! {

/// The four working modes of the program.
#[derive(Clone, Copy, Debug, PartialEq, Eq, Structural)]
pub enum Mode {
    Create,
    Rehearse,
    Review,
    Present,
}

impl Mode {
    /// The mode with the given tab index (0 create, 1 rehearse, 2 review,
    /// 3 present); any other index is the create mode.
    pub fn from_index(i: i32) -> (m: Mode)
        ensures
            m == (if i == 1 {
                Mode::Rehearse
            } else if i == 2 {
                Mode::Review
            } else if i == 3 {
                Mode::Present
            } else {
                Mode::Create
            }),
    {
        match i {
            1 => Mode::Rehearse,
            2 => Mode::Review,
            3 => Mode::Present,
            _ => Mode::Create,
        }
    }
}

/// How long to wait before a screenshot when no delay is given.
pub const DEFAULT_SCREENSHOT_DELAY_MS: u64 = 1500;

/// The options given on the command line.
#[derive(Clone, Debug)]
pub struct Args {
    /// Overrides the project root directory.
    pub root: Option<String>,
    /// The project (slug) to open at start.
    pub project: Option<String>,
    /// Empty the project root and rebuild the demo project.
    pub reset: bool,
    /// Write a screenshot to this PNG file and exit.
    pub screenshot: Option<String>,
    pub screenshot_mode: Mode,
    /// Milliseconds to wait before the screenshot.
    pub screenshot_delay_ms: u64,
    /// Only export this rectangle (x, y, w, h) of the screenshot.
    pub screenshot_crop: Option<(u32, u32, u32, u32)>,
    /// Run the self-test and exit.
    pub selftest: bool,
}

/// The options as plain values.
pub struct ArgsModel {
    pub root: Option<Seq<char>>,
    pub project: Option<Seq<char>>,
    pub reset: bool,
    pub screenshot: Option<Seq<char>>,
    pub screenshot_mode: Mode,
    pub screenshot_delay_ms: u64,
    pub screenshot_crop: Option<(u32, u32, u32, u32)>,
    pub selftest: bool,
}

/// The characters of an optional string.
pub open spec fn opt_view(o: Option<String>) -> Option<Seq<char>> {
    match o {
        Some(s) => Some(s@),
        None => None,
    }
}

impl Args {
    /// The options as plain values.
    pub open spec fn model(&self) -> ArgsModel {
        ArgsModel {
            root: opt_view(self.root),
            project: opt_view(self.project),
            reset: self.reset,
            screenshot: opt_view(self.screenshot),
            screenshot_mode: self.screenshot_mode,
            screenshot_delay_ms: self.screenshot_delay_ms,
            screenshot_crop: self.screenshot_crop,
            selftest: self.selftest,
        }
    }
}

/// The options before any argument is read.
pub open spec fn default_model() -> ArgsModel {
    ArgsModel {
        root: None,
        project: None,
        reset: false,
        screenshot: None,
        screenshot_mode: Mode::Create,
        screenshot_delay_ms: DEFAULT_SCREENSHOT_DELAY_MS,
        screenshot_crop: None,
        selftest: false,
    }
}

impl Default for Args {
    fn default() -> (r: Self)
        ensures
            r.model() == default_model(),
    {
        Args {
            root: None,
            project: None,
            reset: false,
            screenshot: None,
            screenshot_mode: Mode::Create,
            screenshot_delay_ms: DEFAULT_SCREENSHOT_DELAY_MS,
            screenshot_crop: None,
            selftest: false,
        }
    }
}

/// The mode called `v` on the command line.
pub open spec fn mode_named(v: Seq<char>) -> Option<Mode> {
    if v == "create"@ {
        Some(Mode::Create)
    } else if v == "rehearse"@ {
        Some(Mode::Rehearse)
    } else if v == "review"@ {
        Some(Mode::Review)
    } else if v == "present"@ {
        Some(Mode::Present)
    } else {
        None
    }
}

/// `s` cut at every comma (an empty string gives one empty piece).
pub open spec fn split_commas(s: Seq<char>) -> Seq<Seq<char>>
    decreases s.len(),
{
    if s.len() == 0 {
        seq![Seq::empty()]
    } else {
        let r = split_commas(s.drop_last());
        if s.last() == ',' {
            r.push(Seq::empty())
        } else {
            r.update(r.len() - 1, r.last().push(s.last()))
        }
    }
}

/// Every piece, trimmed, is a `u32`.
pub open spec fn all_u32(parts: Seq<Seq<char>>) -> bool {
    forall|i: int| 0 <= i < parts.len() ==> (#[trigger] parsed_unsigned(trim_seq(parts[i]), u32::MAX as nat)) is Some
}

/// The `u32` value of a piece that parses.
pub open spec fn u32_of(p: Seq<char>) -> u32 {
    parsed_unsigned(trim_seq(p), u32::MAX as nat).unwrap() as u32
}

/// The rectangle `x,y,w,h`: four comma-separated `u32` values, each
/// possibly surrounded by white space.
pub open spec fn crop_values(v: Seq<char>) -> Option<(u32, u32, u32, u32)> {
    let parts = split_commas(v);
    if all_u32(parts) && parts.len() == 4 {
        Some((u32_of(parts[0]), u32_of(parts[1]), u32_of(parts[2]), u32_of(parts[3])))
    } else {
        None
    }
}

/// Reading the arguments from position `i` on, with the options read so
/// far in `a`: `Ok(None)` asks for the help text, `Err` carries the message.
pub open spec fn parse_from(argv: Seq<Seq<char>>, i: int, a: ArgsModel) -> Result<Option<ArgsModel>, Seq<char>>
    decreases argv.len() - i,
{
    if i < 0 || i >= argv.len() {
        Ok(Some(a))
    } else {
        let arg = argv[i];
        let has_value = i + 1 < argv.len();
        let v = if has_value {
            argv[i + 1]
        } else {
            Seq::empty()
        };
        if arg == "--root"@ {
            if has_value {
                parse_from(argv, i + 2, ArgsModel { root: Some(v), ..a })
            } else {
                Err("--root 缺少参数值"@)
            }
        } else if arg == "--project"@ {
            if has_value {
                parse_from(argv, i + 2, ArgsModel { project: Some(v), ..a })
            } else {
                Err("--project 缺少参数值"@)
            }
        } else if arg == "--reset"@ {
            parse_from(argv, i + 1, ArgsModel { reset: true, ..a })
        } else if arg == "--screenshot"@ {
            if has_value {
                parse_from(argv, i + 2, ArgsModel { screenshot: Some(v), ..a })
            } else {
                Err("--screenshot 缺少参数值"@)
            }
        } else if arg == "--screenshot-mode"@ {
            if has_value {
                match mode_named(v) {
                    Some(m) => parse_from(argv, i + 2, ArgsModel { screenshot_mode: m, ..a }),
                    None => Err("未知模式："@ + v),
                }
            } else {
                Err("--screenshot-mode 缺少参数值"@)
            }
        } else if arg == "--screenshot-delay"@ {
            if has_value {
                match parsed_unsigned(v, u64::MAX as nat) {
                    Some(ms) => parse_from(argv, i + 2, ArgsModel { screenshot_delay_ms: ms as u64, ..a }),
                    None => Err("不是合法毫秒数："@ + v),
                }
            } else {
                Err("--screenshot-delay 缺少参数值"@)
            }
        } else if arg == "--screenshot-crop"@ {
            if has_value {
                match crop_values(v) {
                    Some(c) => parse_from(argv, i + 2, ArgsModel { screenshot_crop: Some(c), ..a }),
                    None => Err("--screenshot-crop 需要 x,y,w,h 四个整数："@ + v),
                }
            } else {
                Err("--screenshot-crop 缺少参数值"@)
            }
        } else if arg == "--selftest"@ {
            parse_from(argv, i + 1, ArgsModel { selftest: true, ..a })
        } else if arg == "-h"@ || arg == "--help"@ {
            Ok(None)
        } else {
            Err("未知参数："@ + arg)
        }
    }
}

/// The result of reading the whole argument list.
pub open spec fn parse_outcome(argv: Seq<Seq<char>>) -> Result<Option<ArgsModel>, Seq<char>> {
    parse_from(argv, 0, default_model())
}

/// Cuts `v` at every comma.
fn split_at_commas(v: &Vec<char>) -> (r: Vec<Vec<char>>)
    ensures
        r@.map_values(|p: Vec<char>| p@) == split_commas(v@),
{
    let mut out: Vec<Vec<char>> = Vec::new();
    let mut cur: Vec<char> = Vec::new();
    let mut i: usize = 0;
    proof {
        assert(v@.take(0) =~= Seq::<char>::empty());
        assert(out@.map_values(|p: Vec<char>| p@).push(cur@) =~= split_commas(v@.take(0)));
    }
    while i < v.len()
        invariant
            i <= v@.len(),
            out@.map_values(|p: Vec<char>| p@).push(cur@) == split_commas(v@.take(i as int)),
        decreases v@.len() - i,
    {
        proof {
            assert(v@.take(i + 1).drop_last() =~= v@.take(i as int));
        }
        let c = v[i];
        let ghost before = out@.map_values(|p: Vec<char>| p@).push(cur@);
        if c == ',' {
            let done = cur;
            cur = Vec::new();
            out.push(done);
            proof {
                assert(out@.map_values(|p: Vec<char>| p@).push(cur@) =~= before.push(Seq::empty()));
            }
        } else {
            cur.push(c);
            proof {
                assert(out@.map_values(|p: Vec<char>| p@).push(cur@) =~= before.update(
                    before.len() - 1,
                    before.last().push(c),
                ));
            }
        }
        i = i + 1;
    }
    proof {
        assert(v@.take(i as int) =~= v@);
    }
    let ghost before = out@.map_values(|p: Vec<char>| p@);
    out.push(cur);
    proof {
        assert(out@.map_values(|p: Vec<char>| p@) =~= before.push(cur@));
    }
    out
}

/// Reads `x,y,w,h` (see [`crop_values`]).
fn parse_crop(v: &str) -> (r: Option<(u32, u32, u32, u32)>)
    ensures
        r == crop_values(v@),
{
    let cs = chars_of(v);
    let parts = split_at_commas(&cs);
    let ghost sp = split_commas(v@);
    proof {
        assert(parts@.len() == sp.len());
        assert forall|k: int| 0 <= k < parts@.len() implies #[trigger] parts@[k]@ == sp[k] by {
            assert(parts@.map_values(|p: Vec<char>| p@)[k] == parts@[k]@);
        }
    }
    let mut nums: Vec<u32> = Vec::new();
    let mut k: usize = 0;
    while k < parts.len()
        invariant
            sp == split_commas(v@),
            parts@.len() == sp.len(),
            forall|q: int| 0 <= q < parts@.len() ==> #[trigger] parts@[q]@ == sp[q],
            k <= parts@.len(),
            nums@.len() == k,
            forall|q: int| 0 <= q < k ==> (#[trigger] parsed_unsigned(trim_seq(sp[q]), u32::MAX as nat)) is Some,
            forall|q: int| 0 <= q < k ==> #[trigger] nums@[q] == u32_of(sp[q]),
        decreases parts@.len() - k,
    {
        let t = trim_chars(&parts[k]);
        match parse_unsigned(t.as_str(), 0xFFFF_FFFF) {
            Some(n) => {
                nums.push(n as u32);
            },
            None => {
                proof {
                    assert(!all_u32(sp));
                }
                return None;
            },
        }
        k = k + 1;
    }
    if nums.len() != 4 {
        return None;
    }
    Some((nums[0], nums[1], nums[2], nums[3]))
}

/// Reads the command line (without the program name). `Ok(None)` means
/// the help text was asked for; `Err` carries the message to show.
pub fn parse_args(argv: &[String]) -> (r: Result<Option<Args>, String>)
    ensures
        match (r, parse_outcome(argv@.map_values(|s: String| s@))) {
            (Ok(Some(a)), Ok(Some(m))) => a.model() == m,
            (Ok(None), Ok(None)) => true,
            (Err(e), Err(m)) => e@ == m,
            _ => false,
        },
{
    let ghost args = argv@.map_values(|s: String| s@);
    let mut a = Args::default();
    let mut i: usize = 0;
    while i < argv.len()
        invariant
            args == argv@.map_values(|s: String| s@),
            i <= argv@.len(),
            parse_outcome(args) == parse_from(args, i as int, a.model()),
        decreases argv@.len() - i,
    {
        let arg = argv[i].as_str();
        let has_value = i + 1 < argv.len();
        proof {
            assert(args[i as int] == argv@[i as int]@);
            if has_value {
                assert(args[i + 1] == argv@[i + 1]@);
            }
        }
        if str_eq(arg, "--root") {
            if !has_value {
                return Err("--root 缺少参数值".to_owned());
            }
            a.root = Some(argv[i + 1].clone());
            i = i + 2;
        } else if str_eq(arg, "--project") {
            if !has_value {
                return Err("--project 缺少参数值".to_owned());
            }
            a.project = Some(argv[i + 1].clone());
            i = i + 2;
        } else if str_eq(arg, "--reset") {
            a.reset = true;
            i = i + 1;
        } else if str_eq(arg, "--screenshot") {
            if !has_value {
                return Err("--screenshot 缺少参数值".to_owned());
            }
            a.screenshot = Some(argv[i + 1].clone());
            i = i + 2;
        } else if str_eq(arg, "--screenshot-mode") {
            if !has_value {
                return Err("--screenshot-mode 缺少参数值".to_owned());
            }
            let v = argv[i + 1].as_str();
            if str_eq(v, "create") {
                a.screenshot_mode = Mode::Create;
            } else if str_eq(v, "rehearse") {
                a.screenshot_mode = Mode::Rehearse;
            } else if str_eq(v, "review") {
                a.screenshot_mode = Mode::Review;
            } else if str_eq(v, "present") {
                a.screenshot_mode = Mode::Present;
            } else {
                let mut e = "未知模式：".to_owned();
                push_str(&mut e, v);
                return Err(e);
            }
            i = i + 2;
        } else if str_eq(arg, "--screenshot-delay") {
            if !has_value {
                return Err("--screenshot-delay 缺少参数值".to_owned());
            }
            let v = argv[i + 1].as_str();
            match parse_unsigned(v, 0xFFFF_FFFF_FFFF_FFFF) {
                Some(ms) => {
                    a.screenshot_delay_ms = ms;
                },
                None => {
                    let mut e = "不是合法毫秒数：".to_owned();
                    push_str(&mut e, v);
                    return Err(e);
                },
            }
            i = i + 2;
        } else if str_eq(arg, "--screenshot-crop") {
            if !has_value {
                return Err("--screenshot-crop 缺少参数值".to_owned());
            }
            let v = argv[i + 1].as_str();
            match parse_crop(v) {
                Some(c) => {
                    a.screenshot_crop = Some(c);
                },
                None => {
                    let mut e = "--screenshot-crop 需要 x,y,w,h 四个整数：".to_owned();
                    push_str(&mut e, v);
                    return Err(e);
                },
            }
            i = i + 2;
        } else if str_eq(arg, "--selftest") {
            a.selftest = true;
            i = i + 1;
        } else if str_eq(arg, "-h") || str_eq(arg, "--help") {
            return Ok(None);
        } else {
            let mut e = "未知参数：".to_owned();
            push_str(&mut e, arg);
            return Err(e);
        }
    }
    Ok(Some(a))
}

/// The name of the empty project made when nothing else can be opened.
pub const BLANK_PROJECT_NAME: &'static str = "未命名项目";

/// A step of start-up, which ends with a project open. The program
/// performs each step and reports how it went (see [`next_startup_step`]).
#[derive(Clone, Debug)]
pub enum StartupStep {
    /// Empty the projects directory (`--reset`).
    ClearProjects,
    /// Make sure the root directory exists.
    EnsureRoot,
    /// Open the project named with `--project`.
    OpenRequested { slug: String },
    /// List the projects on disk.
    ListProjects,
    /// Open the first project listed.
    OpenExisting { slug: String },
    /// Install the demo project (first start).
    InstallDemo,
    /// Create an empty project with this name.
    CreateBlank { name: String },
    /// A project is open.
    Ready,
    /// Not even an empty project could be created.
    GiveUp,
}

/// How a start-up step went.
#[derive(Clone, Debug)]
pub enum StartupOutcome {
    /// It worked (after an open, an install or a create: a project is open).
    Succeeded,
    /// It failed.
    Failed,
    /// The projects on disk were listed; `first` is the slug of the first
    /// one, if there is one.
    Listed { first: Option<String> },
}

/// The position of a step in the start-up order; the two ends share the
/// last position.
pub open spec fn startup_rank(s: StartupStep) -> int {
    match s {
        StartupStep::ClearProjects => 0,
        StartupStep::EnsureRoot => 1,
        StartupStep::OpenRequested { .. } => 2,
        StartupStep::ListProjects => 3,
        StartupStep::OpenExisting { .. } => 4,
        StartupStep::InstallDemo => 5,
        StartupStep::CreateBlank { .. } => 6,
        StartupStep::Ready => 7,
        StartupStep::GiveUp => 7,
    }
}

/// Start-up is over.
pub open spec fn startup_done(s: StartupStep) -> bool {
    s is Ready || s is GiveUp
}

/// The step after the root is ready: the requested project, else the list.
pub open spec fn after_root(next: StartupStep, project: Option<Seq<char>>) -> bool {
    match project {
        Some(slug) => next matches StartupStep::OpenRequested { slug: s } && s@ == slug,
        None => next is ListProjects,
    }
}

/// `next` follows `step` when it went as `outcome` (`project` is the
/// `--project` option): a failed open falls back to the projects on disk,
/// then to the demo project, then to an empty project.
pub open spec fn startup_follows(
    step: StartupStep,
    outcome: StartupOutcome,
    project: Option<Seq<char>>,
    next: StartupStep,
) -> bool {
    match step {
        StartupStep::ClearProjects => next is EnsureRoot,
        StartupStep::EnsureRoot => after_root(next, project),
        StartupStep::OpenRequested { .. } => if outcome is Succeeded {
            next is Ready
        } else {
            next is ListProjects
        },
        StartupStep::ListProjects => match outcome {
            StartupOutcome::Listed { first: Some(f) } => next matches StartupStep::OpenExisting { slug } && slug@
                == f@,
            _ => next is InstallDemo,
        },
        StartupStep::OpenExisting { .. } => if outcome is Succeeded {
            next is Ready
        } else {
            next is InstallDemo
        },
        StartupStep::InstallDemo => if outcome is Succeeded {
            next is Ready
        } else {
            next matches StartupStep::CreateBlank { name } && name@ == BLANK_PROJECT_NAME@
        },
        StartupStep::CreateBlank { .. } => if outcome is Succeeded {
            next is Ready
        } else {
            next is GiveUp
        },
        StartupStep::Ready => next is Ready,
        StartupStep::GiveUp => next is GiveUp,
    }
}

/// A step and the one that follows it: start-up moves forward, and once
/// over it stays over.
pub proof fn lemma_startup_moves_forward(
    step: StartupStep,
    outcome: StartupOutcome,
    project: Option<Seq<char>>,
    next: StartupStep,
)
    requires
        startup_follows(step, outcome, project, next),
    ensures
        !startup_done(step) ==> startup_rank(step) < startup_rank(next),
        startup_done(step) ==> startup_done(next),
{
}

/// Start-up always ends: however each step goes, after seven steps a
/// project is open or start-up has given up.
pub proof fn lemma_startup_ends(steps: Seq<StartupStep>, outcomes: Seq<StartupOutcome>, project: Option<Seq<char>>)
    requires
        steps.len() == outcomes.len() + 1,
        outcomes.len() >= 7,
        forall|i: int| 0 <= i < outcomes.len() ==> startup_follows(#[trigger] steps[i], outcomes[i], project, steps[i + 1]),
    ensures
        startup_done(steps.last()),
{
    assert forall|k: int| 0 <= k < steps.len() implies startup_done(#[trigger] steps[k]) || startup_rank(steps[k]) >= k by {
        lemma_startup_progress(steps, outcomes, project, k);
    }
    assert(startup_done(steps[steps.len() - 1]) || startup_rank(steps[steps.len() - 1]) >= 7);
}

proof fn lemma_startup_progress(steps: Seq<StartupStep>, outcomes: Seq<StartupOutcome>, project: Option<Seq<char>>, k: int)
    requires
        steps.len() == outcomes.len() + 1,
        0 <= k < steps.len(),
        forall|i: int| 0 <= i < outcomes.len() ==> startup_follows(#[trigger] steps[i], outcomes[i], project, steps[i + 1]),
    ensures
        startup_done(steps[k]) || startup_rank(steps[k]) >= k,
    decreases k,
{
    if k > 0 {
        lemma_startup_progress(steps, outcomes, project, k - 1);
        assert(startup_follows(steps[k - 1], outcomes[k - 1], project, steps[k]));
        lemma_startup_moves_forward(steps[k - 1], outcomes[k - 1], project, steps[k]);
    }
}

/// The first start-up step: clearing the projects with `--reset`, else
/// making sure the root exists.
pub fn first_startup_step(args: &Args) -> (r: StartupStep)
    ensures
        if args.reset {
            r is ClearProjects
        } else {
            r is EnsureRoot
        },
{
    if args.reset {
        StartupStep::ClearProjects
    } else {
        StartupStep::EnsureRoot
    }
}

/// The step after `step` went as `outcome`. Each step before the end leads
/// to a later one, so start-up ends after at most seven steps.
pub fn next_startup_step(step: &StartupStep, outcome: &StartupOutcome, args: &Args) -> (r: StartupStep)
    ensures
        startup_follows(*step, *outcome, opt_view(args.project), r),
        !startup_done(*step) ==> startup_rank(*step) < startup_rank(r),
        startup_done(*step) ==> r == *step,
{
    match step {
        StartupStep::ClearProjects => StartupStep::EnsureRoot,
        StartupStep::EnsureRoot => match &args.project {
            Some(slug) => StartupStep::OpenRequested { slug: slug.clone() },
            None => StartupStep::ListProjects,
        },
        StartupStep::OpenRequested { .. } => match outcome {
            StartupOutcome::Succeeded => StartupStep::Ready,
            _ => StartupStep::ListProjects,
        },
        StartupStep::ListProjects => match outcome {
            StartupOutcome::Listed { first: Some(f) } => StartupStep::OpenExisting { slug: f.clone() },
            _ => StartupStep::InstallDemo,
        },
        StartupStep::OpenExisting { .. } => match outcome {
            StartupOutcome::Succeeded => StartupStep::Ready,
            _ => StartupStep::InstallDemo,
        },
        StartupStep::InstallDemo => match outcome {
            StartupOutcome::Succeeded => StartupStep::Ready,
            _ => StartupStep::CreateBlank { name: BLANK_PROJECT_NAME.to_owned() },
        },
        StartupStep::CreateBlank { .. } => match outcome {
            StartupOutcome::Succeeded => StartupStep::Ready,
            _ => StartupStep::GiveUp,
        },
        StartupStep::Ready => StartupStep::Ready,
        StartupStep::GiveUp => StartupStep::GiveUp,
    }
}

} // verus!
