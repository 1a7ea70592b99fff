//! The demo project installed on first start, so that there is something
//! to look at and click right away, and a rehearsal with synthetic audio
//! so that review and replay work without a microphone.
use vstd::prelude::*;

use crate::model::asset::AssetRef;
use crate::model::element::{Element, ElementKind, TextAlign, DEFAULT_FONT_SIZE_BITS};
use crate::model::page::{Page, DEFAULT_PAGE_HEIGHT_BITS, DEFAULT_PAGE_WIDTH_BITS};
use crate::model::SCHEMA_VERSION;
use crate::model::project::Project;
use crate::model::rehearsal::{AudioRef, Rehearsal};
use crate::model::script::ScriptSection;
use crate::model::stroke::Stroke;
use crate::scalar::Real;
use crate::sort::pair_lt;
use crate::timeline::{
    event_keys, events_in_order, lemma_sort_keeps_ordered, lemma_sorted_events_are_in_order, sort_events,
    TimelineEvent,
};

verus! {

/// The id of the demo rehearsal.
pub const DEMO_REHEARSAL_ID: &'static str = "r1";

/// The image shown on the first page.
pub const DEMO_ASSET_TIMELINE: &'static str = "figure-timeline.png";

/// The image shown on the second page.
pub const DEMO_ASSET_CANVAS: &'static str = "figure-canvas.png";

/// Length of the demo rehearsal: 36.5 seconds (as the bits of the number).
pub const DEMO_DURATION_BITS: u64 = 0x4042_4000_0000_0000;

/// Sample rate of the synthetic audio: 16 kHz mono, like a typical
/// microphone recording.
pub const DEMO_SAMPLE_RATE: u32 = 16_000;

/// A tiny deterministic pseudo-random generator (xorshift32).
#[derive(Debug)]
pub struct Xorshift(u32);

impl View for Xorshift {
    type V = u32;

    closed spec fn view(&self) -> u32 {
        self.0
    }
}

/// One xorshift32 step: shift left 13, right 17, left 5, each xor-ed in.
pub open spec fn xorshift_step(x: u32) -> u32 {
    let a = x ^ ((x << 13u32) as u32);
    let b = a ^ (a >> 17u32);
    b ^ ((b << 5u32) as u32)
}

/// A step never reaches 0 from a state that is not 0, so the generator,
/// seeded with an odd number, never gets stuck at 0.
pub proof fn lemma_xorshift_nonzero(x: u32)
    requires
        x != 0,
    ensures
        xorshift_step(x) != 0,
{
    let a = x ^ ((x << 13u32) as u32);
    let b = a ^ (a >> 17u32);
    assert(x != 0 ==> x ^ ((x << 13u32) as u32) != 0) by (bit_vector);
    assert(a != 0 ==> a ^ (a >> 17u32) != 0) by (bit_vector);
    assert(b != 0 ==> b ^ ((b << 5u32) as u32) != 0) by (bit_vector);
}

impl Xorshift {
    /// A generator started from `seed`, forced odd so it is never 0.
    pub fn new(seed: u32) -> (r: Self)
        ensures
            r@ == seed | 1,
            r@ != 0,
    {
        assert(seed | 1 != 0) by (bit_vector);
        Xorshift(seed | 1)
    }

    /// The next number; it is also the new state.
    pub fn next_u32(&mut self) -> (r: u32)
        ensures
            r == xorshift_step(old(self)@),
            final(self)@ == r,
    {
        let mut x = self.0;
        x ^= x << 13u32;
        x ^= x >> 17u32;
        x ^= x << 5u32;
        self.0 = x;
        x
    }
}

/// The element ids of page `p`, in order.
pub open spec fn element_ids(p: Page) -> Seq<Seq<char>> {
    p.elements@.map_values(|e: Element| e.id@)
}

/// Page `p` has this id, name and note.
pub open spec fn page_is(p: Page, id: Seq<char>, name: Seq<char>, note: Seq<char>) -> bool {
    &&& p.id@ == id
    &&& p.name@ == name
    &&& p.note@ == note
}

/// Element `e` has this id and content (the text of a text element, the
/// asset of an image), this box (as the encodings of x, y, w, h), layer 0,
/// this visibility at the start, and this font size, weight and alignment
/// in the default colour without background.
pub open spec fn element_is(
    e: Element,
    id: Seq<char>,
    is_text: bool,
    content: Seq<char>,
    rect: (u64, u64, u64, u64),
    hidden: bool,
    font_bits: u64,
    bold: bool,
    align: TextAlign,
) -> bool {
    &&& e.id@ == id
    &&& if is_text {
        e.kind matches ElementKind::Text { text } && text@ == content
    } else {
        e.kind matches ElementKind::Image { asset } && asset@ == content
    }
    &&& e.x.bits == rect.0 && e.y.bits == rect.1 && e.w.bits == rect.2 && e.h.bits == rect.3
    &&& e.z == 0
    &&& e.hidden_by_default == hidden
    &&& e.style.font_size.bits == font_bits
    &&& e.style.bold == bold
    &&& e.style.align == align
    &&& e.style.color@ == "#1f2933"@
    &&& e.style.background.is_none()
}

/// Section `s` has these id, texts and page.
pub open spec fn section_is(
    s: ScriptSection,
    id: Seq<char>,
    full: Seq<char>,
    prompt: Seq<char>,
    minimal: Seq<char>,
    page: Seq<char>,
) -> bool {
    &&& s.id@ == id
    &&& s.full@ == full
    &&& s.prompt@ == prompt
    &&& s.minimal@ == minimal
    &&& s.page_id matches Some(p) && p@ == page
}

fn demo_section(id: &str, full: &str, prompt: &str, minimal: &str, page: &str) -> (r: ScriptSection)
    ensures
        section_is(r, id@, full@, prompt@, minimal@, page@),
{
    let mut s = ScriptSection::new(id, full);
    s.prompt = prompt.to_owned();
    s.minimal = minimal.to_owned();
    s.page_id = Some(page.to_owned());
    s
}

/// The shape of the demo project: its pages and their element ids, its
/// five script sentences, its two images, its counter.
pub open spec fn is_demo_project(p: Project) -> bool {
    &&& p.name@ == "示例演讲：以讲话时间为主轴"@
    &&& p.schema_version == SCHEMA_VERSION
    &&& p.page_size.w.bits == DEFAULT_PAGE_WIDTH_BITS && p.page_size.h.bits == DEFAULT_PAGE_HEIGHT_BITS
    &&& p.pages@.len() == 3
    &&& p.pages@[0].id@ == "p1"@
    &&& p.pages@[1].id@ == "p2"@
    &&& p.pages@[2].id@ == "p3"@
    &&& element_ids(p.pages@[0]) == seq!["el1"@, "el2"@, "el3"@]
    &&& element_ids(p.pages@[1]) == seq!["el4"@, "el6"@, "el5"@]
    &&& element_ids(p.pages@[2]) == seq!["el7"@, "el8"@]
    &&& page_is(p.pages@[0], "p1"@, "第 1 页 · 开场"@, "标题页：先讲定位，再让要点依次出现"@)
    &&& page_is(p.pages@[1], "p2"@, "第 2 页 · 核心模型"@, "核心页：这页会有手写标注"@)
    &&& page_is(p.pages@[2], "p3"@, "第 3 页 · 下一步"@, "收尾页"@)
    &&& element_is(
        p.pages@[0].elements@[0],
        "el1"@,
        true,
        "以讲话时间为主轴"@,
        (0x4058_0000_0000_0000, 0x4061_8000_0000_0000, 0x4091_0000_0000_0000, 0x405E_0000_0000_0000),
        false,
        0x4050_0000_0000_0000,
        true,
        TextAlign::Center,
    )
    &&& element_is(
        p.pages@[0].elements@[1],
        "el2"@,
        true,
        "讲稿 · 画面 · 手写 · 音频，全部绑定到同一条时间轴"@,
        (0x4058_0000_0000_0000, 0x4071_E000_0000_0000, 0x4091_0000_0000_0000, 0x4050_0000_0000_0000),
        true,
        0x403E_0000_0000_0000,
        false,
        TextAlign::Center,
    )
    &&& element_is(
        p.pages@[0].elements@[2],
        "el3"@,
        false,
        DEMO_ASSET_TIMELINE@,
        (0x4075_4000_0000_0000, 0x4077_C000_0000_0000, 0x4082_C000_0000_0000, 0x4071_8000_0000_0000),
        true,
        DEFAULT_FONT_SIZE_BITS,
        false,
        TextAlign::Left,
    )
    &&& element_is(
        p.pages@[1].elements@[0],
        "el4"@,
        true,
        "Presentation State(t)"@,
        (0x4058_0000_0000_0000, 0x4054_0000_0000_0000, 0x4091_0000_0000_0000, 0x4052_0000_0000_0000),
        false,
        0x4047_0000_0000_0000,
        true,
        TextAlign::Left,
    )
    &&& element_is(
        p.pages@[1].elements@[1],
        "el6"@,
        false,
        DEMO_ASSET_CANVAS@,
        (0x4069_0000_0000_0000, 0x4066_8000_0000_0000, 0x408B_8000_0000_0000, 0x4070_4000_0000_0000),
        true,
        DEFAULT_FONT_SIZE_BITS,
        false,
        TextAlign::Left,
    )
    &&& element_is(
        p.pages@[1].elements@[2],
        "el5"@,
        true,
        "state_at(t) → 当前页面 / 元素可见性 / 笔迹进度 / 讲稿段落"@,
        (0x4058_0000_0000_0000, 0x407D_6000_0000_0000, 0x4091_0000_0000_0000, 0x404C_0000_0000_0000),
        true,
        0x403C_0000_0000_0000,
        false,
        TextAlign::Left,
    )
    &&& element_is(
        p.pages@[2].elements@[0],
        "el7"@,
        true,
        "按下 Record，一边讲话一边让内容出现"@,
        (0x4058_0000_0000_0000, 0x4064_0000_0000_0000, 0x4091_0000_0000_0000, 0x4054_0000_0000_0000),
        false,
        0x4044_0000_0000_0000,
        false,
        TextAlign::Left,
    )
    &&& element_is(
        p.pages@[2].elements@[1],
        "el8"@,
        true,
        "鼠标在画布上拖动 = 手写，笔迹逐点带时间戳"@,
        (0x4058_0000_0000_0000, 0x4072_C000_0000_0000, 0x4091_0000_0000_0000, 0x4054_0000_0000_0000),
        true,
        0x4041_0000_0000_0000,
        false,
        TextAlign::Left,
    )
    &&& p.script.sections@.len() == 5
    &&& section_is(
        p.script.sections@[0],
        "s1"@,
        "大家好，今天我用十分钟讲清楚这套工具的定位：它不是带录音的 PPT。"@,
        "不是带录音的 PPT"@,
        "定位"@,
        "p1"@,
    )
    &&& section_is(
        p.script.sections@[1],
        "s2"@,
        "它最核心的一点是：页面只是空间容器，真正的主轴是讲话时间。"@,
        "页面只是容器，主轴是时间"@,
        "时间主轴"@,
        "p1"@,
    )
    &&& section_is(
        p.script.sections@[2],
        "s3"@,
        "在任意时刻 t，系统都知道画面是什么状态、手写写到了哪里、我讲到了哪一句。"@,
        "任意 t 都知道完整状态"@,
        "Presentation State(t)"@,
        "p2"@,
    )
    &&& section_is(
        p.script.sections@[3],
        "s4"@,
        "所以点击任何一个元素、或者一段笔迹，都能跳回我当时说话的位置。"@,
        "点击内容 → 跳回当时的话"@,
        "空间反查时间"@,
        "p2"@,
    )
    &&& section_is(
        p.script.sections@[4],
        "s5"@,
        "最后请记住一句话：先讲，再让内容跟着出现。"@,
        "先讲，再让内容出现"@,
        "先说再做"@,
        "p3"@,
    )
    &&& p.assets@.len() == 2
    &&& p.assets@[0].name@ == DEMO_ASSET_TIMELINE@ && p.assets@[0].width == 960 && p.assets@[0].height == 448
    &&& p.assets@[1].name@ == DEMO_ASSET_CANVAS@ && p.assets@[1].width == 960 && p.assets@[1].height == 284
    &&& p.rehearsals@.len() == 0
    &&& p.serial == 100
    &&& p.current_page == 0
}

/// The data of the demo project: three pages with eight elements, five
/// script sentences with hand-written prompts and keywords, two images.
pub fn build_demo_project() -> (p: Project)
    ensures
        is_demo_project(p),
{
    let mut p = Project::new("示例演讲：以讲话时间为主轴");
    p.pages = Vec::new();

    let mut page1 = Page::new("p1", "第 1 页 · 开场");
    page1.note = "标题页：先讲定位，再让要点依次出现".to_owned();
    let mut e1 = Element::text("el1", Real::from_bits(0x4058_0000_0000_0000), Real::from_bits(0x4061_8000_0000_0000), Real::from_bits(0x4091_0000_0000_0000), Real::from_bits(0x405E_0000_0000_0000), "以讲话时间为主轴");
    e1.hidden_by_default = false;
    e1.style.font_size = Real::from_bits(0x4050_0000_0000_0000);
    e1.style.bold = true;
    e1.style.align = TextAlign::Center;
    let mut e2 = Element::text("el2", Real::from_bits(0x4058_0000_0000_0000), Real::from_bits(0x4071_E000_0000_0000), Real::from_bits(0x4091_0000_0000_0000), Real::from_bits(0x4050_0000_0000_0000), "讲稿 · 画面 · 手写 · 音频，全部绑定到同一条时间轴");
    e2.hidden_by_default = true;
    e2.style.font_size = Real::from_bits(0x403E_0000_0000_0000);
    e2.style.align = TextAlign::Center;
    let mut e3 = Element::image("el3", Real::from_bits(0x4075_4000_0000_0000), Real::from_bits(0x4077_C000_0000_0000), Real::from_bits(0x4082_C000_0000_0000), Real::from_bits(0x4071_8000_0000_0000), DEMO_ASSET_TIMELINE);
    e3.hidden_by_default = true;
    page1.elements.push(e1);
    page1.elements.push(e2);
    page1.elements.push(e3);
    let mut page2 = Page::new("p2", "第 2 页 · 核心模型");
    page2.note = "核心页：这页会有手写标注".to_owned();
    let mut e4 = Element::text("el4", Real::from_bits(0x4058_0000_0000_0000), Real::from_bits(0x4054_0000_0000_0000), Real::from_bits(0x4091_0000_0000_0000), Real::from_bits(0x4052_0000_0000_0000), "Presentation State(t)");
    e4.hidden_by_default = false;
    e4.style.font_size = Real::from_bits(0x4047_0000_0000_0000);
    e4.style.bold = true;
    let mut e6 = Element::image("el6", Real::from_bits(0x4069_0000_0000_0000), Real::from_bits(0x4066_8000_0000_0000), Real::from_bits(0x408B_8000_0000_0000), Real::from_bits(0x4070_4000_0000_0000), DEMO_ASSET_CANVAS);
    e6.hidden_by_default = true;
    let mut e5 = Element::text("el5", Real::from_bits(0x4058_0000_0000_0000), Real::from_bits(0x407D_6000_0000_0000), Real::from_bits(0x4091_0000_0000_0000), Real::from_bits(0x404C_0000_0000_0000), "state_at(t) → 当前页面 / 元素可见性 / 笔迹进度 / 讲稿段落");
    e5.hidden_by_default = true;
    e5.style.font_size = Real::from_bits(0x403C_0000_0000_0000);
    page2.elements.push(e4);
    page2.elements.push(e6);
    page2.elements.push(e5);
    let mut page3 = Page::new("p3", "第 3 页 · 下一步");
    page3.note = "收尾页".to_owned();
    let mut e7 = Element::text("el7", Real::from_bits(0x4058_0000_0000_0000), Real::from_bits(0x4064_0000_0000_0000), Real::from_bits(0x4091_0000_0000_0000), Real::from_bits(0x4054_0000_0000_0000), "按下 Record，一边讲话一边让内容出现");
    e7.hidden_by_default = false;
    e7.style.font_size = Real::from_bits(0x4044_0000_0000_0000);
    let mut e8 = Element::text("el8", Real::from_bits(0x4058_0000_0000_0000), Real::from_bits(0x4072_C000_0000_0000), Real::from_bits(0x4091_0000_0000_0000), Real::from_bits(0x4054_0000_0000_0000), "鼠标在画布上拖动 = 手写，笔迹逐点带时间戳");
    e8.hidden_by_default = true;
    e8.style.font_size = Real::from_bits(0x4041_0000_0000_0000);
    page3.elements.push(e7);
    page3.elements.push(e8);

    let mut pages: Vec<Page> = Vec::new();
    pages.push(page1);
    pages.push(page2);
    pages.push(page3);
    p.pages = pages;

    let mut sections: Vec<ScriptSection> = Vec::new();
    sections.push(
        demo_section(
            "s1",
            "大家好，今天我用十分钟讲清楚这套工具的定位：它不是带录音的 PPT。",
            "不是带录音的 PPT",
            "定位",
            "p1",
        ),
    );
    sections.push(
        demo_section(
            "s2",
            "它最核心的一点是：页面只是空间容器，真正的主轴是讲话时间。",
            "页面只是容器，主轴是时间",
            "时间主轴",
            "p1",
        ),
    );
    sections.push(
        demo_section(
            "s3",
            "在任意时刻 t，系统都知道画面是什么状态、手写写到了哪里、我讲到了哪一句。",
            "任意 t 都知道完整状态",
            "Presentation State(t)",
            "p2",
        ),
    );
    sections.push(
        demo_section(
            "s4",
            "所以点击任何一个元素、或者一段笔迹，都能跳回我当时说话的位置。",
            "点击内容 → 跳回当时的话",
            "空间反查时间",
            "p2",
        ),
    );
    sections.push(demo_section("s5", "最后请记住一句话：先讲，再让内容跟着出现。", "先讲，再让内容出现", "先说再做", "p3"));
    p.script.sections = sections;

    let mut assets: Vec<AssetRef> = Vec::new();
    assets.push(AssetRef::new(DEMO_ASSET_TIMELINE, 960, 448));
    assets.push(AssetRef::new(DEMO_ASSET_CANVAS, 960, 284));
    p.assets = assets;
    p.serial = 100;
    p.current_page = 0;
    proof {
        assert(element_ids(p.pages@[0]) =~= seq!["el1"@, "el2"@, "el3"@]);
        assert(element_ids(p.pages@[1]) =~= seq!["el4"@, "el6"@, "el5"@]);
        assert(element_ids(p.pages@[2]) =~= seq!["el7"@, "el8"@]);
    }
    p
}

/// The demo project as installed into a freshly created project: the demo
/// data under the id and creation time that project was given. The demo's
/// id counter is kept, so ids made later never collide with `el1`..`el8`.
pub fn demo_project_for(created: &Project) -> (p: Project)
    ensures
        is_demo_project(p),
        p.id@ == created.id@,
        p.created_at_unix == created.created_at_unix,
{
    let mut p = build_demo_project();
    p.id = created.id.clone();
    p.created_at_unix = created.created_at_unix;
    p
}

/// `e` is the event of kind `rank` (see [`TimelineEvent::rank`]) about the
/// page, section, element or label `id`, at the time with encoding `bits`.
pub open spec fn event_is(e: TimelineEvent, rank: u8, id: Seq<char>, bits: u64) -> bool {
    &&& e.rank() == rank
    &&& e.spec_time().bits == bits
    &&& match e {
        TimelineEvent::Reveal { element_id, .. } => element_id@ == id,
        TimelineEvent::Hide { element_id, .. } => element_id@ == id,
        TimelineEvent::PageChange { page_id, .. } => page_id@ == id,
        TimelineEvent::Marker { label, .. } => label@ == id,
        TimelineEvent::ScriptMark { section_id, .. } => section_id@ == id,
    }
}

/// The demo events in time order: kind rank, id and time encoding of each.
pub open spec fn demo_event_table() -> Seq<(u8, Seq<char>, u64)> {
    seq![
        (0u8, "p1"@, 0x0000_0000_0000_0000u64),
        (1u8, "s1"@, 0x0000_0000_0000_0000u64),
        (2u8, "el2"@, 0x4010_CCCC_CCCC_CCCDu64),
        (2u8, "el3"@, 0x4022_3333_3333_3333u64),
        (1u8, "s2"@, 0x402B_0000_0000_0000u64),
        (0u8, "p2"@, 0x4031_0000_0000_0000u64),
        (1u8, "s3"@, 0x4031_0000_0000_0000u64),
        (2u8, "el6"@, 0x4035_6666_6666_6666u64),
        (2u8, "el5"@, 0x4039_3333_3333_3333u64),
        (1u8, "s4"@, 0x403D_0000_0000_0000u64),
        (0u8, "p3"@, 0x403F_8000_0000_0000u64),
        (1u8, "s5"@, 0x403F_8000_0000_0000u64),
        (2u8, "el8"@, 0x4041_0000_0000_0000u64),
        (4u8, "结束"@, 0x4042_1999_9999_999Au64),
    ]
}

/// `ev` holds the events of [`demo_event_table`], in that order.
pub open spec fn is_demo_event_list(ev: Seq<TimelineEvent>) -> bool {
    &&& ev.len() == demo_event_table().len()
    &&& forall|k: int|
        0 <= k < ev.len() ==> {
            let (rank, id, bits) = #[trigger] demo_event_table()[k];
            event_is(ev[k], rank, id, bits)
        }
}

/// The events of the demo rehearsal (page changes and script anchors line
/// up), sorted: those of [`demo_event_table`].
pub fn demo_events() -> (r: Vec<TimelineEvent>)
    ensures
        is_demo_event_list(r@),
        events_in_order(r@),
{
    let mut evs: Vec<TimelineEvent> = Vec::new();
    evs.push(TimelineEvent::PageChange { page_id: "p1".to_owned(), t: Real::from_bits(0x0000_0000_0000_0000) });
    evs.push(TimelineEvent::ScriptMark { section_id: "s1".to_owned(), t: Real::from_bits(0x0000_0000_0000_0000) });
    evs.push(TimelineEvent::Reveal { element_id: "el2".to_owned(), t: Real::from_bits(0x4010_CCCC_CCCC_CCCD) });
    evs.push(TimelineEvent::Reveal { element_id: "el3".to_owned(), t: Real::from_bits(0x4022_3333_3333_3333) });
    evs.push(TimelineEvent::ScriptMark { section_id: "s2".to_owned(), t: Real::from_bits(0x402B_0000_0000_0000) });
    evs.push(TimelineEvent::PageChange { page_id: "p2".to_owned(), t: Real::from_bits(0x4031_0000_0000_0000) });
    evs.push(TimelineEvent::ScriptMark { section_id: "s3".to_owned(), t: Real::from_bits(0x4031_0000_0000_0000) });
    evs.push(TimelineEvent::Reveal { element_id: "el6".to_owned(), t: Real::from_bits(0x4035_6666_6666_6666) });
    evs.push(TimelineEvent::Reveal { element_id: "el5".to_owned(), t: Real::from_bits(0x4039_3333_3333_3333) });
    evs.push(TimelineEvent::ScriptMark { section_id: "s4".to_owned(), t: Real::from_bits(0x403D_0000_0000_0000) });
    evs.push(TimelineEvent::PageChange { page_id: "p3".to_owned(), t: Real::from_bits(0x403F_8000_0000_0000) });
    evs.push(TimelineEvent::ScriptMark { section_id: "s5".to_owned(), t: Real::from_bits(0x403F_8000_0000_0000) });
    evs.push(TimelineEvent::Reveal { element_id: "el8".to_owned(), t: Real::from_bits(0x4041_0000_0000_0000) });
    evs.push(TimelineEvent::Marker { label: "结束".to_owned(), t: Real::from_bits(0x4042_1999_9999_999A) });
    let ghost before = evs@;
    proof {
        assert forall|k: int| 0 <= k < before.len() implies {
            let (rank, id, bits) = #[trigger] demo_event_table()[k];
            event_is(before[k], rank, id, bits)
        } by {}
        assert forall|i: int| 0 <= i < before.len() implies !(#[trigger] before[i]).spec_time().spec_nan() by {}
        assert forall|i: int, j: int| 0 <= i < j < before.len() implies !pair_lt(
            #[trigger] event_keys(before)[j],
            #[trigger] event_keys(before)[i],
        ) by {}
    }
    sort_events(&mut evs);
    proof {
        lemma_sort_keeps_ordered(before, evs@);
        lemma_sorted_events_are_in_order(before, evs@);
    }
    evs
}

/// The demo rehearsal: `r1`, starting on `p1`, with the demo events, the
/// given strokes and `frames` frames of 16 kHz mono audio.
pub fn demo_rehearsal(frames: u64, strokes: Vec<Stroke>) -> (r: Rehearsal)
    ensures
        r.id@ == DEMO_REHEARSAL_ID@,
        r.name@ == "示例演练（合成音频）"@,
        r.start_page_id@ == "p1"@,
        r.duration.bits == DEMO_DURATION_BITS,
        r.audio matches Some(a) && a.file@ == "audio.wav"@ && a.sample_rate == DEMO_SAMPLE_RATE && a.channels == 1
            && a.frames == frames && a.source@ == "mic"@,
        is_demo_event_list(r.events@),
        events_in_order(r.events@),
        r.strokes@ == strokes@,
{
    let mut r = Rehearsal::new(DEMO_REHEARSAL_ID, "示例演练（合成音频）", "p1");
    r.duration = Real::from_bits(DEMO_DURATION_BITS);
    r.audio = Some(AudioRef::mic(DEMO_SAMPLE_RATE, 1, frames));
    r.events = demo_events();
    r.strokes = strokes;
    r
}

} // verus!
