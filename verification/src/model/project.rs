//! A presentation project: pages, script, assets and the list of rehearsals.
use vstd::prelude::*;
use vstd::seq_lib::seq_to_set_is_finite;
use vstd::set_lib::lemma_len_subset;

use crate::demo::{build_demo_project, is_demo_project};
use crate::model::asset::AssetRef;
use crate::model::element::Element;
use crate::model::page::{first_page_index, page_position, Page, PageId, Size};
use crate::model::page::{first_element_index, lemma_first_element_index, lemma_first_page_index};
use crate::model::page::{DEFAULT_PAGE_HEIGHT_BITS, DEFAULT_PAGE_WIDTH_BITS};
use crate::model::rehearsal::RehearsalMeta;
use crate::model::script::ScriptDoc;
use crate::model::{now_unix, slug_of, slug_or_fallback, SCHEMA_VERSION};
use crate::text::{decimal, decimal_string, lemma_prefixed_decimal_injective, push_str, str_eq};

verus! {

/// The schema version written into new projects.
pub fn default_schema() -> (r: u32)
    ensures
        r == SCHEMA_VERSION,
{
    SCHEMA_VERSION
}

/// A presentation project (not a slide file). On disk it is the directory
/// `projects/<id>/` with `project.json`, `assets/` and `rehearsals/<id>/`.
#[derive(Clone, Debug)]
pub struct Project {
    pub schema_version: u32,
    /// The directory name (slug); it identifies the project on disk.
    pub id: String,
    pub name: String,
    pub page_size: Size,
    pub pages: Vec<Page>,
    pub script: ScriptDoc,
    pub assets: Vec<AssetRef>,
    pub rehearsals: Vec<RehearsalMeta>,
    /// The page index shown last.
    pub current_page: usize,
    /// The counter behind ids such as `el7`.
    pub serial: u64,
    pub created_at_unix: u64,
    pub updated_at_unix: u64,
}

/// Page `p` is called `id` or holds an element called `id`.
pub open spec fn page_has_id(p: Page, id: Seq<char>) -> bool {
    p.id@ == id || exists|j: int| 0 <= j < p.elements@.len() && #[trigger] p.elements@[j].id@ == id
}

/// `id` names a page, an element of a page, or a rehearsal.
pub open spec fn ids_in_use(pages: Seq<Page>, rehearsals: Seq<RehearsalMeta>, id: Seq<char>) -> bool {
    (exists|i: int| 0 <= i < pages.len() && page_has_id(#[trigger] pages[i], id)) || (exists|k: int|
        0 <= k < rehearsals.len() && #[trigger] rehearsals[k].id@ == id)
}

/// The ids of the pages and of their elements, page by page.
pub open spec fn page_id_list(pages: Seq<Page>) -> Seq<Seq<char>>
    decreases pages.len(),
{
    if pages.len() == 0 {
        Seq::empty()
    } else {
        page_id_list(pages.drop_last()).push(pages.last().id@) + pages.last().elements@.map_values(
            |e: Element| e.id@,
        )
    }
}

/// Every id of pages, elements and rehearsals (with repetitions).
pub open spec fn id_list(pages: Seq<Page>, rehearsals: Seq<RehearsalMeta>) -> Seq<Seq<char>> {
    page_id_list(pages) + rehearsals.map_values(|r: RehearsalMeta| r.id@)
}

impl Project {
    /// `id` is already taken by a page, an element or a rehearsal.
    pub open spec fn uses_id(&self, id: Seq<char>) -> bool {
        ids_in_use(self.pages@, self.rehearsals@, id)
    }

    /// How many ids the project holds (counting repetitions).
    pub open spec fn id_count(&self) -> nat {
        id_list(self.pages@, self.rehearsals@).len()
    }
}

proof fn lemma_page_id_list_len(pages: Seq<Page>)
    ensures
        page_id_list(pages).len() >= pages.len(),
    decreases pages.len(),
{
    if pages.len() > 0 {
        lemma_page_id_list_len(pages.drop_last());
    }
}

proof fn lemma_page_ids_listed(pages: Seq<Page>, i: int, id: Seq<char>)
    requires
        0 <= i < pages.len(),
        page_has_id(pages[i], id),
    ensures
        page_id_list(pages).contains(id),
    decreases pages.len(),
{
    let init = pages.drop_last();
    let head = page_id_list(init).push(pages.last().id@);
    let tail = pages.last().elements@.map_values(|e: Element| e.id@);
    if i == pages.len() - 1 {
        if pages[i].id@ == id {
            assert(page_id_list(pages)[page_id_list(init).len() as int] == id);
        } else {
            let j = choose|j: int| 0 <= j < pages[i].elements@.len() && #[trigger] pages[i].elements@[j].id@ == id;
            assert(page_id_list(pages)[head.len() + j] == tail[j]);
        }
    } else {
        assert(init[i] == pages[i]);
        lemma_page_ids_listed(init, i, id);
        let k = choose|k: int| 0 <= k < page_id_list(init).len() && page_id_list(init)[k] == id;
        assert(page_id_list(pages)[k] == id);
    }
}

/// An id in use occurs in `id_list`.
proof fn lemma_ids_listed(pages: Seq<Page>, rehearsals: Seq<RehearsalMeta>, id: Seq<char>)
    requires
        ids_in_use(pages, rehearsals, id),
    ensures
        id_list(pages, rehearsals).contains(id),
{
    let l = id_list(pages, rehearsals);
    let p = page_id_list(pages);
    if exists|i: int| 0 <= i < pages.len() && page_has_id(#[trigger] pages[i], id) {
        let i = choose|i: int| 0 <= i < pages.len() && page_has_id(#[trigger] pages[i], id);
        lemma_page_ids_listed(pages, i, id);
        let k = choose|k: int| 0 <= k < p.len() && p[k] == id;
        assert(l[k] == id);
    } else {
        let k = choose|k: int| 0 <= k < rehearsals.len() && #[trigger] rehearsals[k].id@ == id;
        assert(l[p.len() + k] == id);
    }
}

/// Among the next `ids.len() + 1` numbers after `s`, one gives a name
/// `prefix + number` that is not in `ids`.
proof fn lemma_free_candidate(ids: Seq<Seq<char>>, prefix: Seq<char>, s: nat)
    ensures
        exists|m: nat| s < m <= s + ids.len() + 1 && !ids.contains(#[trigger] (prefix + decimal(m))),
{
    let n = ids.len() + 1;
    let cands = Seq::new(n, |k: int| prefix + decimal((s + 1 + k) as nat));
    if forall|m: nat| s < m <= s + ids.len() + 1 ==> ids.contains(#[trigger] (prefix + decimal(m))) {
        assert(cands.no_duplicates()) by {
            assert forall|i: int, j: int| 0 <= i < n && 0 <= j < n && i != j implies cands[i] != cands[j] by {
                if cands[i] == cands[j] {
                    lemma_prefixed_decimal_injective(prefix, (s + 1 + i) as nat, (s + 1 + j) as nat);
                }
            }
        }
        cands.unique_seq_to_set();
        assert(cands.to_set().subset_of(ids.to_set())) by {
            assert forall|x: Seq<char>| cands.to_set().contains(x) implies ids.to_set().contains(x) by {
                assert(cands.contains(x));
                let k = choose|k: int| 0 <= k < n && cands[k] == x;
                let m = (s + 1 + k) as nat;
                assert(ids.contains(prefix + decimal(m)));
            }
        }
        seq_to_set_is_finite(ids);
        ids.lemma_cardinality_of_set();
        lemma_len_subset(cands.to_set(), ids.to_set());
        assert(false);
    }
}

impl Project {
    /// Whether `id` is already taken by a page, an element or a rehearsal.
    pub fn id_in_use(&self, id: &str) -> (r: bool)
        ensures
            r == self.uses_id(id@),
    {
        let mut i: usize = 0;
        while i < self.pages.len()
            invariant
                i <= self.pages@.len(),
                forall|k: int| 0 <= k < i ==> !page_has_id(#[trigger] self.pages@[k], id@),
            decreases self.pages@.len() - i,
        {
            let p = &self.pages[i];
            if str_eq(p.id.as_str(), id) {
                assert(page_has_id(self.pages@[i as int], id@));
                return true;
            }
            let mut j: usize = 0;
            while j < p.elements.len()
                invariant
                    i < self.pages@.len(),
                    *p == self.pages@[i as int],
                    j <= p.elements@.len(),
                    forall|q: int| 0 <= q < j ==> #[trigger] p.elements@[q].id@ != id@,
                decreases p.elements@.len() - j,
            {
                if str_eq(p.elements[j].id.as_str(), id) {
                    assert(p.elements@[j as int].id@ == id@);
                    assert(page_has_id(self.pages@[i as int], id@));
                    return true;
                }
                j = j + 1;
            }
            assert(!page_has_id(self.pages@[i as int], id@));
            i = i + 1;
        }
        let mut k: usize = 0;
        while k < self.rehearsals.len()
            invariant
                k <= self.rehearsals@.len(),
                forall|q: int| 0 <= q < self.pages@.len() ==> !page_has_id(#[trigger] self.pages@[q], id@),
                forall|q: int| 0 <= q < k ==> #[trigger] self.rehearsals@[q].id@ != id@,
            decreases self.rehearsals@.len() - k,
        {
            if str_eq(self.rehearsals[k].id.as_str(), id) {
                assert(self.rehearsals@[k as int].id@ == id@);
                return true;
            }
            k = k + 1;
        }
        false
    }

    /// Hands out a project-wide unique id such as `el7`: the counter goes
    /// up until `prefix` followed by it names nothing in the project (a
    /// hand-edited file may hold ids the counter has not reached yet).
    pub fn next_id(&mut self, prefix: &str) -> (r: String)
        requires
            old(self).serial + old(self).id_count() < u64::MAX,
        ensures
            r@ == prefix@ + decimal(final(self).serial as nat),
            !old(self).uses_id(r@),
            old(self).serial < final(self).serial,
            forall|m: nat|
                old(self).serial < m < final(self).serial ==> #[trigger] old(self).uses_id(prefix@ + decimal(m)),
            final(self).serial <= old(self).serial + old(self).id_count() + 1,
            final(self).schema_version == old(self).schema_version,
            final(self).id == old(self).id,
            final(self).name == old(self).name,
            final(self).page_size == old(self).page_size,
            final(self).pages == old(self).pages,
            final(self).script == old(self).script,
            final(self).assets == old(self).assets,
            final(self).rehearsals == old(self).rehearsals,
            final(self).current_page == old(self).current_page,
            final(self).created_at_unix == old(self).created_at_unix,
            final(self).updated_at_unix == old(self).updated_at_unix,
    {
        let ghost s0 = self.serial as nat;
        let ghost ids = id_list(self.pages@, self.rehearsals@);
        proof {
            lemma_free_candidate(ids, prefix@, s0);
        }
        let ghost w = choose|m: nat| s0 < m <= s0 + ids.len() + 1 && !ids.contains(#[trigger] (prefix@ + decimal(m)));
        proof {
            if self.uses_id(prefix@ + decimal(w)) {
                lemma_ids_listed(self.pages@, self.rehearsals@, prefix@ + decimal(w));
            }
        }
        loop
            invariant
                s0 <= self.serial < w,
                w <= s0 + ids.len() + 1,
                w <= u64::MAX,
                ids == id_list(self.pages@, self.rehearsals@),
                !old(self).uses_id(prefix@ + decimal(w)),
                forall|m: nat| s0 < m <= self.serial ==> #[trigger] old(self).uses_id(prefix@ + decimal(m)),
                s0 == old(self).serial,
                self.schema_version == old(self).schema_version,
                self.id == old(self).id,
                self.name == old(self).name,
                self.page_size == old(self).page_size,
                self.pages == old(self).pages,
                self.script == old(self).script,
                self.assets == old(self).assets,
                self.rehearsals == old(self).rehearsals,
                self.current_page == old(self).current_page,
                self.created_at_unix == old(self).created_at_unix,
                self.updated_at_unix == old(self).updated_at_unix,
            decreases w - self.serial,
        {
            self.serial = self.serial + 1;
            let digits = decimal_string(self.serial);
            let mut id = prefix.to_owned();
            push_str(&mut id, digits.as_str());
            if !self.id_in_use(id.as_str()) {
                return id;
            }
        }
    }
}

/// The page that holds the first element called `id`, searching pages in
/// order.
pub open spec fn page_holding(pages: Seq<Page>, id: Seq<char>) -> Option<int>
    decreases pages.len(),
{
    if pages.len() == 0 {
        None
    } else {
        match page_holding(pages.drop_last(), id) {
            Some(i) => Some(i),
            None => if first_element_index(pages.last().elements@, id) is Some {
                Some(pages.len() - 1)
            } else {
                None
            },
        }
    }
}

/// `page_holding` is the first page with such an element.
pub proof fn lemma_page_holding(pages: Seq<Page>, id: Seq<char>)
    ensures
        match page_holding(pages, id) {
            Some(i) => 0 <= i < pages.len() && first_element_index(pages[i].elements@, id) is Some && forall|j: int|
                0 <= j < i ==> (#[trigger] first_element_index(pages[j].elements@, id)) is None,
            None => forall|j: int| 0 <= j < pages.len() ==> (#[trigger] first_element_index(pages[j].elements@, id)) is None,
        },
    decreases pages.len(),
{
    if pages.len() > 0 {
        let d = pages.drop_last();
        lemma_page_holding(d, id);
        match page_holding(d, id) {
            Some(i) => {
                assert forall|j: int| 0 <= j < i implies (#[trigger] first_element_index(pages[j].elements@, id)) is None by {
                    assert(d[j] == pages[j]);
                }
                assert(d[i] == pages[i]);
            },
            None => {
                assert forall|j: int| 0 <= j < pages.len() - 1 implies (#[trigger] first_element_index(pages[j].elements@, id)) is None by {
                    assert(d[j] == pages[j]);
                }
            },
        }
    }
}

/// The index of the first asset called `name`.
pub open spec fn first_asset_index(assets: Seq<AssetRef>, name: Seq<char>) -> Option<int>
    decreases assets.len(),
{
    if assets.len() == 0 {
        None
    } else {
        match first_asset_index(assets.drop_last(), name) {
            Some(i) => Some(i),
            None => if assets.last().name@ == name {
                Some(assets.len() - 1)
            } else {
                None
            },
        }
    }
}

/// `first_asset_index` is the first match.
pub proof fn lemma_first_asset_index(assets: Seq<AssetRef>, name: Seq<char>)
    ensures
        match first_asset_index(assets, name) {
            Some(i) => 0 <= i < assets.len() && assets[i].name@ == name && forall|j: int|
                0 <= j < i ==> #[trigger] assets[j].name@ != name,
            None => forall|j: int| 0 <= j < assets.len() ==> #[trigger] assets[j].name@ != name,
        },
    decreases assets.len(),
{
    if assets.len() > 0 {
        let d = assets.drop_last();
        lemma_first_asset_index(d, name);
        match first_asset_index(d, name) {
            Some(i) => {
                assert forall|j: int| 0 <= j < i implies #[trigger] assets[j].name@ != name by {
                    assert(d[j] == assets[j]);
                }
                assert(d[i] == assets[i]);
            },
            None => {
                assert forall|j: int| 0 <= j < assets.len() - 1 implies #[trigger] assets[j].name@ != name by {
                    assert(d[j] == assets[j]);
                }
            },
        }
    }
}

/// The name of the `n`-th page: `第 n 页`.
pub open spec fn numbered_page_name(n: nat) -> Seq<char> {
    "第 "@ + decimal(n) + " 页"@
}

/// `r` is a fresh project called `name`: the current schema, the default
/// page size, one empty page `p1`, no script, assets or rehearsals, the id
/// counter at 1.
pub open spec fn is_new_project(r: Project, name: Seq<char>) -> bool {
    &&& r.schema_version == SCHEMA_VERSION
    &&& r.name@ == name
    &&& r.page_size.w.bits == DEFAULT_PAGE_WIDTH_BITS
    &&& r.page_size.h.bits == DEFAULT_PAGE_HEIGHT_BITS
    &&& r.pages@.len() == 1
    &&& r.pages@[0].id@ == "p1"@
    &&& r.pages@[0].name@ == numbered_page_name(1)
    &&& r.pages@[0].elements@.len() == 0
    &&& r.pages@[0].note@.len() == 0
    &&& r.script.sections@.len() == 0
    &&& r.assets@.len() == 0
    &&& r.rehearsals@.len() == 0
    &&& r.current_page == 0
    &&& r.serial == 1
}

impl Project {
    /// A new project called `name`, with one empty page `p1` and a
    /// directory name made from the title.
    pub fn new(name: &str) -> (r: Self)
        ensures
            is_new_project(r, name@),
            slug_of(name@).len() > 0 ==> r.id@ == slug_of(name@),
            slug_of(name@).len() == 0 ==> exists|n: u64| r.id@ == "project-"@ + decimal(n as nat),
            r.created_at_unix == r.updated_at_unix,
    {
        Project::new_at(name, now_unix())
    }

    /// A new project called `name` made at Unix time `now`: one empty page
    /// `p1`, and the directory name of the title (`project-<now>` for a
    /// title without usable characters).
    pub fn new_at(name: &str, now: u64) -> (r: Self)
        ensures
            is_new_project(r, name@),
            slug_of(name@).len() > 0 ==> r.id@ == slug_of(name@),
            slug_of(name@).len() == 0 ==> r.id@ == "project-"@ + decimal(now as nat),
            r.created_at_unix == now,
            r.updated_at_unix == now,
    {
        let id = slug_or_fallback(name, now);
        let first = Page::new("p1", "第 1 页");
        proof {
            reveal_strlit("第 1 页");
            reveal_strlit("第 ");
            reveal_strlit(" 页");
            assert(decimal(1) =~= seq!['1']);
            assert(numbered_page_name(1) =~= "第 1 页"@);
        }
        let mut pages: Vec<Page> = Vec::new();
        pages.push(first);
        Project {
            schema_version: default_schema(),
            id,
            name: name.to_owned(),
            page_size: Size::default(),
            pages,
            script: ScriptDoc::default(),
            assets: Vec::new(),
            rehearsals: Vec::new(),
            current_page: 0,
            serial: 1,
            created_at_unix: now,
            updated_at_unix: now,
        }
    }

    /// Records that the project was changed now.
    pub fn touch(&mut self)
        ensures
            final(self).schema_version == old(self).schema_version,
            final(self).id == old(self).id,
            final(self).name == old(self).name,
            final(self).page_size == old(self).page_size,
            final(self).pages == old(self).pages,
            final(self).script == old(self).script,
            final(self).assets == old(self).assets,
            final(self).rehearsals == old(self).rehearsals,
            final(self).current_page == old(self).current_page,
            final(self).serial == old(self).serial,
            final(self).created_at_unix == old(self).created_at_unix,
    {
        self.touch_at(now_unix());
    }

    /// Records that the project was changed at Unix time `now`.
    pub fn touch_at(&mut self, now: u64)
        ensures
            final(self).schema_version == old(self).schema_version,
            final(self).id == old(self).id,
            final(self).name == old(self).name,
            final(self).page_size == old(self).page_size,
            final(self).pages == old(self).pages,
            final(self).script == old(self).script,
            final(self).assets == old(self).assets,
            final(self).rehearsals == old(self).rehearsals,
            final(self).current_page == old(self).current_page,
            final(self).serial == old(self).serial,
            final(self).created_at_unix == old(self).created_at_unix,
            final(self).updated_at_unix == now,
    {
        self.updated_at_unix = now;
    }

    /// The first page called `id`.
    pub fn page(&self, id: &str) -> (r: Option<&Page>)
        ensures
            match first_page_index(self.pages@, id@) {
                Some(i) => r matches Some(p) && *p == self.pages@[i],
                None => r is None,
            },
    {
        proof {
            lemma_first_page_index(self.pages@, id@);
        }
        match page_position(self.pages.as_slice(), id) {
            Some(i) => Some(&self.pages[i]),
            None => None,
        }
    }

    /// The first page called `id`, for changing it.
    pub fn page_mut(&mut self, id: &str) -> (r: Option<&mut Page>)
        ensures
            match first_page_index(old(self).pages@, id@) {
                Some(i) => r matches Some(p) && *p == old(self).pages@[i] && final(self).pages@ == old(
                    self,
                ).pages@.update(i, *final(p)),
                None => r is None && final(self).pages@ == old(self).pages@,
            },
            final(self).schema_version == old(self).schema_version,
            final(self).id == old(self).id,
            final(self).name == old(self).name,
            final(self).page_size == old(self).page_size,
            final(self).script == old(self).script,
            final(self).assets == old(self).assets,
            final(self).rehearsals == old(self).rehearsals,
            final(self).current_page == old(self).current_page,
            final(self).serial == old(self).serial,
            final(self).created_at_unix == old(self).created_at_unix,
            final(self).updated_at_unix == old(self).updated_at_unix,
    {
        proof {
            lemma_first_page_index(self.pages@, id@);
        }
        match page_position(self.pages.as_slice(), id) {
            Some(i) => Some(&mut self.pages[i]),
            None => None,
        }
    }

    /// The index of the first page called `id`.
    pub fn page_index(&self, id: &str) -> (r: Option<usize>)
        ensures
            match r {
                Some(i) => first_page_index(self.pages@, id@) == Some(i as int),
                None => first_page_index(self.pages@, id@) is None,
            },
    {
        page_position(self.pages.as_slice(), id)
    }

    /// The current page, if `current_page` is in range.
    pub fn current_page_ref(&self) -> (r: Option<&Page>)
        ensures
            if self.current_page < self.pages@.len() {
                r matches Some(p) && *p == self.pages@[self.current_page as int]
            } else {
                r is None
            },
    {
        if self.current_page < self.pages.len() {
            Some(&self.pages[self.current_page])
        } else {
            None
        }
    }

    /// The current page, for changing it.
    pub fn current_page_mut(&mut self) -> (r: Option<&mut Page>)
        ensures
            if old(self).current_page < old(self).pages@.len() {
                r matches Some(p) && *p == old(self).pages@[old(self).current_page as int] && final(self).pages@
                    == old(self).pages@.update(old(self).current_page as int, *final(p))
            } else {
                r is None && final(self).pages@ == old(self).pages@
            },
            final(self).schema_version == old(self).schema_version,
            final(self).id == old(self).id,
            final(self).name == old(self).name,
            final(self).page_size == old(self).page_size,
            final(self).script == old(self).script,
            final(self).assets == old(self).assets,
            final(self).rehearsals == old(self).rehearsals,
            final(self).current_page == old(self).current_page,
            final(self).serial == old(self).serial,
            final(self).created_at_unix == old(self).created_at_unix,
            final(self).updated_at_unix == old(self).updated_at_unix,
    {
        let i = self.current_page;
        if i < self.pages.len() {
            Some(&mut self.pages[i])
        } else {
            None
        }
    }

    /// The id of the current page; empty if `current_page` is out of range.
    pub fn current_page_id(&self) -> (r: PageId)
        ensures
            r@ == (if self.current_page < self.pages@.len() {
                self.pages@[self.current_page as int].id@
            } else {
                Seq::<char>::empty()
            }),
    {
        if self.current_page < self.pages.len() {
            self.pages[self.current_page].id.clone()
        } else {
            String::new()
        }
    }

    /// The size of every page of the project.
    pub fn current_page_size(&self) -> (r: Size)
        ensures
            r == self.page_size,
    {
        self.page_size
    }

    /// Appends a page named after its position (`第 n 页`) and returns
    /// its new id.
    pub fn add_page(&mut self) -> (r: PageId)
        requires
            old(self).serial + old(self).id_count() < u64::MAX,
        ensures
            r@ == "p"@ + decimal(final(self).serial as nat),
            !old(self).uses_id(r@),
            old(self).serial < final(self).serial,
            forall|m: nat| old(self).serial < m < final(self).serial ==> #[trigger] old(self).uses_id("p"@ + decimal(m)),
            final(self).pages@.len() == old(self).pages@.len() + 1,
            forall|i: int| 0 <= i < old(self).pages@.len() ==> #[trigger] final(self).pages@[i] == old(self).pages@[i],
            final(self).pages@.last().id@ == r@,
            final(self).pages@.last().name@ == numbered_page_name(old(self).pages@.len() + 1),
            final(self).pages@.last().elements@.len() == 0,
            final(self).pages@.last().note@.len() == 0,
            final(self).schema_version == old(self).schema_version,
            final(self).id == old(self).id,
            final(self).name == old(self).name,
            final(self).page_size == old(self).page_size,
            final(self).script == old(self).script,
            final(self).assets == old(self).assets,
            final(self).rehearsals == old(self).rehearsals,
            final(self).current_page == old(self).current_page,
            final(self).created_at_unix == old(self).created_at_unix,
            final(self).updated_at_unix == old(self).updated_at_unix,
    {
        proof {
            lemma_page_id_list_len(self.pages@);
        }
        let id = self.next_id("p");
        let n = self.pages.len() as u64 + 1;
        let mut name = "第 ".to_owned();
        let digits = decimal_string(n);
        push_str(&mut name, digits.as_str());
        push_str(&mut name, " 页");
        let page = Page::new(id.as_str(), name.as_str());
        self.pages.push(page);
        id
    }

    /// Deletes page `index`, keeping at least one page and `current_page`
    /// in range. Returns whether a page was deleted.
    pub fn remove_page(&mut self, index: usize) -> (r: bool)
        ensures
            r == (old(self).pages@.len() > 1 && index < old(self).pages@.len()),
            r ==> final(self).pages@ == old(self).pages@.remove(index as int),
            r ==> final(self).current_page == (if old(self).current_page >= final(self).pages@.len() {
                (final(self).pages@.len() - 1) as usize
            } else {
                old(self).current_page
            }),
            !r ==> final(self).pages@ == old(self).pages@ && final(self).current_page == old(self).current_page,
            old(self).pages@.len() >= 1 ==> final(self).pages@.len() >= 1,
            r ==> final(self).current_page < final(self).pages@.len(),
            final(self).schema_version == old(self).schema_version,
            final(self).id == old(self).id,
            final(self).name == old(self).name,
            final(self).page_size == old(self).page_size,
            final(self).script == old(self).script,
            final(self).assets == old(self).assets,
            final(self).rehearsals == old(self).rehearsals,
            final(self).serial == old(self).serial,
            final(self).created_at_unix == old(self).created_at_unix,
            final(self).updated_at_unix == old(self).updated_at_unix,
    {
        if self.pages.len() <= 1 || index >= self.pages.len() {
            return false;
        }
        self.pages.remove(index);
        if self.current_page >= self.pages.len() {
            self.current_page = self.pages.len() - 1;
        }
        true
    }

    /// The first element called `element_id` in the whole project, with the
    /// index of its page (pages are searched in order).
    pub fn find_element(&self, element_id: &str) -> (r: Option<(usize, &Element)>)
        ensures
            match page_holding(self.pages@, element_id@) {
                Some(pi) => r matches Some((i, e)) && i == pi && *e == self.pages@[pi].elements@[first_element_index(
                    self.pages@[pi].elements@,
                    element_id@,
                ).unwrap()],
                None => r is None,
            },
    {
        proof {
            lemma_page_holding(self.pages@, element_id@);
        }
        let mut i: usize = 0;
        while i < self.pages.len()
            invariant
                i <= self.pages@.len(),
                forall|j: int| 0 <= j < i ==> (#[trigger] first_element_index(self.pages@[j].elements@, element_id@)) is None,
            decreases self.pages@.len() - i,
        {
            match self.pages[i].element(element_id) {
                Some(e) => {
                    proof {
                        lemma_page_holding(self.pages@, element_id@);
                        match page_holding(self.pages@, element_id@) {
                            Some(k) => {
                                if k < i {
                                    assert(first_element_index(self.pages@[k].elements@, element_id@) is None);
                                } else if k > i {
                                    assert(first_element_index(self.pages@[i as int].elements@, element_id@) is None);
                                }
                            },
                            None => {
                                assert(first_element_index(self.pages@[i as int].elements@, element_id@) is None);
                            },
                        }
                    }
                    return Some((i, e));
                },
                None => {},
            }
            i = i + 1;
        }
        None
    }

    /// The first asset called `name`.
    pub fn asset(&self, name: &str) -> (r: Option<&AssetRef>)
        ensures
            match first_asset_index(self.assets@, name@) {
                Some(i) => r matches Some(a) && *a == self.assets@[i],
                None => r is None,
            },
    {
        proof {
            lemma_first_asset_index(self.assets@, name@);
        }
        let mut i: usize = 0;
        while i < self.assets.len()
            invariant
                i <= self.assets@.len(),
                forall|j: int| 0 <= j < i ==> #[trigger] self.assets@[j].name@ != name@,
            decreases self.assets@.len() - i,
        {
            if str_eq(self.assets[i].name.as_str(), name) {
                proof {
                    lemma_first_asset_index(self.assets@, name@);
                    match first_asset_index(self.assets@, name@) {
                        Some(k) => {
                            if k > i {
                                assert(self.assets@[i as int].name@ == name@);
                            }
                        },
                        None => {
                            assert(self.assets@[i as int].name@ == name@);
                        },
                    }
                }
                return Some(&self.assets[i]);
            }
            i = i + 1;
        }
        None
    }

    /// The fixed demo project, also used for smoke tests (see
    /// [`build_demo_project`]).
    pub fn demo() -> (p: Project)
        ensures
            is_demo_project(p),
    {
        build_demo_project()
    }
}

} // verus!
