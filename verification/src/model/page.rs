//! Pages: spatial containers of elements. A page has no time of its own;
//! switching pages is a timeline event.
use vstd::prelude::*;

use crate::model::element::Element;
use crate::scalar::Real;
use crate::sort::{stable_order, stable_sort_indices};
use crate::text::str_eq;

verus! {

/// Page ids are readable strings such as `p1`.
pub type PageId = String;

/// The encoding of 1280, the default page width.
pub const DEFAULT_PAGE_WIDTH_BITS: u64 = 0x4094_0000_0000_0000;

/// The encoding of 720, the default page height.
pub const DEFAULT_PAGE_HEIGHT_BITS: u64 = 0x4086_8000_0000_0000;

#[derive(Clone, Debug)]
pub struct Page {
    pub id: PageId,
    pub name: String,
    pub elements: Vec<Element>,
    /// A note for the author; it takes no part in playback.
    pub note: String,
}

/// The sort key that orders elements by layer: `z` shifted to be unsigned.
pub open spec fn z_key(z: i32) -> (u64, u64) {
    ((z as int + 0x8000_0000) as u64, 0u64)
}

/// The layer keys of a list of elements.
pub open spec fn z_keys(els: Seq<Element>) -> Seq<(u64, u64)> {
    els.map_values(|e: Element| z_key(e.z))
}

/// Element `a` is drawn before element `b`: lower layer, or same layer and
/// inserted earlier.
pub open spec fn drawn_before(els: Seq<Element>, a: int, b: int) -> bool {
    els[a].z < els[b].z || (els[a].z == els[b].z && a < b)
}

/// The index of the first element with id `id`, if any.
pub open spec fn first_element_index(els: Seq<Element>, id: Seq<char>) -> Option<int>
    decreases els.len(),
{
    if els.len() == 0 {
        None
    } else {
        match first_element_index(els.drop_last(), id) {
            Some(i) => Some(i),
            None => if els.last().id@ == id {
                Some(els.len() - 1)
            } else {
                None
            },
        }
    }
}

/// `first_element_index` is the first match.
pub proof fn lemma_first_element_index(els: Seq<Element>, id: Seq<char>)
    ensures
        match first_element_index(els, id) {
            Some(i) => 0 <= i < els.len() && els[i].id@ == id && forall|j: int|
                0 <= j < i ==> #[trigger] els[j].id@ != id,
            None => forall|j: int| 0 <= j < els.len() ==> #[trigger] els[j].id@ != id,
        },
    decreases els.len(),
{
    if els.len() > 0 {
        let d = els.drop_last();
        lemma_first_element_index(d, id);
        assert forall|j: int| 0 <= j < d.len() implies #[trigger] d[j] == els[j] by {}
        match first_element_index(d, id) {
            Some(i) => {
                assert forall|j: int| 0 <= j < i implies #[trigger] els[j].id@ != id by {
                    assert(d[j] == els[j]);
                }
            },
            None => {
                assert forall|j: int| 0 <= j < els.len() - 1 implies #[trigger] els[j].id@ != id by {
                    assert(d[j] == els[j]);
                }
            },
        }
    }
}

impl Page {
    /// An empty page.
    pub fn new(id: &str, name: &str) -> (r: Self)
        ensures
            r.id@ == id@,
            r.name@ == name@,
            r.elements@.len() == 0,
            r.note@.len() == 0,
    {
        Page { id: id.to_owned(), name: name.to_owned(), elements: Vec::new(), note: String::new() }
    }

    /// The index of the first element with id `id`.
    pub fn element_index(&self, id: &str) -> (r: Option<usize>)
        ensures
            match r {
                Some(i) => first_element_index(self.elements@, id@) == Some(i as int),
                None => first_element_index(self.elements@, id@) is None,
            },
    {
        proof {
            lemma_first_element_index(self.elements@, id@);
        }
        let mut i: usize = 0;
        while i < self.elements.len()
            invariant
                i <= self.elements@.len(),
                forall|j: int| 0 <= j < i ==> #[trigger] self.elements@[j].id@ != id@,
            decreases self.elements@.len() - i,
        {
            if str_eq(self.elements[i].id.as_str(), id) {
                proof {
                    lemma_first_element_index(self.elements@, id@);
                    match first_element_index(self.elements@, id@) {
                        Some(k) => {
                            if k != i {
                                assert(self.elements@[k].id@ == id@);
                            }
                        },
                        None => {
                            assert(self.elements@[i as int].id@ == id@);
                        },
                    }
                }
                return Some(i);
            }
            i = i + 1;
        }
        proof {
            lemma_first_element_index(self.elements@, id@);
        }
        None
    }

    /// The first element with id `id`.
    pub fn element(&self, id: &str) -> (r: Option<&Element>)
        ensures
            match first_element_index(self.elements@, id@) {
                Some(i) => r matches Some(e) && *e == self.elements@[i],
                None => r.is_none(),
            },
    {
        proof {
            lemma_first_element_index(self.elements@, id@);
        }
        match self.element_index(id) {
            Some(i) => {
                let e = &self.elements[i];
                assert(first_element_index(self.elements@, id@) == Some(i as int));
                assert(*e == self.elements@[i as int]);
                Some(e)
            },
            None => None,
        }
    }

    /// The first element with id `id`, for changing it.
    pub fn element_mut(&mut self, id: &str) -> (r: Option<&mut Element>)
        ensures
            match first_element_index(old(self).elements@, id@) {
                Some(i) => r matches Some(e) && *e == old(self).elements@[i] && final(self).elements@ == old(
                    self,
                ).elements@.update(i, *final(e)),
                None => r is None && final(self).elements@ == old(self).elements@,
            },
            final(self).id == old(self).id,
            final(self).name == old(self).name,
            final(self).note == old(self).note,
    {
        proof {
            lemma_first_element_index(self.elements@, id@);
        }
        match self.element_index(id) {
            Some(i) => Some(&mut self.elements[i]),
            None => None,
        }
    }

    /// Element indices in drawing order: by `z` ascending, then by insertion
    /// order. Later entries are drawn on top.
    pub fn draw_order(&self) -> (r: Vec<usize>)
        ensures
            stable_order(z_keys(self.elements@), r@),
            r@.len() == self.elements@.len(),
            forall|i: int| 0 <= i < r@.len() ==> #[trigger] r@[i] < self.elements@.len(),
            forall|i: int, j: int|
                0 <= i < j < r@.len() ==> drawn_before(self.elements@, #[trigger] r@[i] as int, #[trigger] r@[j] as int),
    {
        let mut keys: Vec<(u64, u64)> = Vec::new();
        let mut i: usize = 0;
        while i < self.elements.len()
            invariant
                i <= self.elements@.len(),
                keys@ == z_keys(self.elements@).take(i as int),
            decreases self.elements@.len() - i,
        {
            let z = self.elements[i].z;
            let k: u64 = if z >= 0 {
                0x8000_0000u64 + (z as u64)
            } else {
                (0x8000_0000i64 + (z as i64)) as u64
            };
            keys.push((k, 0));
            proof {
                assert(keys@ =~= z_keys(self.elements@).take(i + 1));
            }
            i = i + 1;
        }
        proof {
            assert(keys@ =~= z_keys(self.elements@));
        }
        let order = stable_sort_indices(&keys);
        proof {
            let els = self.elements@;
            assert forall|a: int, b: int| 0 <= a < b < order@.len() implies drawn_before(
                els,
                #[trigger] order@[a] as int,
                #[trigger] order@[b] as int,
            ) by {
                let x = order@[a] as int;
                let y = order@[b] as int;
                assert(keys@[x] == z_key(els[x].z));
                assert(keys@[y] == z_key(els[y].z));
            }
        }
        order
    }

    /// The layer one above every element, so that a new element lands on top.
    pub fn next_z(&self) -> (r: i32)
        requires
            forall|i: int| 0 <= i < self.elements@.len() ==> #[trigger] self.elements@[i].z < i32::MAX,
        ensures
            self.elements@.len() == 0 ==> r == 1,
            self.elements@.len() > 0 ==> (exists|i: int|
                0 <= i < self.elements@.len() && #[trigger] self.elements@[i].z == r - 1),
            forall|i: int| 0 <= i < self.elements@.len() ==> #[trigger] self.elements@[i].z < r,
    {
        if self.elements.len() == 0 {
            return 1;
        }
        let mut best = self.elements[0].z;
        let mut i: usize = 1;
        while i < self.elements.len()
            invariant
                1 <= i <= self.elements@.len(),
                forall|j: int| 0 <= j < self.elements@.len() ==> #[trigger] self.elements@[j].z < i32::MAX,
                exists|j: int| 0 <= j < i && #[trigger] self.elements@[j].z == best,
                forall|j: int| 0 <= j < i ==> #[trigger] self.elements@[j].z <= best,
            decreases self.elements@.len() - i,
        {
            if self.elements[i].z > best {
                best = self.elements[i].z;
            }
            i = i + 1;
        }
        best + 1
    }
}

/// Page size in the logical coordinate system of elements and strokes.
#[derive(Clone, Copy, Debug)]
pub struct Size {
    pub w: Real,
    pub h: Real,
}

impl Size {
    /// A size of `w` by `h`.
    pub fn new(w: Real, h: Real) -> (r: Self)
        ensures
            r.w == w,
            r.h == h,
    {
        Size { w, h }
    }
}

impl Default for Size {
    /// 1280 x 720.
    fn default() -> (r: Self)
        ensures
            r.w.bits == DEFAULT_PAGE_WIDTH_BITS,
            r.h.bits == DEFAULT_PAGE_HEIGHT_BITS,
    {
        Size { w: Real::from_bits(DEFAULT_PAGE_WIDTH_BITS), h: Real::from_bits(DEFAULT_PAGE_HEIGHT_BITS) }
    }
}

} // verus!

verus! {

/// The index of the first page with id `id`, if any.
pub open spec fn first_page_index(pages: Seq<Page>, id: Seq<char>) -> Option<int>
    decreases pages.len(),
{
    if pages.len() == 0 {
        None
    } else {
        match first_page_index(pages.drop_last(), id) {
            Some(i) => Some(i),
            None => if pages.last().id@ == id {
                Some(pages.len() - 1)
            } else {
                None
            },
        }
    }
}

/// `first_page_index` is the first match.
pub proof fn lemma_first_page_index(pages: Seq<Page>, id: Seq<char>)
    ensures
        match first_page_index(pages, id) {
            Some(i) => 0 <= i < pages.len() && pages[i].id@ == id && forall|j: int|
                0 <= j < i ==> #[trigger] pages[j].id@ != id,
            None => forall|j: int| 0 <= j < pages.len() ==> #[trigger] pages[j].id@ != id,
        },
    decreases pages.len(),
{
    if pages.len() > 0 {
        let d = pages.drop_last();
        lemma_first_page_index(d, id);
        match first_page_index(d, id) {
            Some(i) => {
                assert forall|j: int| 0 <= j < i implies #[trigger] pages[j].id@ != id by {
                    assert(d[j] == pages[j]);
                }
            },
            None => {
                assert forall|j: int| 0 <= j < pages.len() - 1 implies #[trigger] pages[j].id@ != id by {
                    assert(d[j] == pages[j]);
                }
            },
        }
    }
}

/// The index of the first page with id `id`.
pub fn page_position(pages: &[Page], id: &str) -> (r: Option<usize>)
    ensures
        match r {
            Some(i) => first_page_index(pages@, id@) == Some(i as int),
            None => first_page_index(pages@, id@) is None,
        },
{
    let mut i: usize = 0;
    while i < pages.len()
        invariant
            i <= pages@.len(),
            forall|j: int| 0 <= j < i ==> #[trigger] pages@[j].id@ != id@,
        decreases pages@.len() - i,
    {
        if str_eq(pages[i].id.as_str(), id) {
            proof {
                lemma_first_page_index(pages@, id@);
                match first_page_index(pages@, id@) {
                    Some(k) => {
                        if k != i {
                            assert(pages@[k].id@ == id@);
                        }
                    },
                    None => {
                        assert(pages@[i as int].id@ == id@);
                    },
                }
            }
            return Some(i);
        }
        i = i + 1;
    }
    proof {
        lemma_first_page_index(pages@, id@);
    }
    None
}

} // verus!
