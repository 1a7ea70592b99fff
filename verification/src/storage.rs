//! The decisions of the project store: where things live under the root,
//! which slug a new project gets, what is checked and normalised when a
//! project or rehearsal is read, and how the rehearsal list is kept.
//! Reading and writing the files is done by the program around it.
//!
//! ```text
//! <root>/projects/<slug>/
//! ├── project.json
//! ├── assets/figure-01.png ...
//! └── rehearsals/r1/
//!     ├── audio.wav
//!     └── rehearsal.json
//! ```
use vstd::prelude::*;

use crate::model::project::Project;
use crate::model::rehearsal::{Rehearsal, RehearsalMeta};
use crate::model::stroke::Stroke;
use crate::model::{slug_of, slug_or_fallback, SCHEMA_VERSION};
use crate::scalar::Real;
use crate::sort::{lemma_permutation_covers, lemma_stable_order_is_permutation, lists, pair_lt, stable_order, stable_sort_indices};
use crate::text::{chars_of, count_before, count_less, decimal, decimal_string, string_of_range, lemma_count_less_bound, lemma_count_less_strict, push_str, seq_lt, str_eq};
use crate::timeline::{sort_events, stably_sorted_from};

verus! {

/// `part` has no `/`, `\\` or `:`: on every platform it is a relative
/// path with neither a root nor a drive or server prefix.
pub open spec fn relative_name(part: Seq<char>) -> bool {
    forall|i: int| 0 <= i < part.len() ==> #[trigger] part[i] != '/' && part[i] != '\\' && part[i] != ':'
}

/// `base` has no `?`, so it cannot carry the Windows verbatim prefix
/// (`\\?\`), under which joining normalises the path.
pub open spec fn plain_base(base: Seq<char>) -> bool {
    forall|i: int| 0 <= i < base.len() ==> #[trigger] base[i] != '?'
}

/// A path separator as some platform writes it, or none (where `base`
/// already ends in one, is empty, or is a bare drive such as `C:`).
pub open spec fn separator(sep: Seq<char>) -> bool {
    sep.len() == 0 || sep == seq!['/'] || sep == seq!['\\']
}

/// `r` is `part` adjoined to `base`: `base`, a separator where one is
/// needed, then `part`.
pub open spec fn adjoined(base: Seq<char>, part: Seq<char>, r: Seq<char>) -> bool {
    exists|sep: Seq<char>| separator(sep) && r == base + sep + part
}

/// std's `Path::join`, on paths given as text (valid UTF-8, so the text
/// form of the result is exact). Its documentation: a relative `part` is
/// adjoined to `base`; an absolute one replaces it. For a plain `base` and
/// a relative `part` the result is `base`, a separator where needed, then
/// `part`. Which separator, and when one is needed, depends on the
/// platform and is left open; nothing is stated for other arguments.
#[verifier::external_body]
fn join_path(base: &str, part: &str) -> (r: String)
    ensures
        plain_base(base@) && relative_name(part@) ==> adjoined(base@, part@, r@),
{
    std::path::Path::new(base).join(part).to_string_lossy().into_owned()
}

/// Adjoining a name without `?` to a path without `?` gives a path without
/// `?`.
proof fn lemma_adjoined_stays_plain(base: Seq<char>, part: Seq<char>, r: Seq<char>)
    requires
        plain_base(base),
        plain_base(part),
        adjoined(base, part, r),
    ensures
        plain_base(r),
{
    let sep = choose|sep: Seq<char>| separator(sep) && r == base + sep + part;
    assert forall|i: int| 0 <= i < r.len() implies r[i] != '?' by {
        if i < base.len() {
            assert(r[i] == base[i]);
        } else if i < base.len() + sep.len() {
            assert(r[i] == sep[i - base.len()]);
        } else {
            assert(r[i] == part[i - base.len() - sep.len()]);
        }
    }
}

/// Why a store operation failed. File-system and JSON failures carry the
/// message of the underlying error.
#[derive(Clone, Debug)]
pub enum StorageError {
    Io(String),
    Json(String),
    NotFound(String),
    /// The file's schema version is newer than this program.
    Version(u32),
    Message(String),
}

/// The message shown for an error.
pub open spec fn error_text(e: StorageError) -> Seq<char> {
    match e {
        StorageError::Io(m) => "文件读写失败："@ + m@,
        StorageError::Json(m) => "JSON 解析失败："@ + m@,
        StorageError::NotFound(m) => "找不到："@ + m@,
        StorageError::Version(v) => "项目文件版本 "@ + decimal(v as nat) + " 高于本程序支持的 "@ + decimal(
            SCHEMA_VERSION as nat,
        ),
        StorageError::Message(m) => m@,
    }
}

impl StorageError {
    /// The message shown for the error.
    pub fn message(&self) -> (r: String)
        ensures
            r@ == error_text(*self),
    {
        match self {
            StorageError::Io(m) => {
                let mut out = "文件读写失败：".to_owned();
                push_str(&mut out, m.as_str());
                out
            },
            StorageError::Json(m) => {
                let mut out = "JSON 解析失败：".to_owned();
                push_str(&mut out, m.as_str());
                out
            },
            StorageError::NotFound(m) => {
                let mut out = "找不到：".to_owned();
                push_str(&mut out, m.as_str());
                out
            },
            StorageError::Version(v) => {
                let mut out = "项目文件版本 ".to_owned();
                let found = decimal_string(*v as u64);
                push_str(&mut out, found.as_str());
                push_str(&mut out, " 高于本程序支持的 ");
                let supported = decimal_string(SCHEMA_VERSION as u64);
                push_str(&mut out, supported.as_str());
                out
            },
            StorageError::Message(m) => m.clone(),
        }
    }
}

/// The project store: everything lives under `root/projects/`.
#[derive(Clone, Debug)]
pub struct Store {
    root: String,
}

impl View for Store {
    type V = Seq<char>;

    closed spec fn view(&self) -> Seq<char> {
        self.root@
    }
}

impl Store {
    /// A store rooted at `root` (tests inject a temporary directory).
    pub fn new(root: &str) -> (r: Self)
        ensures
            r@ == root@,
    {
        Store { root: root.to_owned() }
    }

    /// The root directory.
    pub fn root(&self) -> (r: &str)
        ensures
            r@ == self@,
    {
        self.root.as_str()
    }

    /// `root/projects`.
    pub fn projects_dir(&self) -> (r: String)
        ensures
            plain_base(self@) ==> adjoined(self@, "projects"@, r@) && plain_base(r@),
    {
        let r = join_path(self.root.as_str(), "projects");
        proof {
            reveal_strlit("projects");
            assert(relative_name("projects"@));
            if plain_base(self@) {
                lemma_adjoined_stays_plain(self@, "projects"@, r@);
            }
        }
        r
    }

    /// `root/projects/<slug>`.
    pub fn project_dir(&self, slug: &str) -> (r: String)
        ensures
            plain_base(self@) && relative_name(slug@) ==> exists|dir: Seq<char>|
                adjoined(self@, "projects"@, dir) && #[trigger] adjoined(dir, slug@, r@),
    {
        let dir = self.projects_dir();
        join_path(dir.as_str(), slug)
    }
}

/// The slug tried for a new project after `base` was taken: `base-n`
/// (counting from 2).
pub fn slug_candidate(base: &str, n: u64) -> (r: String)
    ensures
        r@ == base@ + "-"@ + decimal(n as nat),
{
    let mut out = base.to_owned();
    push_str(&mut out, "-");
    let digits = decimal_string(n);
    push_str(&mut out, digits.as_str());
    out
}

/// The position of the last `.` among the first `n` characters of `name`.
pub open spec fn last_dot_before(name: Seq<char>, n: int) -> Option<int>
    decreases n,
{
    if n <= 0 {
        None
    } else if name[n - 1] == '.' {
        Some(n - 1)
    } else {
        last_dot_before(name, n - 1)
    }
}

/// Where a file name splits into stem and extension: at its last `.`,
/// unless that is the first character (a hidden file such as `.profile`)
/// or the name is `..`.
pub open spec fn extension_dot(name: Seq<char>) -> Option<int> {
    if name == seq!['.', '.'] {
        None
    } else {
        match last_dot_before(name, name.len() as int) {
            Some(k) => if k > 0 {
                Some(k)
            } else {
                None
            },
            None => None,
        }
    }
}

/// The stem of a file name as std's `Path::file_stem` documents it: the
/// part before the last `.` (see [`extension_dot`]), else the whole name;
/// an empty name has none and stands as `asset`.
pub open spec fn file_stem(name: Seq<char>) -> Seq<char> {
    if name.len() == 0 {
        "asset"@
    } else {
        match extension_dot(name) {
            Some(k) => name.take(k),
            None => name,
        }
    }
}

/// The extension of a file name with its dot (`.png`), or nothing.
pub open spec fn dotted_extension(name: Seq<char>) -> Seq<char> {
    match extension_dot(name) {
        Some(k) => name.skip(k),
        None => seq![],
    }
}

/// The name tried for an imported image after `name` was taken in the
/// assets directory: `figure.png` becomes `figure-2.png`, `figure-3.png`, ...
pub open spec fn asset_candidate_name(name: Seq<char>, n: nat) -> Seq<char> {
    file_stem(name) + "-"@ + decimal(n) + dotted_extension(name)
}

proof fn lemma_last_dot_before(name: Seq<char>, n: int)
    requires
        0 <= n <= name.len(),
    ensures
        match last_dot_before(name, n) {
            Some(k) => 0 <= k < n && name[k] == '.' && forall|j: int| k < j < n ==> name[j] != '.',
            None => forall|j: int| 0 <= j < n ==> name[j] != '.',
        },
    decreases n,
{
    if n > 0 {
        lemma_last_dot_before(name, n - 1);
    }
}

/// The candidate name for an imported image (see [`asset_candidate_name`]).
pub fn asset_candidate(name: &str, n: u64) -> (r: String)
    ensures
        r@ == asset_candidate_name(name@, n as nat),
{
    let v = chars_of(name);
    let len = v.len();
    // The last dot, searching from the end.
    let mut k = len;
    while k > 0 && v[k - 1] != '.'
        invariant
            len == v@.len(),
            v@ == name@,
            k <= len,
            forall|j: int| k <= j < len ==> v@[j] != '.',
        decreases k,
    {
        k = k - 1;
    }
    proof {
        lemma_last_dot_before(name@, len as int);
        reveal_strlit("asset");
    }
    let is_dotdot = len == 2 && v[0] == '.' && v[1] == '.';
    let mut out = if len == 0 {
        "asset".to_owned()
    } else if k >= 2 && !is_dotdot {
        string_of_range(&v, 0, k - 1)
    } else {
        name.to_owned()
    };
    push_str(&mut out, "-");
    let digits = decimal_string(n);
    push_str(&mut out, digits.as_str());
    if k >= 2 && !is_dotdot {
        let ext = string_of_range(&v, k - 1, len);
        push_str(&mut out, ext.as_str());
    }
    proof {
        if is_dotdot {
            assert(name@ =~= seq!['.', '.']);
        } else {
            assert(name@ != seq!['.', '.']) by {
                if name@ == seq!['.', '.'] {
                    assert(v@[0] == '.' && v@[1] == '.');
                }
            }
        }
        if k >= 2 {
            assert(last_dot_before(name@, len as int) == Some((k - 1) as int));
            assert(v@.subrange(0, k - 1) =~= name@.take(k - 1));
            assert(v@.subrange(k - 1, len as int) =~= name@.skip(k - 1));
        } else if k == 1 {
            assert(last_dot_before(name@, len as int) == Some(0int));
        } else {
            assert(last_dot_before(name@, len as int) is None);
        }
    }
    out
}

/// The directory name tried for a new project called `name` at attempt
/// `attempt` (counting from 0), with `now` the current Unix time: the slug
/// of the name first, then the slug with `-2`, `-3`, ... while the earlier
/// ones are taken.
pub fn project_slug_attempt(name: &str, attempt: u64, now: u64) -> (r: String)
    requires
        attempt < u64::MAX,
    ensures
        ({
            let base = if slug_of(name@).len() > 0 {
                slug_of(name@)
            } else {
                "project-"@ + decimal(now as nat)
            };
            r@ == if attempt == 0 {
                base
            } else {
                base + "-"@ + decimal(attempt as nat + 1)
            }
        }),
{
    let base = slug_or_fallback(name, now);
    if attempt == 0 {
        base
    } else {
        slug_candidate(base.as_str(), attempt + 1)
    }
}

/// The sort keys of rehearsal summaries by creation time alone.
pub open spec fn time_keys(m: Seq<RehearsalMeta>) -> Seq<(u64, u64)> {
    m.map_values(|x: RehearsalMeta| (x.created_at_unix, 0u64))
}

/// `new` is `old` ordered by `keys`, equal keys keeping their order.
pub open spec fn metas_sorted_by(old: Seq<RehearsalMeta>, keys: Seq<(u64, u64)>, new: Seq<RehearsalMeta>) -> bool {
    exists|order: Seq<usize>|
        #[trigger] stable_order(keys, order) && new.len() == old.len() && forall|k: int|
            0 <= k < new.len() ==> new[k] == old[order[k] as int]
}

/// Reorders `metas` by `keys` (one key per summary), keeping equal keys in
/// their order.
fn sort_metas(metas: &Vec<RehearsalMeta>, keys: &Vec<(u64, u64)>) -> (r: Vec<RehearsalMeta>)
    requires
        keys@.len() == metas@.len(),
    ensures
        metas_sorted_by(metas@, keys@, r@),
{
    let order = stable_sort_indices(keys);
    let mut out: Vec<RehearsalMeta> = Vec::new();
    let mut k: usize = 0;
    while k < order.len()
        invariant
            keys@.len() == metas@.len(),
            stable_order(keys@, order@),
            k <= order@.len(),
            out@.len() == k,
            forall|a: int| 0 <= a < k ==> out@[a] == metas@[#[trigger] order@[a] as int],
        decreases order@.len() - k,
    {
        out.push(metas[order[k]].copy());
        k = k + 1;
    }
    out
}

/// What opening a project does with the parsed `project.json`: a schema
/// newer than this program is refused; otherwise the rehearsal summaries
/// are ordered by creation time (equal times keep their order).
pub fn prepare_opened_project(project: Project) -> (r: Result<Project, StorageError>)
    ensures
        project.schema_version > SCHEMA_VERSION ==> r == Err::<Project, StorageError>(
            StorageError::Version(project.schema_version),
        ),
        project.schema_version <= SCHEMA_VERSION ==> (r matches Ok(p) && metas_sorted_by(
            project.rehearsals@,
            time_keys(project.rehearsals@),
            p.rehearsals@,
        ) && p.schema_version == project.schema_version && p.id == project.id && p.name == project.name
            && p.page_size == project.page_size && p.pages == project.pages && p.script == project.script
            && p.assets == project.assets && p.current_page == project.current_page && p.serial
            == project.serial && p.created_at_unix == project.created_at_unix && p.updated_at_unix
            == project.updated_at_unix),
{
    if project.schema_version > SCHEMA_VERSION {
        return Err(StorageError::Version(project.schema_version));
    }
    let mut p = project;
    let mut keys: Vec<(u64, u64)> = Vec::new();
    let mut i: usize = 0;
    while i < p.rehearsals.len()
        invariant
            i <= p.rehearsals@.len(),
            keys@ == time_keys(p.rehearsals@).take(i as int),
        decreases p.rehearsals@.len() - i,
    {
        keys.push((p.rehearsals[i].created_at_unix, 0));
        proof {
            assert(keys@ =~= time_keys(p.rehearsals@).take(i + 1));
        }
        i = i + 1;
    }
    proof {
        assert(keys@ =~= time_keys(p.rehearsals@));
    }
    let sorted = sort_metas(&p.rehearsals, &keys);
    p.rehearsals = sorted;
    Ok(p)
}

/// What saving a rehearsal writes: the rehearsal with its events sorted.
pub fn prepare_rehearsal_for_save(rehearsal: Rehearsal) -> (r: Rehearsal)
    ensures
        stably_sorted_from(rehearsal.events@, r.events@),
        r.id == rehearsal.id,
        r.name == rehearsal.name,
        r.created_at_unix == rehearsal.created_at_unix,
        r.duration == rehearsal.duration,
        r.start_page_id == rehearsal.start_page_id,
        r.audio == rehearsal.audio,
        r.strokes == rehearsal.strokes,
{
    let mut r = rehearsal;
    sort_events(&mut r.events);
    r
}

/// A stroke with its start and end time taken from its points.
pub open spec fn with_bounds(s: Stroke) -> Stroke {
    Stroke {
        start_time: if s.points@.len() == 0 {
            Real { bits: 0 }
        } else {
            s.points@[0].t
        },
        end_time: if s.points@.len() == 0 {
            Real { bits: 0 }
        } else {
            s.points@.last().t
        },
        ..s
    }
}

/// What loading a rehearsal does with the parsed `rehearsal.json`: events
/// sorted, stroke times recomputed from their points, and the audio
/// reference dropped when its file is missing on disk (`audio_file_exists`
/// tells whether it is there).
pub fn finish_loaded_rehearsal(rehearsal: Rehearsal, audio_file_exists: bool) -> (r: Rehearsal)
    ensures
        stably_sorted_from(rehearsal.events@, r.events@),
        r.strokes@ == rehearsal.strokes@.map_values(|s: Stroke| with_bounds(s)),
        r.audio == (if audio_file_exists {
            rehearsal.audio
        } else {
            None
        }),
        r.id == rehearsal.id,
        r.name == rehearsal.name,
        r.created_at_unix == rehearsal.created_at_unix,
        r.duration == rehearsal.duration,
        r.start_page_id == rehearsal.start_page_id,
{
    let mut r = rehearsal;
    sort_events(&mut r.events);
    let ghost before = r.strokes@;
    let ghost events = r.events@;
    proof {
        assert(stably_sorted_from(rehearsal.events@, events));
    }
    let mut i: usize = 0;
    while i < r.strokes.len()
        invariant
            stably_sorted_from(rehearsal.events@, events),
            r.events@ == events,
            r.id == rehearsal.id,
            r.name == rehearsal.name,
            r.created_at_unix == rehearsal.created_at_unix,
            r.duration == rehearsal.duration,
            r.start_page_id == rehearsal.start_page_id,
            r.audio == rehearsal.audio,
            i <= r.strokes@.len(),
            r.strokes@.len() == before.len(),
            forall|k: int| 0 <= k < i ==> #[trigger] r.strokes@[k] == with_bounds(before[k]),
            forall|k: int| i <= k < r.strokes@.len() ==> #[trigger] r.strokes@[k] == before[k],
        decreases r.strokes@.len() - i,
    {
        r.strokes[i].refresh_bounds();
        i = i + 1;
    }
    proof {
        assert(r.strokes@ =~= before.map_values(|s: Stroke| with_bounds(s)));
    }
    if !audio_file_exists {
        r.audio = None;
    }
    r
}

/// The id of the most recent rehearsal: the last summary of the list.
pub fn latest_rehearsal_id(metas: &[RehearsalMeta]) -> (r: Option<String>)
    ensures
        match r {
            Some(id) => metas@.len() > 0 && id@ == metas@.last().id@,
            None => metas@.len() == 0,
        },
{
    if metas.len() == 0 {
        None
    } else {
        Some(metas[metas.len() - 1].id.clone())
    }
}

/// The index of the first summary with id `id`.
pub open spec fn first_meta_index(m: Seq<RehearsalMeta>, id: Seq<char>) -> Option<int>
    decreases m.len(),
{
    if m.len() == 0 {
        None
    } else {
        match first_meta_index(m.drop_last(), id) {
            Some(i) => Some(i),
            None => if m.last().id@ == id {
                Some(m.len() - 1)
            } else {
                None
            },
        }
    }
}

/// `first_meta_index` is the first match.
pub proof fn lemma_first_meta_index(m: Seq<RehearsalMeta>, id: Seq<char>)
    ensures
        match first_meta_index(m, id) {
            Some(i) => 0 <= i < m.len() && m[i].id@ == id && forall|j: int| 0 <= j < i ==> #[trigger] m[j].id@ != id,
            None => forall|j: int| 0 <= j < m.len() ==> #[trigger] m[j].id@ != id,
        },
    decreases m.len(),
{
    if m.len() > 0 {
        let d = m.drop_last();
        lemma_first_meta_index(d, id);
        match first_meta_index(d, id) {
            Some(i) => {
                assert forall|j: int| 0 <= j < i implies #[trigger] m[j].id@ != id by {
                    assert(d[j] == m[j]);
                }
                assert(d[i] == m[i]);
            },
            None => {
                assert forall|j: int| 0 <= j < m.len() - 1 implies #[trigger] m[j].id@ != id by {
                    assert(d[j] == m[j]);
                }
            },
        }
    }
}

/// The list with `meta` in place of the first summary with its id, or
/// appended when there is none.
pub open spec fn upserted(m: Seq<RehearsalMeta>, meta: RehearsalMeta) -> Seq<RehearsalMeta> {
    match first_meta_index(m, meta.id@) {
        Some(i) => m.update(i, meta),
        None => m.push(meta),
    }
}

/// The ids of the summaries.
pub open spec fn meta_ids(m: Seq<RehearsalMeta>) -> Seq<Seq<char>> {
    m.map_values(|x: RehearsalMeta| x.id@)
}

/// Sort keys by creation time, then by id (an id's key is how many ids of
/// the list are before it).
pub open spec fn time_id_keys(m: Seq<RehearsalMeta>) -> Seq<(u64, u64)> {
    m.map_values(|x: RehearsalMeta| (x.created_at_unix, count_less(meta_ids(m), x.id@) as u64))
}

/// `a` comes before `b`: created earlier, or at the same time with an id
/// that comes first.
pub open spec fn meta_lt(a: RehearsalMeta, b: RehearsalMeta) -> bool {
    a.created_at_unix < b.created_at_unix || (a.created_at_unix == b.created_at_unix && seq_lt(a.id@, b.id@))
}

/// No summary comes before one listed earlier.
pub open spec fn sorted_by_time_and_id(m: Seq<RehearsalMeta>) -> bool {
    forall|i: int, j: int| 0 <= i < j < m.len() ==> !meta_lt(#[trigger] m[j], #[trigger] m[i])
}

/// Ordering by `time_id_keys` orders by time and then by id.
pub proof fn lemma_time_id_sorted(old: Seq<RehearsalMeta>, new: Seq<RehearsalMeta>)
    requires
        metas_sorted_by(old, time_id_keys(old), new),
        old.len() <= usize::MAX,
    ensures
        sorted_by_time_and_id(new),
{
    let keys = time_id_keys(old);
    let ids = meta_ids(old);
    let order = choose|order: Seq<usize>|
        #[trigger] stable_order(keys, order) && new.len() == old.len() && forall|k: int|
            0 <= k < new.len() ==> new[k] == old[order[k] as int];
    assert forall|i: int, j: int| 0 <= i < j < new.len() implies !meta_lt(#[trigger] new[j], #[trigger] new[i]) by {
        let a = order[i] as int;
        let b = order[j] as int;
        assert(crate::sort::entry_before(keys, a, b));
        assert(new[i] == old[a] && new[j] == old[b]);
        lemma_count_less_bound(ids, old[a].id@);
        lemma_count_less_bound(ids, old[b].id@);
        assert(ids[b] == old[b].id@);
        assert(keys[a] == (old[a].created_at_unix, count_less(ids, old[a].id@) as u64));
        assert(keys[b] == (old[b].created_at_unix, count_less(ids, old[b].id@) as u64));
        if old[b].created_at_unix == old[a].created_at_unix && seq_lt(old[b].id@, old[a].id@) {
            lemma_count_less_strict(ids, b, old[a].id@);
        }
    }
}

/// No two summaries share an id.
pub open spec fn ids_unique(m: Seq<RehearsalMeta>) -> bool {
    forall|i: int, j: int| 0 <= i < j < m.len() ==> (#[trigger] m[i]).id@ != (#[trigger] m[j]).id@
}

/// Saving a rehearsal never creates a second summary with the same id.
pub proof fn lemma_upsert_keeps_ids_unique(old: Seq<RehearsalMeta>, meta: RehearsalMeta, new: Seq<RehearsalMeta>)
    requires
        ids_unique(old),
        metas_sorted_by(upserted(old, meta), time_id_keys(upserted(old, meta)), new),
    ensures
        ids_unique(new),
{
    let up = upserted(old, meta);
    lemma_first_meta_index(old, meta.id@);
    assert(ids_unique(up)) by {
        match first_meta_index(old, meta.id@) {
            Some(k) => {
                assert forall|i: int, j: int| 0 <= i < j < up.len() implies (#[trigger] up[i]).id@ != (
                #[trigger] up[j]).id@ by {
                    assert(up[i].id@ == old[i].id@);
                    assert(up[j].id@ == old[j].id@);
                }
            },
            None => {
                assert forall|i: int, j: int| 0 <= i < j < up.len() implies (#[trigger] up[i]).id@ != (
                #[trigger] up[j]).id@ by {
                    if j < old.len() {
                        assert(up[i] == old[i] && up[j] == old[j]);
                    } else {
                        assert(up[j] == meta);
                        assert(up[i] == old[i]);
                    }
                }
            },
        }
    }
    let keys = time_id_keys(up);
    let order = choose|order: Seq<usize>|
        #[trigger] stable_order(keys, order) && new.len() == up.len() && forall|k: int|
            0 <= k < new.len() ==> new[k] == up[order[k] as int];
    lemma_stable_order_is_permutation(keys, order);
    assert forall|i: int, j: int| 0 <= i < j < new.len() implies (#[trigger] new[i]).id@ != (#[trigger] new[j]).id@ by {
        let a = order[i] as int;
        let b = order[j] as int;
        assert(a != b);
        assert(new[i] == up[a] && new[j] == up[b]);
        if a < b {
            assert(up[a].id@ != up[b].id@);
        } else {
            assert(up[b].id@ != up[a].id@);
        }
    }
}

/// The index of the first summary with id `id`.
fn meta_position(metas: &Vec<RehearsalMeta>, id: &str) -> (r: Option<usize>)
    ensures
        match r {
            Some(i) => first_meta_index(metas@, id@) == Some(i as int),
            None => first_meta_index(metas@, id@) is None,
        },
{
    proof {
        lemma_first_meta_index(metas@, id@);
    }
    let mut i: usize = 0;
    while i < metas.len()
        invariant
            i <= metas@.len(),
            forall|j: int| 0 <= j < i ==> #[trigger] metas@[j].id@ != id@,
        decreases metas@.len() - i,
    {
        if str_eq(metas[i].id.as_str(), id) {
            proof {
                lemma_first_meta_index(metas@, id@);
                match first_meta_index(metas@, id@) {
                    Some(k) => {
                        if k > i {
                            assert(metas@[i as int].id@ == id@);
                        }
                    },
                    None => {
                        assert(metas@[i as int].id@ == id@);
                    },
                }
            }
            return Some(i);
        }
        i = i + 1;
    }
    proof {
        lemma_first_meta_index(metas@, id@);
    }
    None
}

/// Records the summary of a saved rehearsal: it replaces the summary with
/// the same id, or is added; the list is then ordered by creation time and
/// id.
pub fn upsert_rehearsal_meta(metas: &mut Vec<RehearsalMeta>, meta: RehearsalMeta)
    ensures
        metas_sorted_by(
            upserted(old(metas)@, meta),
            time_id_keys(upserted(old(metas)@, meta)),
            final(metas)@,
        ),
        sorted_by_time_and_id(final(metas)@),
        exists|k: int| 0 <= k < final(metas)@.len() && #[trigger] final(metas)@[k] == meta,
        ids_unique(old(metas)@) ==> ids_unique(final(metas)@),
{
    let ghost up = upserted(metas@, meta);
    let ghost target: int;
    match meta_position(metas, meta.id.as_str()) {
        Some(i) => {
            proof {
                lemma_first_meta_index(metas@, meta.id@);
                target = i as int;
            }
            metas.set(i, meta);
        },
        None => {
            proof {
                target = metas@.len() as int;
            }
            metas.push(meta);
        },
    }
    assert(metas@ =~= up);
    assert(up[target] == meta);
    let mut ids: Vec<String> = Vec::new();
    let mut i: usize = 0;
    while i < metas.len()
        invariant
            i <= metas@.len(),
            ids@.map_values(|s: String| s@) == meta_ids(metas@).take(i as int),
        decreases metas@.len() - i,
    {
        let ghost before = ids@;
        ids.push(metas[i].id.clone());
        proof {
            assert(ids@.map_values(|s: String| s@) =~= before.map_values(|s: String| s@).push(metas@[i as int].id@));
            assert(meta_ids(metas@).take(i + 1) =~= meta_ids(metas@).take(i as int).push(metas@[i as int].id@));
        }
        i = i + 1;
    }
    proof {
        assert(ids@.map_values(|s: String| s@) =~= meta_ids(metas@));
    }
    let mut keys: Vec<(u64, u64)> = Vec::new();
    let mut k: usize = 0;
    while k < metas.len()
        invariant
            k <= metas@.len(),
            ids@.map_values(|s: String| s@) == meta_ids(metas@),
            keys@ == time_id_keys(metas@).take(k as int),
        decreases metas@.len() - k,
    {
        let rank = count_before(&ids, metas[k].id.as_str());
        keys.push((metas[k].created_at_unix, rank));
        proof {
            assert(keys@ =~= time_id_keys(metas@).take(k + 1));
        }
        k = k + 1;
    }
    proof {
        assert(keys@ =~= time_id_keys(metas@));
    }
    let sorted = sort_metas(metas, &keys);
    proof {
        let order = choose|order: Seq<usize>|
            #[trigger] stable_order(keys@, order) && sorted@.len() == up.len() && forall|q: int|
                0 <= q < sorted@.len() ==> sorted@[q] == up[order[q] as int];
        lemma_stable_order_is_permutation(keys@, order);
        lemma_permutation_covers(order, up.len() as int);
        assert(lists(order, target));
        let q = choose|q: int| 0 <= q < order.len() && order[q] as int == target;
        assert(sorted@[q] == meta);
        lemma_time_id_sorted(up, sorted@);
        if ids_unique(old(metas)@) {
            lemma_upsert_keeps_ids_unique(old(metas)@, meta, sorted@);
        }
    }
    *metas = sorted;
}

/// The listing of projects as (id, name) pairs, ordered by id and then name.
pub open spec fn listing_keys(l: Seq<(String, String)>) -> Seq<(u64, u64)> {
    l.map_values(
        |p: (String, String)|
            (
                count_less(l.map_values(|q: (String, String)| q.0@), p.0@) as u64,
                count_less(l.map_values(|q: (String, String)| q.1@), p.1@) as u64,
            ),
    )
}

/// `new` is `old` ordered by id and then by name.
pub open spec fn listing_sorted_from(old: Seq<(String, String)>, new: Seq<(String, String)>) -> bool {
    exists|order: Seq<usize>|
        #[trigger] stable_order(listing_keys(old), order) && new.len() == old.len() && forall|k: int|
            0 <= k < new.len() ==> new[k] == old[order[k] as int]
}

/// Orders the listing of projects by id and then by name.
pub fn sort_project_list(list: &Vec<(String, String)>) -> (r: Vec<(String, String)>)
    ensures
        listing_sorted_from(list@, r@),
        forall|i: int, j: int|
            0 <= i < j < r@.len() ==> !(seq_lt((#[trigger] r@[j]).0@, (#[trigger] r@[i]).0@) || (r@[j].0@ == r@[i].0@
                && seq_lt(r@[j].1@, r@[i].1@))),
{
    let ghost ids = list@.map_values(|q: (String, String)| q.0@);
    let ghost names = list@.map_values(|q: (String, String)| q.1@);
    let mut id_list: Vec<String> = Vec::new();
    let mut name_list: Vec<String> = Vec::new();
    let mut i: usize = 0;
    while i < list.len()
        invariant
            i <= list@.len(),
            ids == list@.map_values(|q: (String, String)| q.0@),
            names == list@.map_values(|q: (String, String)| q.1@),
            id_list@.map_values(|s: String| s@) == ids.take(i as int),
            name_list@.map_values(|s: String| s@) == names.take(i as int),
        decreases list@.len() - i,
    {
        let ghost b1 = id_list@;
        let ghost b2 = name_list@;
        id_list.push(list[i].0.clone());
        name_list.push(list[i].1.clone());
        proof {
            assert(id_list@.map_values(|s: String| s@) =~= b1.map_values(|s: String| s@).push(list@[i as int].0@));
            assert(name_list@.map_values(|s: String| s@) =~= b2.map_values(|s: String| s@).push(list@[i as int].1@));
            assert(ids.take(i + 1) =~= ids.take(i as int).push(list@[i as int].0@));
            assert(names.take(i + 1) =~= names.take(i as int).push(list@[i as int].1@));
        }
        i = i + 1;
    }
    proof {
        assert(id_list@.map_values(|s: String| s@) =~= ids);
        assert(name_list@.map_values(|s: String| s@) =~= names);
    }
    let mut keys: Vec<(u64, u64)> = Vec::new();
    let mut k: usize = 0;
    while k < list.len()
        invariant
            k <= list@.len(),
            ids == list@.map_values(|q: (String, String)| q.0@),
            names == list@.map_values(|q: (String, String)| q.1@),
            id_list@.map_values(|s: String| s@) == ids,
            name_list@.map_values(|s: String| s@) == names,
            keys@ == listing_keys(list@).take(k as int),
        decreases list@.len() - k,
    {
        let a = count_before(&id_list, list[k].0.as_str());
        let b = count_before(&name_list, list[k].1.as_str());
        keys.push((a, b));
        proof {
            assert(keys@ =~= listing_keys(list@).take(k + 1));
        }
        k = k + 1;
    }
    proof {
        assert(keys@ =~= listing_keys(list@));
    }
    let order = stable_sort_indices(&keys);
    let mut out: Vec<(String, String)> = Vec::new();
    let mut q: usize = 0;
    while q < order.len()
        invariant
            keys@ == listing_keys(list@),
            stable_order(keys@, order@),
            q <= order@.len(),
            out@.len() == q,
            forall|a: int| 0 <= a < q ==> out@[a] == list@[#[trigger] order@[a] as int],
        decreases order@.len() - q,
    {
        let (x, y) = &list[order[q]];
        out.push((x.clone(), y.clone()));
        q = q + 1;
    }
    proof {
        let keys_s = listing_keys(list@);
        assert forall|i: int, j: int| 0 <= i < j < out@.len() implies !(seq_lt((#[trigger] out@[j]).0@, (#[trigger] out@[i]).0@) || (out@[j].0@ == out@[i].0@
                && seq_lt(out@[j].1@, out@[i].1@))) by {
            let a = order@[i] as int;
            let b = order@[j] as int;
            assert(crate::sort::entry_before(keys_s, a, b));
            assert(ids[a] == list@[a].0@ && ids[b] == list@[b].0@);
            assert(names[a] == list@[a].1@ && names[b] == list@[b].1@);
            lemma_count_less_bound(ids, list@[a].0@);
            lemma_count_less_bound(ids, list@[b].0@);
            lemma_count_less_bound(names, list@[a].1@);
            lemma_count_less_bound(names, list@[b].1@);
            if seq_lt(list@[b].0@, list@[a].0@) {
                lemma_count_less_strict(ids, b, list@[a].0@);
            } else if list@[b].0@ == list@[a].0@ && seq_lt(list@[b].1@, list@[a].1@) {
                lemma_count_less_strict(names, b, list@[a].1@);
            }
        }
    }
    out
}

} // verus!
