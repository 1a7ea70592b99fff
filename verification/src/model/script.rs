//! The script: sentences at three levels of detail (full text, a shorter
//! prompt, keywords only), each optionally tied to a page and a time.
use vstd::prelude::*;

use crate::scalar::Real;
use crate::text::{blank, chars_of, is_blank, push_char, push_str, str_eq, trim_chars, trim_seq};

verus! {

/// Section ids are readable strings such as `s1`.
pub type SectionId = String;

#[derive(Clone, Debug)]
pub struct ScriptSection {
    pub id: SectionId,
    /// The full text (read while editing).
    pub full: String,
    /// A shortened prompt (read while practising).
    pub prompt: String,
    /// Keywords only (read while presenting).
    pub minimal: String,
    /// The page this sentence roughly belongs to.
    pub page_id: Option<String>,
    /// When this sentence started in the latest recording (a working copy of
    /// the rehearsal's script marks).
    pub reveal_time: Option<Real>,
}

/// The three levels of the script.
#[derive(Clone, Copy, Debug, PartialEq, Eq, Structural)]
pub enum ScriptLevel {
    Full,
    Prompt,
    Minimal,
}

impl Default for ScriptLevel {
    fn default() -> (r: Self)
        ensures
            r == ScriptLevel::Full,
    {
        ScriptLevel::Full
    }
}

impl ScriptLevel {
    /// The level after this one, cycling.
    pub open spec fn spec_next(self) -> ScriptLevel {
        match self {
            ScriptLevel::Full => ScriptLevel::Prompt,
            ScriptLevel::Prompt => ScriptLevel::Minimal,
            ScriptLevel::Minimal => ScriptLevel::Full,
        }
    }

    /// The label shown for the level.
    pub fn label(self) -> (r: &'static str)
        ensures
            r@ == (match self {
                ScriptLevel::Full => "完整"@,
                ScriptLevel::Prompt => "提示"@,
                ScriptLevel::Minimal => "关键词"@,
            }),
    {
        match self {
            ScriptLevel::Full => "完整",
            ScriptLevel::Prompt => "提示",
            ScriptLevel::Minimal => "关键词",
        }
    }

    /// The next level: Full, Prompt, Minimal, then Full again.
    pub fn next(self) -> (r: Self)
        ensures
            r == self.spec_next(),
    {
        match self {
            ScriptLevel::Full => ScriptLevel::Prompt,
            ScriptLevel::Prompt => ScriptLevel::Minimal,
            ScriptLevel::Minimal => ScriptLevel::Full,
        }
    }
}

/// Three steps of `next` lead back to the level one started from.
pub proof fn lemma_level_cycle(l: ScriptLevel)
    ensures
        l.spec_next().spec_next().spec_next() == l,
        l.spec_next() != l,
{
}

#[derive(Clone, Debug)]
pub struct ScriptDoc {
    pub sections: Vec<ScriptSection>,
}

impl Default for ScriptDoc {
    fn default() -> (r: Self)
        ensures
            r.sections@.len() == 0,
    {
        ScriptDoc { sections: Vec::new() }
    }
}

/// The index of the first section with id `id`, if any.
pub open spec fn first_section_index(secs: Seq<ScriptSection>, id: Seq<char>) -> Option<int>
    decreases secs.len(),
{
    if secs.len() == 0 {
        None
    } else {
        match first_section_index(secs.drop_last(), id) {
            Some(i) => Some(i),
            None => if secs.last().id@ == id {
                Some(secs.len() - 1)
            } else {
                None
            },
        }
    }
}

/// `first_section_index` is the first match.
pub proof fn lemma_first_section_index(secs: Seq<ScriptSection>, id: Seq<char>)
    ensures
        match first_section_index(secs, id) {
            Some(i) => 0 <= i < secs.len() && secs[i].id@ == id && forall|j: int|
                0 <= j < i ==> #[trigger] secs[j].id@ != id,
            None => forall|j: int| 0 <= j < secs.len() ==> #[trigger] secs[j].id@ != id,
        },
    decreases secs.len(),
{
    if secs.len() > 0 {
        let d = secs.drop_last();
        lemma_first_section_index(d, id);
        match first_section_index(d, id) {
            Some(i) => {
                assert forall|j: int| 0 <= j < i implies #[trigger] secs[j].id@ != id by {
                    assert(d[j] == secs[j]);
                }
            },
            None => {
                assert forall|j: int| 0 <= j < secs.len() - 1 implies #[trigger] secs[j].id@ != id by {
                    assert(d[j] == secs[j]);
                }
            },
        }
    }
}

impl ScriptDoc {
    /// The index of the first section with id `id`.
    pub fn section_index(&self, id: &str) -> (r: Option<usize>)
        ensures
            match r {
                Some(i) => first_section_index(self.sections@, id@) == Some(i as int),
                None => first_section_index(self.sections@, id@) is None,
            },
    {
        let mut i: usize = 0;
        while i < self.sections.len()
            invariant
                i <= self.sections@.len(),
                forall|j: int| 0 <= j < i ==> #[trigger] self.sections@[j].id@ != id@,
            decreases self.sections@.len() - i,
        {
            if str_eq(self.sections[i].id.as_str(), id) {
                proof {
                    lemma_first_section_index(self.sections@, id@);
                    match first_section_index(self.sections@, id@) {
                        Some(k) => {
                            if k != i {
                                assert(self.sections@[k].id@ == id@);
                            }
                        },
                        None => {
                            assert(self.sections@[i as int].id@ == id@);
                        },
                    }
                }
                return Some(i);
            }
            i = i + 1;
        }
        proof {
            lemma_first_section_index(self.sections@, id@);
        }
        None
    }

    /// Whether the script has no section.
    pub fn is_empty(&self) -> (r: bool)
        ensures
            r == (self.sections@.len() == 0),
    {
        self.sections.len() == 0
    }
}

} // verus!

verus! {

/// Characters that end a clause: Chinese and ASCII punctuation and newline.
pub open spec fn is_clause_break(c: char) -> bool {
    c == '。' || c == '，' || c == '；' || c == '！' || c == '？' || c == '、' || c == '.' || c == ','
        || c == ';' || c == '!' || c == '?' || c == '\n'
}

fn clause_break(c: char) -> (r: bool)
    ensures
        r == is_clause_break(c),
{
    c == '。' || c == '，' || c == '；' || c == '！' || c == '？' || c == '、' || c == '.' || c == ','
        || c == ';' || c == '!' || c == '?' || c == '\n'
}

/// `done` with `t` appended when `t` is not empty.
pub open spec fn keep_nonempty(done: Seq<Seq<char>>, t: Seq<char>) -> Seq<Seq<char>> {
    if t.len() > 0 {
        done.push(t)
    } else {
        done
    }
}

/// Scanning `s` left to right: the finished clauses (trimmed, non-empty)
/// and the characters of the clause still open.
pub open spec fn clause_scan(s: Seq<char>) -> (Seq<Seq<char>>, Seq<char>)
    decreases s.len(),
{
    if s.len() == 0 {
        (Seq::empty(), Seq::empty())
    } else {
        let prev = clause_scan(s.drop_last());
        let c = s.last();
        if is_clause_break(c) {
            (keep_nonempty(prev.0, trim_seq(prev.1)), Seq::empty())
        } else {
            (prev.0, prev.1.push(c))
        }
    }
}

/// The clauses of `s`: the text between punctuation, trimmed, empty ones
/// dropped. A text with no clause gives the whole text trimmed.
pub open spec fn clauses(s: Seq<char>) -> Seq<Seq<char>> {
    let sc = clause_scan(s);
    let out = keep_nonempty(sc.0, trim_seq(sc.1));
    if out.len() == 0 {
        seq![trim_seq(s)]
    } else {
        out
    }
}

/// The first `max` characters of `s`, with `…` appended when some were cut.
pub open spec fn truncated(s: Seq<char>, max: nat) -> Seq<char> {
    if s.len() > max {
        s.take(max as int).push('…')
    } else {
        s
    }
}

/// The first clause, followed by a space and the second one when the
/// first is shorter than `max`.
pub open spec fn compact_join(parts: Seq<Seq<char>>, max: nat) -> Seq<char> {
    let a = if parts.len() > 0 {
        parts[0]
    } else {
        Seq::empty()
    };
    if parts.len() > 1 && a.len() < max {
        (if a.len() > 0 {
            a.push(' ')
        } else {
            a
        }) + parts[1]
    } else {
        a
    }
}

/// The short prompt for a sentence: its first clause or two, at most `max`
/// characters (plus `…`).
pub open spec fn compact_text(full: Seq<char>, max: nat) -> Seq<char> {
    truncated(compact_join(clauses(full), max), max)
}

/// `parts` joined with `sep` between them.
pub open spec fn join_with(parts: Seq<Seq<char>>, sep: Seq<char>) -> Seq<char>
    decreases parts.len(),
{
    if parts.len() == 0 {
        Seq::empty()
    } else if parts.len() == 1 {
        parts[0]
    } else {
        join_with(parts.drop_last(), sep) + sep + parts.last()
    }
}

/// The keywords of a sentence: the first `n` clauses, each cut to six
/// characters, joined with ` · `.
pub open spec fn keyword_text(full: Seq<char>, n: nat) -> Seq<char> {
    let cl = clauses(full);
    let m = if n < cl.len() {
        n as int
    } else {
        cl.len() as int
    };
    join_with(cl.take(m).map_values(|p: Seq<char>| truncated(p, 6)), " · "@)
}

/// Joining one more part adds a separator and that part.
proof fn lemma_join_with_step(parts: Seq<Seq<char>>, sep: Seq<char>, k: int)
    requires
        1 <= k < parts.len(),
    ensures
        join_with(parts.take(k + 1), sep) == join_with(parts.take(k), sep) + sep + parts[k],
{
    assert(parts.take(k + 1).drop_last() =~= parts.take(k));
    assert(parts.take(k + 1).last() == parts[k]);
}

/// A sentence always has at least one clause.
pub proof fn lemma_clauses_nonempty(s: Seq<char>)
    ensures
        clauses(s).len() >= 1,
{
}

/// The keywords are made from the sentence's clauses in order, from the
/// first: with one keyword it is the first clause (cut to six characters);
/// each further keyword, while clauses remain, appends ` · ` and the next
/// clause; asking for more keywords than there are clauses changes
/// nothing. So fewer keywords are always a prefix of more.
pub proof fn lemma_keywords_from_the_first_clause(full: Seq<char>, n: nat)
    ensures
        keyword_text(full, 0) == Seq::<char>::empty(),
        keyword_text(full, 1) == truncated(clauses(full)[0], 6),
        1 <= n < clauses(full).len() ==> keyword_text(full, n + 1) == keyword_text(full, n) + " · "@ + truncated(
            clauses(full)[n as int],
            6,
        ),
        n >= clauses(full).len() ==> keyword_text(full, n + 1) == keyword_text(full, n),
        keyword_text(full, n).len() <= keyword_text(full, n + 1).len() && keyword_text(full, n + 1).subrange(
            0,
            keyword_text(full, n).len() as int,
        ) == keyword_text(full, n),
{
    let cl = clauses(full);
    lemma_clauses_nonempty(full);
    let pieces = cl.map_values(|p: Seq<char>| truncated(p, 6));
    assert(cl.take(0).map_values(|p: Seq<char>| truncated(p, 6)) =~= pieces.take(0));
    assert(cl.take(1).map_values(|p: Seq<char>| truncated(p, 6)) =~= pieces.take(1));
    if n < cl.len() {
        assert(cl.take(n as int).map_values(|p: Seq<char>| truncated(p, 6)) =~= pieces.take(n as int));
        assert(cl.take((n + 1) as int).map_values(|p: Seq<char>| truncated(p, 6)) =~= pieces.take((n + 1) as int));
    }
    assert(keyword_text(full, 0) == join_with(pieces.take(0), " · "@));
    assert(pieces.take(0).len() == 0);
    assert(keyword_text(full, 1) == join_with(pieces.take(1), " · "@));
    assert(pieces.take(1).len() == 1 && pieces.take(1)[0] == truncated(cl[0], 6));
    if 1 <= n < cl.len() {
        lemma_join_with_step(pieces, " · "@, n as int);
        assert(keyword_text(full, n + 1) == join_with(pieces.take((n + 1) as int), " · "@));
        assert(keyword_text(full, n) == join_with(pieces.take(n as int), " · "@));
        let a = keyword_text(full, n);
        let b = keyword_text(full, n + 1);
        assert(b.subrange(0, a.len() as int) =~= a);
    } else if n >= cl.len() {
        assert(keyword_text(full, n + 1) == keyword_text(full, n));
    } else {
        let b = keyword_text(full, 1);
        assert(keyword_text(full, 0).len() == 0);
        assert(b.subrange(0, 0) =~= Seq::<char>::empty());
    }
}

/// Splits a text into clauses at Chinese and ASCII punctuation and
/// newlines; see [`clauses`].
pub fn split_clauses(text: &str) -> (r: Vec<String>)
    ensures
        r@.map_values(|x: String| x@) == clauses(text@),
{
    let chars = chars_of(text);
    let mut out: Vec<String> = Vec::new();
    let mut cur: Vec<char> = Vec::new();
    let mut i: usize = 0;
    while i < chars.len()
        invariant
            chars@ == text@,
            i <= chars@.len(),
            out@.map_values(|x: String| x@) == clause_scan(chars@.take(i as int)).0,
            cur@ == clause_scan(chars@.take(i as int)).1,
        decreases chars@.len() - i,
    {
        proof {
            assert(chars@.take(i + 1).drop_last() =~= chars@.take(i as int));
        }
        let ch = chars[i];
        if clause_break(ch) {
            let t = trim_chars(&cur);
            if !t.as_str().is_empty() {
                let ghost before = out@;
                out.push(t);
                proof {
                    assert(out@.map_values(|x: String| x@) =~= before.map_values(|x: String| x@).push(t@));
                }
            }
            cur = Vec::new();
        } else {
            cur.push(ch);
        }
        i = i + 1;
    }
    proof {
        assert(chars@.take(i as int) =~= chars@);
    }
    let t = trim_chars(&cur);
    if !t.as_str().is_empty() {
        let ghost before = out@;
        out.push(t);
        proof {
            assert(out@.map_values(|x: String| x@) =~= before.map_values(|x: String| x@).push(t@));
        }
    }
    if out.len() == 0 {
        let whole = trim_chars(&chars);
        let ghost before = out@;
        out.push(whole);
        proof {
            assert(out@.map_values(|x: String| x@) =~= seq![trim_seq(text@)]);
        }
    }
    out
}

/// The first `max` characters of `v`, plus `…` if there were more.
fn truncate_vec(v: &Vec<char>, max: usize) -> (r: String)
    ensures
        r@ == truncated(v@, max as nat),
{
    let n = if v.len() < max {
        v.len()
    } else {
        max
    };
    let mut out = String::new();
    let mut k: usize = 0;
    while k < n
        invariant
            n <= v@.len(),
            n <= max,
            k <= n,
            out@ == v@.take(k as int),
        decreases n - k,
    {
        push_char(&mut out, v[k]);
        proof {
            assert(v@.take(k + 1) =~= v@.take(k as int).push(v@[k as int]));
        }
        k = k + 1;
    }
    if v.len() > max {
        push_char(&mut out, '…');
    } else {
        proof {
            assert(v@.take(n as int) =~= v@);
        }
    }
    out
}

/// The first `max` characters of `s`, plus `…` if there were more.
pub fn truncate_chars(s: &str, max: usize) -> (r: String)
    ensures
        r@ == truncated(s@, max as nat),
{
    let v = chars_of(s);
    truncate_vec(&v, max)
}

/// Shortens a sentence into a prompt; see [`compact_text`].
pub fn compact(full: &str, max_chars: usize) -> (r: String)
    ensures
        r@ == compact_text(full@, max_chars as nat),
{
    let parts = split_clauses(full);
    proof {
        assert(parts@.len() == clauses(full@).len());
        assert forall|k: int| 0 <= k < parts@.len() implies #[trigger] parts@[k]@ == clauses(full@)[k] by {
            assert(parts@.map_values(|x: String| x@)[k] == parts@[k]@);
        }
    }
    let mut out: Vec<char> = Vec::new();
    if parts.len() > 0 {
        let first = chars_of(parts[0].as_str());
        out = first;
    }
    if parts.len() > 1 && out.len() < max_chars {
        if out.len() > 0 {
            out.push(' ');
        }
        let second = chars_of(parts[1].as_str());
        let mut k: usize = 0;
        let ghost base = out@;
        while k < second.len()
            invariant
                k <= second@.len(),
                out@ == base + second@.take(k as int),
            decreases second@.len() - k,
        {
            out.push(second[k]);
            proof {
                assert(second@.take(k + 1) =~= second@.take(k as int).push(second@[k as int]));
            }
            k = k + 1;
        }
        proof {
            assert(second@.take(k as int) =~= second@);
        }
    }
    truncate_vec(&out, max_chars)
}

/// The keywords of a sentence; see [`keyword_text`].
pub fn keywords(full: &str, n: usize) -> (r: String)
    ensures
        r@ == keyword_text(full@, n as nat),
{
    let parts = split_clauses(full);
    let ghost cl = clauses(full@);
    proof {
        assert(parts@.len() == cl.len());
        assert forall|k: int| 0 <= k < parts@.len() implies #[trigger] parts@[k]@ == cl[k] by {
            assert(parts@.map_values(|x: String| x@)[k] == parts@[k]@);
        }
    }
    let m = if parts.len() < n {
        parts.len()
    } else {
        n
    };
    let ghost pieces = cl.take(m as int).map_values(|p: Seq<char>| truncated(p, 6));
    proof {
        assert(pieces.len() == m);
    }
    let mut out = String::new();
    let mut k: usize = 0;
    while k < m
        invariant
            m <= parts@.len(),
            m == pieces.len(),
            parts@.len() == cl.len(),
            forall|q: int| 0 <= q < parts@.len() ==> #[trigger] parts@[q]@ == cl[q],
            pieces == cl.take(m as int).map_values(|p: Seq<char>| truncated(p, 6)),
            k <= m,
            out@ == join_with(pieces.take(k as int), " · "@),
        decreases m - k,
    {
        let piece = truncate_chars(parts[k].as_str(), 6);
        proof {
            assert(piece@ == pieces[k as int]);
            assert(pieces.take(k + 1).drop_last() =~= pieces.take(k as int));
        }
        if k > 0 {
            push_str(&mut out, " · ");
        } else {
            proof {
                assert(pieces.take(0) =~= Seq::<Seq<char>>::empty());
            }
        }
        push_str(&mut out, piece.as_str());
        k = k + 1;
    }
    proof {
        assert(pieces.take(m as int) =~= pieces);
    }
    out
}

/// The text shown at `level`: the full text; the prompt unless it is blank
/// (then the full text); the keywords unless blank (then the prompt unless
/// blank, then the full text).
pub open spec fn level_text(s: ScriptSection, level: ScriptLevel) -> Seq<char> {
    match level {
        ScriptLevel::Full => s.full@,
        ScriptLevel::Prompt => if blank(s.prompt@) {
            s.full@
        } else {
            s.prompt@
        },
        ScriptLevel::Minimal => if !blank(s.minimal@) {
            s.minimal@
        } else if !blank(s.prompt@) {
            s.prompt@
        } else {
            s.full@
        },
    }
}

/// A sentence whose full text is not blank shows something at every level.
pub proof fn lemma_level_text_not_blank(s: ScriptSection, level: ScriptLevel)
    requires
        !blank(s.full@),
    ensures
        !blank(level_text(s, level)),
{
}

impl ScriptSection {
    /// A sentence with its prompt and keywords made from the full text.
    pub fn new(id: &str, full: &str) -> (r: Self)
        ensures
            r.id@ == id@,
            r.full@ == full@,
            r.prompt@ == compact_text(full@, 12),
            r.minimal@ == keyword_text(full@, 3),
            r.page_id is None,
            r.reveal_time is None,
    {
        ScriptSection {
            id: id.to_owned(),
            prompt: compact(full, 12),
            minimal: keywords(full, 3),
            full: full.to_owned(),
            page_id: None,
            reveal_time: None,
        }
    }

    /// The text at `level`, falling back to a fuller level when that level
    /// is blank, so the panel never shows nothing.
    pub fn text(&self, level: ScriptLevel) -> (r: &str)
        ensures
            r@ == level_text(*self, level),
    {
        match level {
            ScriptLevel::Full => self.full.as_str(),
            ScriptLevel::Prompt => {
                if is_blank(self.prompt.as_str()) {
                    self.full.as_str()
                } else {
                    self.prompt.as_str()
                }
            },
            ScriptLevel::Minimal => {
                if !is_blank(self.minimal.as_str()) {
                    self.minimal.as_str()
                } else if !is_blank(self.prompt.as_str()) {
                    self.prompt.as_str()
                } else {
                    self.full.as_str()
                }
            },
        }
    }
}

} // verus!
