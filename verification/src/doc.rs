//! Markdown → [`Doc`]: a title, front matter, and one [`Section`] per place
//! in the world — a `##` heading (`world`), or a `---`-separated slide
//! (`genre: deck`), named by the slide's first heading.
//!
//! `pulldown_cmark` turns the text into events ([`crate::markdown`]); the
//! reader here folds them into a document, and its contract is that fold,
//! stated event by event in [`step`].

use vstd::prelude::*;
use vstd::std_specs::cmp::PartialEqSpecImpl;
use vstd::utf8::encode_utf8;

use crate::hash::{blake3_digest, hash_text, SectionHash};
use crate::markdown::{events_view, markdown_events, parse_markdown, MdEvent, MdEventView};
use crate::text::{
    chars_of, find_char, find_char_in, lemma_trim_idempotent, push_all, slice_chars, str_eq,
    string_of, strip_quotes, strip_quotes_chars, trim, trim_chars,
};

verus! {

// ---------------------------------------------------------------------------
// Front matter

/// `key: value` pairs from a leading `---` block, each key once. Two are
/// equal when they map the same keys to the same values, whatever the order
/// of their lines.
#[derive(Clone, Debug, Eq)]
pub struct FrontMatter {
    entries: Vec<(String, String)>,
}

/// The map that a list of pairs describes, a later pair winning.
pub open spec fn pairs_map(s: Seq<(String, String)>) -> Map<Seq<char>, Seq<char>>
    decreases s.len(),
{
    if s.len() == 0 {
        Map::empty()
    } else {
        pairs_map(s.drop_last()).insert(s.last().0@, s.last().1@)
    }
}

/// No key occurs twice.
pub open spec fn distinct_keys(s: Seq<(String, String)>) -> bool {
    forall|i: int, j: int| 0 <= i < j < s.len() ==> s[i].0@ != s[j].0@
}

proof fn lemma_pairs_map_find(s: Seq<(String, String)>, k: Seq<char>)
    requires
        distinct_keys(s),
    ensures
        forall|i: int| 0 <= i < s.len() && s[i].0@ == k ==> pairs_map(s).contains_key(k)
            && pairs_map(s)[k] == s[i].1@,
        (forall|i: int| 0 <= i < s.len() ==> s[i].0@ != k) ==> !pairs_map(s).contains_key(k),
    decreases s.len(),
{
    if s.len() > 0 {
        lemma_pairs_map_find(s.drop_last(), k);
        assert forall|i: int| 0 <= i < s.len() && s[i].0@ == k implies pairs_map(s).contains_key(
            k,
        ) && pairs_map(s)[k] == s[i].1@ by {
            if i < s.len() - 1 {
                assert(s.drop_last()[i] == s[i]);
            }
        }
        if forall|i: int| 0 <= i < s.len() ==> s[i].0@ != k {
            assert forall|i: int| 0 <= i < s.drop_last().len() implies s.drop_last()[i].0@ != k by {
                assert(s.drop_last()[i] == s[i]);
            }
        }
    }
}

proof fn lemma_pairs_map_has(s: Seq<(String, String)>, k: Seq<char>)
    ensures
        pairs_map(s).contains_key(k) <==> exists|i: int| 0 <= i < s.len() && #[trigger] s[i].0@ == k,
    decreases s.len(),
{
    if s.len() > 0 {
        let d = s.drop_last();
        lemma_pairs_map_has(d, k);
        if exists|i: int| 0 <= i < d.len() && #[trigger] d[i].0@ == k {
            let i = choose|i: int| 0 <= i < d.len() && #[trigger] d[i].0@ == k;
            assert(s[i] == d[i]);
        }
        if exists|i: int| 0 <= i < s.len() && #[trigger] s[i].0@ == k {
            let i = choose|i: int| 0 <= i < s.len() && #[trigger] s[i].0@ == k;
            if i < s.len() - 1 {
                assert(d[i] == s[i]);
            }
        }
    }
}

proof fn lemma_pairs_map_last(s: Seq<(String, String)>, k: Seq<char>, i: int)
    requires
        0 <= i < s.len(),
        s[i].0@ == k,
        forall|j: int| i < j < s.len() ==> #[trigger] s[j].0@ != k,
    ensures
        pairs_map(s).contains_key(k),
        pairs_map(s)[k] == s[i].1@,
    decreases s.len(),
{
    if i < s.len() - 1 {
        let d = s.drop_last();
        assert(s[s.len() - 1].0@ != k);
        assert(d[i] == s[i]);
        assert forall|j: int| i < j < d.len() implies #[trigger] d[j].0@ != k by {
            assert(d[j] == s[j]);
        }
        lemma_pairs_map_last(d, k, i);
    }
}

proof fn lemma_pairs_map_update(s: Seq<(String, String)>, i: int, p: (String, String))
    requires
        distinct_keys(s),
        0 <= i < s.len(),
        s[i].0@ == p.0@,
    ensures
        pairs_map(s.update(i, p)) =~= pairs_map(s).insert(p.0@, p.1@),
        distinct_keys(s.update(i, p)),
    decreases s.len(),
{
    let t = s.update(i, p);
    if i == s.len() - 1 {
        assert(t.drop_last() =~= s.drop_last());
    } else {
        assert(t.drop_last() =~= s.drop_last().update(i, p));
        lemma_pairs_map_update(s.drop_last(), i, p);
    }
}

impl View for FrontMatter {
    type V = Map<Seq<char>, Seq<char>>;

    closed spec fn view(&self) -> Map<Seq<char>, Seq<char>> {
        pairs_map(self.entries@)
    }
}

impl FrontMatter {
    /// The pairs hold each key once.
    pub closed spec fn wf(&self) -> bool {
        distinct_keys(self.entries@)
    }

    /// No pairs.
    pub fn new() -> (m: FrontMatter)
        ensures
            m.wf(),
            m@ == Map::<Seq<char>, Seq<char>>::empty(),
    {
        FrontMatter { entries: Vec::new() }
    }

    /// Set `key` to `value`, replacing an earlier value.
    pub fn insert(&mut self, key: String, value: String)
        requires
            old(self).wf(),
        ensures
            final(self).wf(),
            final(self)@ == old(self)@.insert(key@, value@),
    {
        let mut i: usize = 0;
        while i < self.entries.len()
            invariant
                i <= self.entries@.len(),
                self.wf(),
                self.entries@ == old(self).entries@,
                forall|k: int| 0 <= k < i ==> self.entries@[k].0@ != key@,
            decreases self.entries.len() - i,
        {
            if str_eq(self.entries[i].0.as_str(), key.as_str()) {
                let ghost before = self.entries@;
                proof {
                    lemma_pairs_map_update(before, i as int, (key, value));
                }
                self.entries.set(i, (key, value));
                return;
            }
            i = i + 1;
        }
        let ghost before = self.entries@;
        self.entries.push((key, value));
        proof {
            assert(self.entries@.drop_last() =~= before);
        }
    }

    /// The value of `key`, if set.
    pub fn get(&self, key: &str) -> (r: Option<&str>)
        requires
            self.wf(),
        ensures
            r matches Some(v) ==> self@.contains_key(key@) && self@[key@] == v@,
            r is None ==> !self@.contains_key(key@),
    {
        proof {
            lemma_pairs_map_find(self.entries@, key@);
        }
        let mut i: usize = 0;
        while i < self.entries.len()
            invariant
                i <= self.entries@.len(),
                self.wf(),
                forall|k: int| 0 <= k < i ==> self.entries@[k].0@ != key@,
            decreases self.entries.len() - i,
        {
            if str_eq(self.entries[i].0.as_str(), key) {
                proof {
                    lemma_pairs_map_find(self.entries@, key@);
                }
                return Some(self.entries[i].1.as_str());
            }
            i = i + 1;
        }
        None
    }

    /// The value of `key`, if set: the last pair for it wins.
    fn lookup(&self, key: &str) -> (r: Option<&str>)
        ensures
            r matches Some(v) ==> self@.contains_key(key@) && self@[key@] == v@,
            r is None ==> !self@.contains_key(key@),
    {
        proof {
            lemma_pairs_map_has(self.entries@, key@);
        }
        let mut i: usize = self.entries.len();
        while i > 0
            invariant
                i <= self.entries@.len(),
                forall|j: int| i <= j < self.entries@.len() ==> self.entries@[j].0@ != key@,
            decreases i,
        {
            if str_eq(self.entries[i - 1].0.as_str(), key) {
                proof {
                    lemma_pairs_map_last(self.entries@, key@, i - 1);
                }
                return Some(self.entries[i - 1].1.as_str());
            }
            i = i - 1;
        }
        proof {
            if exists|j: int| 0 <= j < self.entries@.len() && #[trigger] self.entries@[j].0@ == key@ {
                let j = choose|j: int| 0 <= j < self.entries@.len() && #[trigger] self.entries@[j].0@ == key@;
                assert(self.entries@[j].0@ != key@);
            }
        }
        None
    }

    /// How many keys are set.
    pub fn len(&self) -> (n: usize)
        requires
            self.wf(),
        ensures
            n == self@.dom().len(),
    {
        proof {
            lemma_pairs_map_len(self.entries@);
        }
        self.entries.len()
    }
}

fn same_value(a: Option<&str>, b: Option<&str>) -> (r: bool)
    ensures
        r == (match (a, b) {
            (Some(x), Some(y)) => x@ == y@,
            (None, None) => true,
            _ => false,
        }),
{
    match (a, b) {
        (Some(x), Some(y)) => str_eq(x, y),
        (None, None) => true,
        _ => false,
    }
}

impl PartialEq for FrontMatter {
    fn eq(&self, other: &Self) -> (r: bool) {
        let mut i: usize = 0;
        while i < self.entries.len()
            invariant
                i <= self.entries@.len(),
                forall|j: int|
                    0 <= j < i ==> {
                        let k = #[trigger] self.entries@[j].0@;
                        self@.contains_key(k) == other@.contains_key(k) && (self@.contains_key(k)
                            ==> self@[k] == other@[k])
                    },
            decreases self.entries.len() - i,
        {
            let k = self.entries[i].0.as_str();
            let a = self.lookup(k);
            let b = other.lookup(k);
            if !same_value(a, b) {
                proof {
                    if self@ == other@ {
                        assert(false);
                    }
                }
                return false;
            }
            i = i + 1;
        }
        let mut j: usize = 0;
        while j < other.entries.len()
            invariant
                j <= other.entries@.len(),
                forall|m: int| 0 <= m < j ==> self@.contains_key(#[trigger] other.entries@[m].0@),
            decreases other.entries.len() - j,
        {
            let k = other.entries[j].0.as_str();
            if self.lookup(k).is_none() {
                proof {
                    lemma_pairs_map_has(other.entries@, k@);
                    assert(other.entries@[j as int].0@ == k@);
                    if self@ == other@ {
                        assert(false);
                    }
                }
                return false;
            }
            j = j + 1;
        }
        proof {
            assert forall|k: Seq<char>| #[trigger] self@.contains_key(k) implies other@.contains_key(k)
                && self@[k] == other@[k] by {
                lemma_pairs_map_has(self.entries@, k);
                let a = choose|a: int| 0 <= a < self.entries@.len() && #[trigger] self.entries@[a].0@ == k;
                assert(self.entries@[a].0@ == k);
            }
            assert forall|k: Seq<char>| #[trigger] other@.contains_key(k) implies self@.contains_key(k) by {
                lemma_pairs_map_has(other.entries@, k);
                let a = choose|a: int| 0 <= a < other.entries@.len() && #[trigger] other.entries@[a].0@ == k;
                assert(other.entries@[a].0@ == k);
            }
            assert(self@ =~= other@);
        }
        true
    }
}

impl PartialEqSpecImpl for FrontMatter {
    open spec fn obeys_eq_spec() -> bool {
        true
    }

    open spec fn eq_spec(&self, other: &Self) -> bool {
        self@ == other@
    }
}

proof fn lemma_pairs_map_len(s: Seq<(String, String)>)
    requires
        distinct_keys(s),
    ensures
        pairs_map(s).dom().finite(),
        pairs_map(s).dom().len() == s.len(),
    decreases s.len(),
{
    if s.len() > 0 {
        lemma_pairs_map_len(s.drop_last());
        lemma_pairs_map_find(s.drop_last(), s.last().0@);
        assert forall|i: int| 0 <= i < s.drop_last().len() implies s.drop_last()[i].0@ != s.last().0@ by {
            assert(s.drop_last()[i] == s[i]);
        }
    }
}

/// The lines of `s`: the pieces between `'\n'` characters.
pub open spec fn split_lines(s: Seq<char>) -> Seq<Seq<char>>
    decreases s.len(),
{
    if s.len() == 0 {
        seq![seq![]]
    } else {
        let p = split_lines(s.drop_last());
        if s.last() == '\n' {
            p.push(seq![])
        } else {
            p.update(p.len() - 1, p.last().push(s.last()))
        }
    }
}

proof fn lemma_split_lines_nonempty(s: Seq<char>)
    ensures
        split_lines(s).len() > 0,
    decreases s.len(),
{
    if s.len() > 0 {
        lemma_split_lines_nonempty(s.drop_last());
    }
}

/// The pair one front-matter line sets: trimmed, not empty, not a `#`
/// comment, split at its first `:`, the value trimmed and unquoted.
pub open spec fn front_matter_entry(line: Seq<char>) -> Option<(Seq<char>, Seq<char>)> {
    let t = trim(line);
    if t.len() == 0 || t[0] == '#' {
        None
    } else {
        match find_char(t, ':') {
            Some(p) => Some((trim(t.take(p)), strip_quotes(trim(t.skip(p + 1))))),
            None => None,
        }
    }
}

/// `m` after the pairs of `lines`, in order.
pub open spec fn apply_lines(lines: Seq<Seq<char>>, m: Map<Seq<char>, Seq<char>>) -> Map<
    Seq<char>,
    Seq<char>,
>
    decreases lines.len(),
{
    if lines.len() == 0 {
        m
    } else {
        let m2 = apply_lines(lines.drop_last(), m);
        match front_matter_entry(lines.last()) {
            Some(kv) => m2.insert(kv.0, kv.1),
            None => m2,
        }
    }
}

/// `m` after the `key: value` lines of a front-matter block `text`.
pub open spec fn front_matter_of(text: Seq<char>, m: Map<Seq<char>, Seq<char>>) -> Map<
    Seq<char>,
    Seq<char>,
> {
    apply_lines(split_lines(text), m)
}

/// The pair one front-matter line sets, as [`front_matter_entry`] says.
fn front_matter_line(line: &[char]) -> (r: Option<(Vec<char>, Vec<char>)>)
    ensures
        r matches Some(kv) ==> front_matter_entry(line@) == Some((kv.0@, kv.1@)),
        r is None ==> front_matter_entry(line@) is None,
{
    let t = trim_chars(line);
    if t.len() == 0 || t[0] == '#' {
        return None;
    }
    let found = find_char_in(&t, ':');
    match found {
        Some(p) => {
            assert(p < t@.len());
            let key_raw = slice_chars(&t, 0, p);
            let key = trim_chars(&key_raw);
            let value_raw = slice_chars(&t, p + 1, t.len());
            let value = trim_chars(&value_raw);
            let value = strip_quotes_chars(&value);
            proof {
                assert(key_raw@ =~= t@.take(p as int));
                assert(value_raw@ =~= t@.skip(p + 1));
            }
            Some((key, value))
        },
        None => None,
    }
}

/// `key: value` lines; surrounding quotes are dropped and `#` lines skipped.
pub fn parse_front_matter(text: &[char], out: &mut FrontMatter)
    requires
        old(out).wf(),
    ensures
        final(out).wf(),
        final(out)@ == front_matter_of(text@, old(out)@),
{
    let ghost m0 = out@;
    let mut line: Vec<char> = Vec::new();
    let mut i: usize = 0;
    proof {
        assert(text@.take(0) =~= Seq::<char>::empty());
        assert(split_lines(text@.take(0)).drop_last() =~= Seq::<Seq<char>>::empty());
    }
    while i < text.len()
        invariant
            i <= text@.len(),
            out.wf(),
            out@ == apply_lines(split_lines(text@.take(i as int)).drop_last(), m0),
            line@ == split_lines(text@.take(i as int)).last(),
        decreases text.len() - i,
    {
        let c = text[i];
        let ghost p = split_lines(text@.take(i as int));
        proof {
            lemma_split_lines_nonempty(text@.take(i as int));
            assert(text@.take(i + 1).drop_last() =~= text@.take(i as int));
            assert(text@.take(i + 1).last() == c);
        }
        if c == '\n' {
            proof {
                assert(p.push(seq![]).drop_last() =~= p);
                assert(p.drop_last().push(p.last()) =~= p);
                assert(p.drop_last() =~= p.drop_last());
            }
            if let Some(kv) = front_matter_line(&line) {
                out.insert(string_of(&kv.0), string_of(&kv.1));
            }
            line = Vec::new();
        } else {
            proof {
                let q = p.update(p.len() - 1, p.last().push(c));
                assert(q.drop_last() =~= p.drop_last());
            }
            line.push(c);
        }
        i = i + 1;
    }
    proof {
        assert(text@.take(text@.len() as int) =~= text@);
        lemma_split_lines_nonempty(text@);
    }
    if let Some(kv) = front_matter_line(&line) {
        out.insert(string_of(&kv.0), string_of(&kv.1));
    }
}

// ---------------------------------------------------------------------------
// Sections and documents

/// One section of prose, keyed by a content hash.
#[derive(Clone, Debug, PartialEq, Eq)]
pub struct Section {
    pub heading: String,
    /// Paragraphs, list items, and `###` sub-headings as plain text, one per
    /// line. Code blocks are left out — they aren't scenery.
    pub body: String,
    /// BLAKE3 of heading + body: seeds the draft and keys the recipe cache,
    /// so an unchanged section never regenerates.
    pub hash: SectionHash,
}

/// A section as values.
pub struct SectionView {
    pub heading: Seq<char>,
    pub body: Seq<char>,
    pub hash: Seq<u8>,
}

impl View for Section {
    type V = SectionView;

    open spec fn view(&self) -> SectionView {
        SectionView { heading: self.heading@, body: self.body@, hash: self.hash@ }
    }
}

/// The hash of a section: BLAKE3 of the UTF-8 of heading, `'\n'`, body.
pub open spec fn section_hash(heading: Seq<char>, body: Seq<char>) -> Seq<u8> {
    blake3_digest(encode_utf8(heading + seq!['\n'] + body))
}

/// The section a heading and its raw prose make: the prose trimmed, the
/// hash taken over heading and trimmed prose.
pub open spec fn section_of(heading: Seq<char>, raw_body: Seq<char>) -> SectionView {
    let body = trim(raw_body);
    SectionView { heading, body, hash: section_hash(heading, body) }
}

impl Section {
    /// A section from its heading and raw prose.
    pub fn new(heading: &[char], body: &[char]) -> (s: Section)
        ensures
            s@ == section_of(heading@, body@),
    {
        let body = trim_chars(body);
        let mut text = slice_chars(heading, 0, heading.len());
        text.push('\n');
        push_all(&mut text, &body);
        let joined = string_of(&text);
        let hash = hash_text(joined.as_str());
        proof {
            assert(text@ =~= heading@ + seq!['\n'] + body@);
        }
        Section { heading: string_of(heading), body: string_of(&body), hash }
    }

    /// A stable 64-bit seed taken from [`Self::hash`].
    pub fn seed(&self) -> (s: u64)
        ensures
            s == crate::hash::le_u64(self.hash@),
    {
        self.hash.seed()
    }
}

/// A parsed Markdown document.
#[derive(Clone, Debug, PartialEq, Eq)]
pub struct Doc {
    /// The first `#` heading, or the caller's fallback (the file stem).
    pub title: String,
    /// `key: value` lines from a leading `---` block, e.g. `genre: deck`.
    pub front_matter: FrontMatter,
    /// Prose before the first section.
    pub intro: String,
    /// In document order: one per `##` heading (and any `#` after the
    /// title); in a deck with `---` separators, one per slide instead.
    pub sections: Vec<Section>,
}

/// A document as values.
pub struct DocView {
    pub title: Seq<char>,
    pub front_matter: Map<Seq<char>, Seq<char>>,
    pub intro: Seq<char>,
    pub sections: Seq<SectionView>,
}

impl View for Doc {
    type V = DocView;

    open spec fn view(&self) -> DocView {
        DocView {
            title: self.title@,
            front_matter: self.front_matter@,
            intro: self.intro@,
            sections: self.sections@.map_values(|s: Section| s@),
        }
    }
}

// ---------------------------------------------------------------------------
// The reader

/// Where the reader stands after a prefix of the events.
pub struct ReadState {
    /// The title, once a leading `#` heading has closed.
    pub title: Option<Seq<char>>,
    pub front: Map<Seq<char>, Seq<char>>,
    /// Prose before the first section.
    pub intro: Seq<char>,
    /// Heading and raw prose of each section so far.
    pub sections: Seq<(Seq<char>, Seq<char>)>,
    /// The level and text of the heading being read, if inside one.
    pub heading: Option<(u8, Seq<char>)>,
    pub in_metadata: bool,
    pub in_code: bool,
    /// In a deck split at `---`: the current slide already has its section.
    pub slide_named: bool,
}

/// Before any event.
pub open spec fn initial_state() -> ReadState {
    ReadState {
        title: None,
        front: Map::empty(),
        intro: seq![],
        sections: seq![],
        heading: None,
        in_metadata: false,
        in_code: false,
        slide_named: false,
    }
}

/// The text being appended to: the last section's prose, or the intro.
pub open spec fn current_of(st: ReadState) -> Seq<char> {
    if st.sections.len() == 0 {
        st.intro
    } else {
        st.sections.last().1
    }
}

/// `st` with the text being appended to replaced by `b`.
pub open spec fn with_current(st: ReadState, b: Seq<char>) -> ReadState {
    if st.sections.len() == 0 {
        ReadState { intro: b, ..st }
    } else {
        ReadState {
            sections: st.sections.update(st.sections.len() - 1, (st.sections.last().0, b)),
            ..st
        }
    }
}

/// `b` ended with a line break, unless empty or already ended.
pub open spec fn end_line_of(b: Seq<char>) -> Seq<char> {
    if b.len() > 0 && b.last() != '\n' {
        b.push('\n')
    } else {
        b
    }
}

/// Text outside a code block goes to the heading being read, or else to the
/// current prose.
pub open spec fn add_text(st: ReadState, t: Seq<char>) -> ReadState {
    if st.in_code {
        st
    } else {
        match st.heading {
            Some(h) => ReadState { heading: Some((h.0, h.1 + t)), ..st },
            None => with_current(st, current_of(st) + t),
        }
    }
}

/// A soft break or a table cell's end is one space.
pub open spec fn add_space(st: ReadState) -> ReadState {
    match st.heading {
        Some(h) => ReadState { heading: Some((h.0, h.1.push(' '))), ..st },
        None => with_current(st, current_of(st).push(' ')),
    }
}

/// Whether the reader is splitting slides: the document has `---`
/// separators (`split`) and the front matter read so far makes it a deck.
pub open spec fn in_slides(st: ReadState, split: bool) -> bool {
    split && genre_of(st.front) == "deck"@
}

/// A closing heading: the first `#` is the title. Splitting slides, the
/// first other heading of a slide starts its section and later ones are a
/// line of prose; otherwise a `#` or `##` starts a section and deeper
/// headings are a line of prose.
pub open spec fn close_heading(st: ReadState, slides: bool) -> ReadState {
    match st.heading {
        None => st,
        Some(h) => {
            let text = trim(h.1);
            let st = ReadState { heading: None, ..st };
            if h.0 == 1 && st.title is None {
                ReadState { title: Some(text), ..st }
            } else if (slides && !st.slide_named) || (!slides && (h.0 == 1 || h.0 == 2)) {
                ReadState { sections: st.sections.push((text, seq![])), slide_named: true, ..st }
            } else {
                with_current(st, current_of(st) + text + seq!['\n'])
            }
        },
    }
}

/// What one event does to the reader, in a document that has `---`
/// separators when `split` holds.
pub open spec fn step(st: ReadState, ev: MdEventView, split: bool) -> ReadState {
    match ev {
        MdEventView::MetadataStart => ReadState { in_metadata: true, ..st },
        MdEventView::MetadataEnd => ReadState { in_metadata: false, ..st },
        MdEventView::CodeBlockStart => ReadState { in_code: true, ..st },
        MdEventView::CodeBlockEnd => ReadState { in_code: false, ..st },
        MdEventView::HeadingStart(level) => ReadState { heading: Some((level, seq![])), ..st },
        MdEventView::HeadingEnd => close_heading(st, in_slides(st, split)),
        MdEventView::Text(t) => if st.in_metadata {
            ReadState { front: front_matter_of(t, st.front), ..st }
        } else {
            add_text(st, t)
        },
        MdEventView::Code(t) => add_text(st, t),
        MdEventView::SoftBreak => add_space(st),
        MdEventView::TableCellEnd => add_space(st),
        MdEventView::HardBreak | MdEventView::ParagraphEnd | MdEventView::ItemEnd
        | MdEventView::TableRowEnd | MdEventView::TableHeadEnd => if st.heading is None {
            with_current(st, end_line_of(current_of(st)))
        } else {
            st
        },
        MdEventView::Rule => if in_slides(st, split) {
            ReadState { slide_named: false, ..st }
        } else {
            st
        },
        MdEventView::Other => st,
    }
}

/// The reader after all of `events`, in order.
pub open spec fn run(events: Seq<MdEventView>, split: bool) -> ReadState
    decreases events.len(),
{
    if events.len() == 0 {
        initial_state()
    } else {
        step(run(events.drop_last(), split), events.last(), split)
    }
}

/// The events hold a thematic break (`---`).
pub open spec fn has_rule(events: Seq<MdEventView>) -> bool {
    exists|i: int| 0 <= i < events.len() && events[i] is Rule
}

/// The reader after a whole document's events.
pub open spec fn read_all(events: Seq<MdEventView>) -> ReadState {
    run(events, has_rule(events))
}

/// The document a stream of events describes. Without a `#` title the
/// fallback names it; without sections, non-empty intro prose becomes one
/// section named by the title. A deck with `---` separators has one section
/// per slide, named by the slide's first heading.
pub open spec fn doc_of(events: Seq<MdEventView>, fallback: Seq<char>) -> DocView {
    let st = read_all(events);
    let title = match st.title {
        Some(t) => t,
        None => fallback,
    };
    let intro = trim(st.intro);
    let sections = st.sections.map_values(
        |p: (Seq<char>, Seq<char>)| section_of(p.0, p.1),
    );
    DocView {
        title,
        front_matter: st.front,
        intro,
        sections: if sections.len() == 0 && intro.len() > 0 {
            seq![section_of(title, intro)]
        } else {
            sections
        },
    }
}

/// The text currently being appended to: the last section, or the intro.
pub fn current_body<'a>(
    intro: &'a mut Vec<char>,
    sections: &'a mut Vec<(Vec<char>, Vec<char>)>,
) -> (body: &'a mut Vec<char>)
    ensures
        old(sections)@.len() == 0 ==> *body == *old(intro) && *final(intro) == *final(body)
            && final(sections)@ == old(sections)@,
        old(sections)@.len() > 0 ==> *body == old(sections)@.last().1 && *final(intro)
            == *old(intro) && final(sections)@ == old(sections)@.update(
            old(sections)@.len() - 1,
            (old(sections)@.last().0, *final(body)),
        ),
{
    let n = sections.len();
    if n == 0 {
        intro
    } else {
        &mut sections[n - 1].1
    }
}

/// End the text with a line break, unless it is empty or already does.
pub fn end_line(body: &mut Vec<char>)
    ensures
        final(body)@ == end_line_of(old(body)@),
{
    if body.len() > 0 && body[body.len() - 1] != '\n' {
        body.push('\n');
    }
}

/// The reader's state as executable values.
struct Reader {
    title: Option<Vec<char>>,
    front: FrontMatter,
    intro: Vec<char>,
    sections: Vec<(Vec<char>, Vec<char>)>,
    heading: Option<(u8, Vec<char>)>,
    in_metadata: bool,
    in_code: bool,
    slide_named: bool,
}

spec fn opt_chars(o: Option<Vec<char>>) -> Option<Seq<char>> {
    match o {
        Some(v) => Some(v@),
        None => None,
    }
}

spec fn pairs_view(s: Seq<(Vec<char>, Vec<char>)>) -> Seq<(Seq<char>, Seq<char>)> {
    s.map_values(|p: (Vec<char>, Vec<char>)| (p.0@, p.1@))
}

impl View for Reader {
    type V = ReadState;

    closed spec fn view(&self) -> ReadState {
        ReadState {
            title: opt_chars(self.title),
            front: self.front@,
            intro: self.intro@,
            sections: pairs_view(self.sections@),
            heading: match self.heading {
                Some(h) => Some((h.0, h.1@)),
                None => None,
            },
            in_metadata: self.in_metadata,
            in_code: self.in_code,
            slide_named: self.slide_named,
        }
    }
}

impl Reader {
    fn new() -> (r: Reader)
        ensures
            r@ == initial_state(),
            r.front.wf(),
    {
        let r = Reader {
            title: None,
            front: FrontMatter::new(),
            intro: Vec::new(),
            sections: Vec::new(),
            heading: None,
            in_metadata: false,
            in_code: false,
            slide_named: false,
        };
        proof {
            assert(pairs_view(r.sections@) =~= Seq::<(Seq<char>, Seq<char>)>::empty());
        }
        r
    }

    /// Append `t` to the current prose.
    fn push_current(&mut self, t: &[char])
        ensures
            final(self)@ == with_current(old(self)@, current_of(old(self)@) + t@),
            final(self).front == old(self).front,
    {
        let body = current_body(&mut self.intro, &mut self.sections);
        push_all(body, t);
        proof {
            assert(pairs_view(self.sections@) =~= with_current(
                old(self)@,
                current_of(old(self)@) + t@,
            ).sections);
        }
    }

    fn push_text(&mut self, t: &[char])
        ensures
            final(self)@ == add_text(old(self)@, t@),
            final(self).front == old(self).front,
    {
        if self.in_code {
            return;
        }
        match self.heading.take() {
            Some(h) => {
                let (level, mut text) = h;
                push_all(&mut text, t);
                self.heading = Some((level, text));
            },
            None => {
                self.push_current(t);
            },
        }
    }

    fn push_space(&mut self)
        ensures
            final(self)@ == add_space(old(self)@),
            final(self).front == old(self).front,
    {
        match self.heading.take() {
            Some(h) => {
                let (level, mut text) = h;
                text.push(' ');
                self.heading = Some((level, text));
            },
            None => {
                let mut space: Vec<char> = Vec::new();
                space.push(' ');
                assert(space@ =~= seq![' ']);
                let ghost cur = current_of(self@);
                assert(cur + space@ =~= cur.push(' '));
                self.push_current(&space);
            },
        }
    }

    /// Whether the reader splits slides, as [`in_slides`] says.
    fn slides(&self, split: bool) -> (r: bool)
        requires
            self.front.wf(),
        ensures
            r == in_slides(self@, split),
    {
        proof {
            reveal_strlit("world");
            reveal_strlit("deck");
            reveal_strlit("genre");
        }
        if !split {
            return false;
        }
        proof {
            assert("world"@.len() != "deck"@.len());
        }
        match self.front.get("genre") {
            Some(g) => str_eq(g, "deck"),
            None => false,
        }
    }

    fn close_heading(&mut self, slides: bool)
        ensures
            final(self)@ == close_heading(old(self)@, slides),
            final(self).front == old(self).front,
    {
        let taken = self.heading.take();
        match taken {
            None => {
                assert(old(self).heading is None);
                assert(self@ =~= old(self)@);
            },
            Some(h) => {
                let ghost mid = self@;
                assert(mid == ReadState { heading: None, ..old(self)@ });
                let text = trim_chars(&h.1);
                if h.0 == 1 && self.title.is_none() {
                    self.title = Some(text);
                } else if (slides && !self.slide_named) || (!slides && (h.0 == 1 || h.0 == 2)) {
                    self.sections.push((text, Vec::new()));
                    self.slide_named = true;
                    proof {
                        assert(pairs_view(self.sections@) =~= pairs_view(
                            old(self).sections@,
                        ).push((text@, seq![])));
                    }
                } else {
                    let mut line = text;
                    line.push('\n');
                    self.push_current(&line);
                    proof {
                        assert(current_of(mid) + line@ =~= current_of(mid) + trim(h.1@) + seq!['\n']);
                    }
                }
            },
        }
    }

    fn end_line(&mut self)
        ensures
            final(self)@ == with_current(old(self)@, end_line_of(current_of(old(self)@))),
            final(self).front == old(self).front,
    {
        let body = current_body(&mut self.intro, &mut self.sections);
        end_line(body);
        proof {
            assert(pairs_view(self.sections@) =~= with_current(
                old(self)@,
                end_line_of(current_of(old(self)@)),
            ).sections);
        }
    }

    /// Apply one event.
    fn step(&mut self, ev: &MdEvent, split: bool)
        requires
            old(self).front.wf(),
        ensures
            final(self)@ == step(old(self)@, ev@, split),
            final(self).front.wf(),
    {
        match ev {
            MdEvent::MetadataStart => self.in_metadata = true,
            MdEvent::MetadataEnd => self.in_metadata = false,
            MdEvent::CodeBlockStart => self.in_code = true,
            MdEvent::CodeBlockEnd => self.in_code = false,
            MdEvent::HeadingStart(level) => {
                self.heading = Some((*level, Vec::new()));
            },
            MdEvent::HeadingEnd => {
                let slides = self.slides(split);
                self.close_heading(slides);
            },
            MdEvent::Text(t) => {
                let chars = chars_of(t.as_str());
                if self.in_metadata {
                    parse_front_matter(&chars, &mut self.front);
                } else {
                    self.push_text(&chars);
                }
            },
            MdEvent::Code(t) => {
                let chars = chars_of(t.as_str());
                self.push_text(&chars);
            },
            MdEvent::SoftBreak | MdEvent::TableCellEnd => self.push_space(),
            MdEvent::HardBreak | MdEvent::ParagraphEnd | MdEvent::ItemEnd | MdEvent::TableRowEnd
            | MdEvent::TableHeadEnd => {
                if self.heading.is_none() {
                    self.end_line();
                }
            },
            MdEvent::Rule => {
                if self.slides(split) {
                    self.slide_named = false;
                }
            },
            MdEvent::Other => {},
        }
    }
}

/// Whether the events hold a thematic break, as [`has_rule`] says.
fn has_rule_in(events: &Vec<MdEvent>) -> (r: bool)
    ensures
        r == has_rule(events_view(events@)),
{
    let ghost evs = events_view(events@);
    let mut i: usize = 0;
    while i < events.len()
        invariant
            i <= events@.len(),
            evs == events_view(events@),
            forall|k: int| 0 <= k < i ==> !(#[trigger] evs[k] is Rule),
        decreases events.len() - i,
    {
        if let MdEvent::Rule = &events[i] {
            assert(evs[i as int] is Rule);
            return true;
        }
        i = i + 1;
    }
    false
}

impl Doc {
    /// The document a stream of Markdown events describes.
    pub fn from_events(events: &Vec<MdEvent>, fallback_title: &str) -> (doc: Doc)
        ensures
            doc.front_matter.wf(),
            doc@ == doc_of(events_view(events@), fallback_title@),
    {
        let ghost evs = events_view(events@);
        let split = has_rule_in(events);
        let mut reader = Reader::new();
        let mut i: usize = 0;
        proof {
            assert(evs.take(0) =~= Seq::<MdEventView>::empty());
        }
        while i < events.len()
            invariant
                i <= events@.len(),
                evs == events_view(events@),
                reader.front.wf(),
                split == has_rule(evs),
                reader@ == run(evs.take(i as int), split),
            decreases events.len() - i,
        {
            reader.step(&events[i], split);
            proof {
                assert(evs.take(i + 1).drop_last() =~= evs.take(i as int));
                assert(evs.take(i + 1).last() == events@[i as int]@);
            }
            i = i + 1;
        }
        proof {
            assert(evs.take(events@.len() as int) =~= evs);
        }
        let Reader { title, front, intro, sections: raw, .. } = reader;
        let title = match title {
            Some(t) => t,
            None => chars_of(fallback_title),
        };
        let intro = trim_chars(&intro);
        let mut sections: Vec<Section> = Vec::new();
        let mut k: usize = 0;
        while k < raw.len()
            invariant
                k <= raw@.len(),
                sections@.len() == k,
                forall|j: int| 0 <= j < k ==> #[trigger] sections@[j]@ == section_of(
                    raw@[j].0@,
                    raw@[j].1@,
                ),
            decreases raw.len() - k,
        {
            let s = Section::new(&raw[k].0, &raw[k].1);
            sections.push(s);
            k = k + 1;
        }
        if sections.len() == 0 && intro.len() > 0 {
            sections.push(Section::new(&title, &intro));
            proof {
                lemma_trim_idempotent(read_all(evs).intro);
            }
        }
        let doc = Doc {
            title: string_of(&title),
            front_matter: front,
            intro: string_of(&intro),
            sections,
        };
        proof {
            let d = doc_of(evs, fallback_title@);
            assert(doc@.sections =~= d.sections);
        }
        doc
    }

    /// Parse Markdown. A document without sections becomes one section.
    pub fn parse(src: &str, fallback_title: &str) -> (doc: Doc)
        ensures
            doc.front_matter.wf(),
            doc@ == doc_of(markdown_events(src@), fallback_title@),
    {
        let events = parse_markdown(src);
        Doc::from_events(&events, fallback_title)
    }

    /// The `genre` front-matter key, `world` when absent. `deck` lays the
    /// places out as slides on a straight path, split at `---` separators.
    pub fn genre(&self) -> (g: &str)
        requires
            self.front_matter.wf(),
        ensures
            g@ == genre_of(self@.front_matter),
    {
        match self.front_matter.get("genre") {
            Some(g) => g,
            None => "world",
        }
    }

    /// Whether the document is a slide deck (`genre: deck`).
    pub fn is_deck(&self) -> (d: bool)
        requires
            self.front_matter.wf(),
        ensures
            d == (genre_of(self@.front_matter) == "deck"@),
    {
        str_eq(self.genre(), "deck")
    }
}

/// The genre a document's front matter names: its `genre` value, `world`
/// when absent.
pub open spec fn genre_of(front: Map<Seq<char>, Seq<char>>) -> Seq<char> {
    if front.contains_key("genre"@) {
        front["genre"@]
    } else {
        "world"@
    }
}

} // verus!
