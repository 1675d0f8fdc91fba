//! Character-level text helpers shared by the parser, the draft and the
//! captions: white space, trimming, words, excerpts and decimal numbers.

use vstd::prelude::*;

verus! {

/// The Unicode `White_Space` property, as `char::is_whitespace` documents it.
pub open spec fn is_ws(c: char) -> bool {
    let u = c as u32;
    ||| 0x09 <= u <= 0x0D
    ||| u == 0x20
    ||| u == 0x85
    ||| u == 0xA0
    ||| u == 0x1680
    ||| 0x2000 <= u <= 0x200A
    ||| u == 0x2028
    ||| u == 0x2029
    ||| u == 0x202F
    ||| u == 0x205F
    ||| u == 0x3000
}

/// Whether `c` is white space.
pub fn is_whitespace(c: char) -> (r: bool)
    ensures
        r == is_ws(c),
{
    let u = c as u32;
    (0x09 <= u && u <= 0x0D) || u == 0x20 || u == 0x85 || u == 0xA0 || u == 0x1680 || (0x2000
        <= u && u <= 0x200A) || u == 0x2028 || u == 0x2029 || u == 0x202F || u == 0x205F || u
        == 0x3000
}

/// `s` without its leading white space.
pub open spec fn trim_start(s: Seq<char>) -> Seq<char>
    decreases s.len(),
{
    if s.len() > 0 && is_ws(s[0]) {
        trim_start(s.drop_first())
    } else {
        s
    }
}

/// `s` without its trailing white space.
pub open spec fn trim_end(s: Seq<char>) -> Seq<char>
    decreases s.len(),
{
    if s.len() > 0 && is_ws(s.last()) {
        trim_end(s.drop_last())
    } else {
        s
    }
}

/// `s` without leading and trailing white space (`str::trim`).
pub open spec fn trim(s: Seq<char>) -> Seq<char> {
    trim_end(trim_start(s))
}

proof fn lemma_trim_start_idem(s: Seq<char>)
    ensures
        trim_start(trim_start(s)) == trim_start(s),
        trim_start(s).len() > 0 ==> !is_ws(trim_start(s)[0]),
    decreases s.len(),
{
    if s.len() > 0 && is_ws(s[0]) {
        lemma_trim_start_idem(s.drop_first());
    }
}

proof fn lemma_trim_end_shape(s: Seq<char>)
    ensures
        trim_end(trim_end(s)) == trim_end(s),
        trim_end(s).len() > 0 ==> !is_ws(trim_end(s).last()),
        trim_end(s).len() <= s.len(),
        trim_end(s) == s.take(trim_end(s).len() as int),
    decreases s.len(),
{
    if s.len() > 0 && is_ws(s.last()) {
        lemma_trim_end_shape(s.drop_last());
        assert(s.drop_last().take(trim_end(s).len() as int) =~= s.take(trim_end(s).len() as int));
    } else {
        assert(s.take(s.len() as int) =~= s);
    }
}

/// Trimming twice is trimming once.
pub proof fn lemma_trim_idempotent(s: Seq<char>)
    ensures
        trim(trim(s)) == trim(s),
        trim(s).len() > 0 ==> !is_ws(trim(s)[0]) && !is_ws(trim(s).last()),
{
    let a = trim_start(s);
    lemma_trim_start_idem(s);
    lemma_trim_end_shape(a);
    let b = trim_end(a);
    if b.len() > 0 {
        assert(b[0] == a[0]);
    }
    assert(trim_start(b) == b);
}

/// The characters of a string slice, in order.
pub fn chars_of(s: &str) -> (v: Vec<char>)
    ensures
        v@ == s@,
{
    let mut v: Vec<char> = Vec::new();
    for c in it: s.chars()
        invariant
            v@ == it.seq().take(it.index() as int),
            it.seq() == s@,
    {
        v.push(c);
    }
    v
}

/// `chars.iter().collect::<String>()` (std's `FromIterator<&char>` for
/// `String`): a string holding exactly `chars`, in order.
#[verifier::external_body]
pub(crate) fn string_of(chars: &[char]) -> (s: String)
    ensures
        s@ == chars@,
{
    chars.iter().collect()
}

/// `v[from..to]` as a vector.
pub fn slice_chars(v: &[char], from: usize, to: usize) -> (r: Vec<char>)
    requires
        from <= to <= v@.len(),
    ensures
        r@ == v@.subrange(from as int, to as int),
{
    let mut r: Vec<char> = Vec::new();
    let mut i = from;
    while i < to
        invariant
            from <= i <= to <= v@.len(),
            r@ == v@.subrange(from as int, i as int),
        decreases to - i,
    {
        r.push(v[i]);
        proof {
            assert(r@ =~= v@.subrange(from as int, i + 1));
        }
        i = i + 1;
    }
    r
}

/// Append every character of `extra` to `v`.
pub fn push_all(v: &mut Vec<char>, extra: &[char])
    ensures
        final(v)@ == old(v)@ + extra@,
{
    let mut i: usize = 0;
    while i < extra.len()
        invariant
            i <= extra@.len(),
            v@ == old(v)@ + extra@.take(i as int),
        decreases extra.len() - i,
    {
        v.push(extra[i]);
        proof {
            assert(extra@.take(i + 1) =~= extra@.take(i as int).push(extra@[i as int]));
        }
        i = i + 1;
    }
    proof {
        assert(extra@.take(extra@.len() as int) =~= extra@);
    }
}

/// `str::trim` on a character vector.
pub fn trim_chars(v: &[char]) -> (r: Vec<char>)
    ensures
        r@ == trim(v@),
{
    let len = v.len();
    let mut i: usize = 0;
    proof {
        assert(v@.subrange(0, len as int) =~= v@);
    }
    while i < len && is_whitespace(v[i])
        invariant
            i <= len == v@.len(),
            trim_start(v@) == trim_start(v@.subrange(i as int, len as int)),
        decreases len - i,
    {
        proof {
            assert(v@.subrange(i as int, len as int).drop_first() =~= v@.subrange(
                i + 1,
                len as int,
            ));
        }
        i = i + 1;
    }
    let ghost start = v@.subrange(i as int, len as int);
    assert(trim_start(v@) == start);
    let mut j: usize = len;
    proof {
        assert(start.subrange(0, (len - i) as int) =~= start);
    }
    while j > i && is_whitespace(v[j - 1])
        invariant
            i <= j <= len == v@.len(),
            start == v@.subrange(i as int, len as int),
            trim_end(start) == trim_end(v@.subrange(i as int, j as int)),
        decreases j,
    {
        proof {
            assert(v@.subrange(i as int, j as int).drop_last() =~= v@.subrange(
                i as int,
                j - 1,
            ));
        }
        j = j - 1;
    }
    slice_chars(v, i, j)
}

/// The whitespace-separated words of `s` (`str::split_whitespace`).
pub open spec fn words(s: Seq<char>) -> Seq<Seq<char>>
    decreases s.len(),
{
    if s.len() == 0 {
        seq![]
    } else {
        let w = words(s.drop_last());
        let c = s.last();
        if is_ws(c) {
            w
        } else if s.len() > 1 && !is_ws(s[s.len() - 2]) {
            w.update(w.len() - 1, w.last().push(c))
        } else {
            w.push(seq![c])
        }
    }
}

/// Words joined by single spaces (`join(" ")`).
pub open spec fn join_words(ws: Seq<Seq<char>>) -> Seq<char>
    decreases ws.len(),
{
    if ws.len() == 0 {
        seq![]
    } else if ws.len() == 1 {
        ws[0]
    } else {
        join_words(ws.drop_last()) + seq![' '] + ws.last()
    }
}

/// The prose with every run of white space collapsed to one space, and none
/// at either end.
pub open spec fn flatten(s: Seq<char>) -> Seq<char> {
    join_words(words(s))
}

/// A text ending in a non-space character has at least one word, and every
/// word is non-empty.
pub proof fn lemma_words_shape(s: Seq<char>)
    ensures
        s.len() > 0 && !is_ws(s.last()) ==> words(s).len() > 0,
        forall|k: int| 0 <= k < words(s).len() ==> #[trigger] words(s)[k].len() > 0,
    decreases s.len(),
{
    if s.len() > 0 {
        lemma_words_shape(s.drop_last());
        if s.len() > 1 {
            assert(s.drop_last().last() == s[s.len() - 2]);
        }
    }
}

/// Joining a non-empty word list ends with its last word.
pub proof fn lemma_join_last(ws: Seq<Seq<char>>)
    requires
        ws.len() > 0,
    ensures
        join_words(ws).len() >= ws.last().len(),
{
}

/// How many words `v` has (`split_whitespace().count()`).
pub fn word_count(v: &[char]) -> (n: usize)
    ensures
        n == words(v@).len(),
{
    let mut n: usize = 0;
    let mut i: usize = 0;
    proof {
        assert(v@.take(0) =~= Seq::<char>::empty());
    }
    while i < v.len()
        invariant
            i <= v@.len(),
            n == words(v@.take(i as int)).len(),
            n <= i,
        decreases v.len() - i,
    {
        let c = v[i];
        proof {
            let t = v@.take(i + 1);
            assert(t.drop_last() =~= v@.take(i as int));
            assert(t.last() == c);
            if i > 0 {
                assert(t[t.len() - 2] == v@[i - 1]);
            }
            lemma_words_shape(v@.take(i as int));
            if i > 0 {
                assert(v@.take(i as int).last() == v@[i - 1]);
            }
        }
        if !is_whitespace(c) && (i == 0 || is_whitespace(v[i - 1])) {
            n = n + 1;
        }
        i = i + 1;
    }
    proof {
        assert(v@.take(v@.len() as int) =~= v@);
    }
    n
}

/// The prose of `v` on one line: words joined by single spaces.
pub fn flatten_chars(v: &[char]) -> (r: Vec<char>)
    ensures
        r@ == flatten(v@),
{
    let mut r: Vec<char> = Vec::new();
    let mut i: usize = 0;
    proof {
        assert(v@.take(0) =~= Seq::<char>::empty());
    }
    while i < v.len()
        invariant
            i <= v@.len(),
            r@ == flatten(v@.take(i as int)),
        decreases v.len() - i,
    {
        let c = v[i];
        let ghost t = v@.take(i + 1);
        let ghost p = v@.take(i as int);
        proof {
            assert(t.drop_last() =~= p);
            assert(t.last() == c);
            if i > 0 {
                assert(t[t.len() - 2] == v@[i - 1]);
                assert(p.last() == v@[i - 1]);
            }
            lemma_words_shape(p);
        }
        if !is_whitespace(c) {
            if i > 0 && !is_whitespace(v[i - 1]) {
                proof {
                    let w = words(p);
                    let w2 = w.update(w.len() - 1, w.last().push(c));
                    assert(words(t) == w2);
                    if w.len() == 1 {
                        assert(w2[0] =~= w[0].push(c));
                    } else {
                        assert(w2.drop_last() =~= w.drop_last());
                    }
                    assert(join_words(w2) =~= join_words(w).push(c));
                }
                r.push(c);
            } else {
                proof {
                    let w = words(p);
                    assert(words(t) == w.push(seq![c]));
                    assert(w.push(seq![c]).drop_last() =~= w);
                    if w.len() > 0 {
                        lemma_join_last(w);
                        assert(w.last().len() > 0);
                    }
                }
                if r.len() > 0 {
                    r.push(' ');
                }
                r.push(c);
                proof {
                    let w = words(p);
                    if w.len() == 0 {
                        assert(r@ =~= seq![c]);
                    } else {
                        assert(r@ =~= join_words(w) + seq![' '] + seq![c]);
                    }
                }
            }
        }
        i = i + 1;
    }
    proof {
        assert(v@.take(v@.len() as int) =~= v@);
    }
    r
}

/// One-line prose as [`flatten`] leaves it: only non-white-space
/// characters and single spaces, and no space at either end.
pub open spec fn is_flat(s: Seq<char>) -> bool {
    &&& forall|i: int| 0 <= i < s.len() ==> #[trigger] s[i] == ' ' || !is_ws(s[i])
    &&& s.len() > 0 ==> s[0] != ' ' && s.last() != ' '
    &&& forall|i: int| 0 <= i < s.len() - 1 ==> !(#[trigger] s[i] == ' ' && s[i + 1] == ' ')
}

proof fn lemma_join_push_last(w: Seq<Seq<char>>, c: char)
    requires
        w.len() > 0,
    ensures
        join_words(w.update(w.len() - 1, w.last().push(c))) == join_words(w).push(c),
{
    let w2 = w.update(w.len() - 1, w.last().push(c));
    if w.len() == 1 {
        assert(w2[0] =~= w[0].push(c));
    } else {
        assert(w2.drop_last() =~= w.drop_last());
        assert(join_words(w2) =~= join_words(w).push(c));
    }
}

/// Prose made of non-white-space characters and single spaces, not
/// starting with a space, flattens to itself (less a trailing space).
proof fn lemma_flatten_fixed(s: Seq<char>)
    requires
        forall|i: int| 0 <= i < s.len() ==> #[trigger] s[i] == ' ' || !is_ws(s[i]),
        s.len() > 0 ==> s[0] != ' ',
        forall|i: int| 0 <= i < s.len() - 1 ==> !(#[trigger] s[i] == ' ' && s[i + 1] == ' '),
    ensures
        s.len() > 0 && s.last() == ' ' ==> join_words(words(s)) == s.drop_last(),
        s.len() == 0 || s.last() != ' ' ==> join_words(words(s)) == s,
    decreases s.len(),
{
    if s.len() > 0 {
        let p = s.drop_last();
        let c = s.last();
        assert forall|i: int| 0 <= i < p.len() implies #[trigger] p[i] == ' ' || !is_ws(p[i]) by {
            assert(p[i] == s[i]);
        }
        assert forall|i: int| 0 <= i < p.len() - 1 implies !(#[trigger] p[i] == ' ' && p[i + 1]
            == ' ') by {
            assert(p[i] == s[i] && p[i + 1] == s[i + 1]);
        }
        if p.len() > 0 {
            assert(p[0] == s[0]);
        }
        lemma_flatten_fixed(p);
        lemma_words_shape(p);
        if c == ' ' {
            if p.len() > 0 {
                assert(p.last() == s[s.len() - 2]);
                assert(s[s.len() - 2] != ' ');
            }
        } else {
            assert(!is_ws(c));
            let w = words(p);
            if s.len() > 1 && !is_ws(s[s.len() - 2]) {
                assert(p.last() == s[s.len() - 2]);
                assert(p.last() != ' ');
                assert(w.len() > 0);
                lemma_join_push_last(w, c);
                assert(s =~= p.push(c));
            } else if p.len() == 0 {
                assert(words(s) == w.push(seq![c]));
                assert(w.len() == 0);
                assert(join_words(words(s)) =~= s);
            } else {
                assert(p.last() == s[s.len() - 2]);
                assert(p.last() == ' ');
                assert(p[0] != ' ');
                assert(p.len() >= 2);
                assert(join_words(w) == p.drop_last());
                assert(w.len() > 0);
                let w2 = w.push(seq![c]);
                assert(words(s) == w2);
                assert(w2.drop_last() =~= w);
                assert(p.drop_last() + seq![' '] =~= p);
                assert(join_words(w2) =~= s);
            }
        }
    }
}

/// Flat prose flattens to itself.
pub proof fn lemma_flat_is_fixed(s: Seq<char>)
    requires
        is_flat(s),
    ensures
        flatten(s) == s,
{
    lemma_flatten_fixed(s);
}

proof fn lemma_words_chars(s: Seq<char>)
    ensures
        forall|k: int, j: int|
            0 <= k < words(s).len() && 0 <= j < words(s)[k].len() ==> !is_ws(
                #[trigger] words(s)[k][j],
            ),
    decreases s.len(),
{
    if s.len() > 0 {
        let p = s.drop_last();
        lemma_words_chars(p);
        lemma_words_shape(p);
        let w = words(p);
        let c = s.last();
        if !is_ws(c) {
            if s.len() > 1 && !is_ws(s[s.len() - 2]) {
                assert(p.last() == s[s.len() - 2]);
                let w2 = w.update(w.len() - 1, w.last().push(c));
                assert forall|k: int, j: int|
                    0 <= k < w2.len() && 0 <= j < w2[k].len() implies !is_ws(#[trigger] w2[k][j]) by {
                    if k == w.len() - 1 && j == w.last().len() {
                    } else if k == w.len() - 1 {
                        assert(w2[k][j] == w[k][j]);
                    } else {
                        assert(w2[k] == w[k]);
                    }
                }
            } else {
                let w2 = w.push(seq![c]);
                assert forall|k: int, j: int|
                    0 <= k < w2.len() && 0 <= j < w2[k].len() implies !is_ws(#[trigger] w2[k][j]) by {
                    if k < w.len() {
                        assert(w2[k] == w[k]);
                    }
                }
            }
        }
    }
}

proof fn lemma_join_flat(ws: Seq<Seq<char>>)
    requires
        forall|k: int| 0 <= k < ws.len() ==> #[trigger] ws[k].len() > 0,
        forall|k: int, j: int| 0 <= k < ws.len() && 0 <= j < ws[k].len() ==> !is_ws(#[trigger] ws[k][j]),
    ensures
        is_flat(join_words(ws)),
    decreases ws.len(),
{
    if ws.len() == 1 {
        let w = ws[0];
        assert forall|i: int| 0 <= i < w.len() implies !is_ws(#[trigger] w[i]) by {
            assert(ws[0][i] == w[i]);
        }
        assert(!is_ws(w[0]));
        assert(!is_ws(w.last()));
    } else if ws.len() > 1 {
        let d = ws.drop_last();
        assert forall|k: int| 0 <= k < d.len() implies #[trigger] d[k].len() > 0 by {
            assert(d[k] == ws[k]);
        }
        assert forall|k: int, j: int| 0 <= k < d.len() && 0 <= j < d[k].len() implies !is_ws(
            #[trigger] d[k][j],
        ) by {
            assert(d[k] == ws[k]);
        }
        lemma_join_flat(d);
        lemma_join_last(d);
        assert(d.last() == ws[ws.len() - 2]);
        let a = join_words(d);
        let l = ws.last();
        assert forall|j: int| 0 <= j < l.len() implies !is_ws(#[trigger] l[j]) by {
            assert(ws[ws.len() - 1][j] == l[j]);
        }
        let s = join_words(ws);
        assert(s == a + seq![' '] + l);
        assert(a.len() > 0);
        assert forall|i: int| 0 <= i < s.len() implies #[trigger] s[i] == ' ' || !is_ws(s[i]) by {
            if i < a.len() {
                assert(s[i] == a[i]);
            } else if i > a.len() {
                assert(s[i] == l[i - a.len() - 1]);
            }
        }
        assert(s[0] == a[0]);
        assert(s.last() == l.last());
        assert(!is_ws(l.last()));
        assert forall|i: int| 0 <= i < s.len() - 1 implies !(#[trigger] s[i] == ' ' && s[i + 1]
            == ' ') by {
            if i < a.len() - 1 {
                assert(s[i] == a[i] && s[i + 1] == a[i + 1]);
            } else if i == a.len() - 1 {
                assert(s[i] == a.last());
            } else if i == a.len() {
                assert(s[i + 1] == l[0]);
                assert(!is_ws(l[0]));
            } else {
                assert(s[i] == l[i - a.len() - 1]);
                assert(!is_ws(l[i - a.len() - 1]));
            }
        }
    }
}

/// Flattened prose is flat.
pub proof fn lemma_flatten_is_flat(s: Seq<char>)
    ensures
        is_flat(flatten(s)),
{
    lemma_words_shape(s);
    lemma_words_chars(s);
    lemma_join_flat(words(s));
}

/// The position of the last `' '` in `s`.
pub open spec fn last_space(s: Seq<char>) -> Option<int>
    decreases s.len(),
{
    if s.len() == 0 {
        None
    } else if s.last() == ' ' {
        Some(s.len() - 1)
    } else {
        last_space(s.drop_last())
    }
}

/// At most `max` characters of one-line prose, cut at the last space that
/// fits (`rsplit_once(' ')`), or exactly `max` characters when none does.
pub open spec fn cut_at_word(flat: Seq<char>, max: nat) -> Seq<char> {
    if flat.len() <= max {
        flat
    } else {
        let cut = flat.take(max as int);
        match last_space(cut) {
            Some(k) => cut.take(k),
            None => cut,
        }
    }
}

proof fn lemma_last_space_bounds(s: Seq<char>)
    ensures
        last_space(s) matches Some(k) ==> 0 <= k < s.len() && s[k] == ' ',
    decreases s.len(),
{
    if s.len() > 0 && s.last() != ' ' {
        lemma_last_space_bounds(s.drop_last());
    }
}

proof fn lemma_last_space_none(s: Seq<char>)
    ensures
        last_space(s) is None ==> forall|i: int| 0 <= i < s.len() ==> #[trigger] s[i] != ' ',
    decreases s.len(),
{
    if s.len() > 0 && s.last() != ' ' {
        lemma_last_space_none(s.drop_last());
        if last_space(s) is None {
            assert forall|i: int| 0 <= i < s.len() implies #[trigger] s[i] != ' ' by {
                if i < s.len() - 1 {
                    assert(s.drop_last()[i] == s[i]);
                }
            }
        }
    }
}

/// Cutting flat prose at a word keeps it flat: the cut is a prefix of at
/// most `max` characters, and it is empty only when the prose is.
pub proof fn lemma_cut_at_word_flat(f: Seq<char>, max: nat)
    requires
        is_flat(f),
        max > 0,
    ensures
        is_flat(cut_at_word(f, max)),
        cut_at_word(f, max).len() <= max,
        cut_at_word(f, max).len() <= f.len(),
        cut_at_word(f, max) == f.take(cut_at_word(f, max).len() as int),
        f.len() > 0 ==> cut_at_word(f, max).len() > 0,
{
    if f.len() <= max {
        assert(f.take(f.len() as int) =~= f);
    } else {
        let cut = f.take(max as int);
        lemma_last_space_bounds(cut);
        lemma_last_space_none(cut);
        match last_space(cut) {
            Some(k) => {
                let e = cut.take(k);
                assert(cut[k] == f[k]);
                assert(f[0] != ' ');
                assert(k > 0);
                assert(e =~= f.take(k));
                assert(f[k - 1] != ' ') by {
                    assert(!(f[k - 1] == ' ' && f[k] == ' '));
                }
                assert forall|i: int| 0 <= i < e.len() implies #[trigger] e[i] == ' ' || !is_ws(e[i]) by {
                    assert(e[i] == f[i]);
                }
                assert forall|i: int| 0 <= i < e.len() - 1 implies !(#[trigger] e[i] == ' ' && e[i
                    + 1] == ' ') by {
                    assert(e[i] == f[i] && e[i + 1] == f[i + 1]);
                }
                assert(e[0] == f[0]);
                assert(e.last() == f[k - 1]);
            },
            None => {
                assert forall|i: int| 0 <= i < cut.len() implies #[trigger] cut[i] == ' ' || !is_ws(
                    cut[i],
                ) by {
                    assert(cut[i] == f[i]);
                }
                assert forall|i: int| 0 <= i < cut.len() - 1 implies !(#[trigger] cut[i] == ' '
                    && cut[i + 1] == ' ') by {
                    assert(cut[i] != ' ');
                }
                assert(cut[0] != ' ');
                assert(cut.last() != ' ');
                assert(cut.take(cut.len() as int) =~= cut);
            },
        }
    }
}

/// The cut of [`cut_at_word`], on a vector.
pub fn cut_chars_at_word(flat: &[char], max: usize) -> (r: Vec<char>)
    ensures
        r@ == cut_at_word(flat@, max as nat),
{
    if flat.len() <= max {
        return slice_chars(flat, 0, flat.len());
    }
    let ghost cut = flat@.take(max as int);
    let mut j: usize = max;
    proof {
        assert(cut.subrange(0, max as int) =~= cut);
    }
    while j > 0 && flat[j - 1] != ' '
        invariant
            j <= max < flat@.len(),
            cut == flat@.take(max as int),
            last_space(cut) == last_space(cut.subrange(0, j as int)),
        decreases j,
    {
        proof {
            assert(cut.subrange(0, j as int).drop_last() =~= cut.subrange(0, j - 1));
        }
        j = j - 1;
    }
    if j == 0 {
        slice_chars(flat, 0, max)
    } else {
        proof {
            let s = cut.subrange(0, j as int);
            assert(s.last() == ' ');
            assert(last_space(s) == Some(j - 1));
        }
        slice_chars(flat, 0, j - 1)
    }
}

/// The decimal digit `d` (0 to 9) as a character.
pub open spec fn digit(d: nat) -> char {
    ((d + 48) as u32) as char
}

/// `n` in decimal, without leading zeros.
pub open spec fn decimal(n: nat) -> Seq<char>
    decreases n,
{
    if n < 10 {
        seq![digit(n)]
    } else {
        decimal(n / 10).push(digit(n % 10))
    }
}

/// `n` in decimal, padded with a leading zero to at least two digits
/// (`{:02}`).
pub open spec fn decimal2(n: nat) -> Seq<char> {
    if n < 10 {
        seq!['0', digit(n)]
    } else {
        decimal(n)
    }
}

/// A decimal digit character.
pub open spec fn is_digit(c: char) -> bool {
    48 <= c as u32 <= 57
}

proof fn lemma_digit(d: nat)
    requires
        d < 10,
    ensures
        digit(d) as u32 == d + 48,
        is_digit(digit(d)),
{
    assert((((d + 48) as u32) as char) as u32 == (d + 48) as u32);
}

/// The digits of a number: at least one, all decimal digits, and no
/// leading zero.
pub proof fn lemma_decimal_digits(n: nat)
    ensures
        decimal(n).len() >= 1,
        n >= 10 ==> decimal(n).len() >= 2,
        forall|k: int| 0 <= k < decimal(n).len() ==> is_digit(#[trigger] decimal(n)[k]),
        n >= 1 ==> decimal(n)[0] as u32 != 48,
    decreases n,
{
    if n < 10 {
        lemma_digit(n);
    } else {
        lemma_decimal_digits(n / 10);
        lemma_digit(n % 10);
        let d = decimal(n / 10);
        assert forall|k: int| 0 <= k < decimal(n).len() implies is_digit(#[trigger] decimal(n)[k]) by {
            if k < d.len() {
                assert(decimal(n)[k] == d[k]);
            }
        }
    }
}

/// Different numbers have different decimals.
pub proof fn lemma_decimal_injective(a: nat, b: nat)
    requires
        decimal(a) == decimal(b),
    ensures
        a == b,
    decreases a,
{
    lemma_decimal_digits(a);
    lemma_decimal_digits(b);
    if a < 10 && b < 10 {
        lemma_digit(a);
        lemma_digit(b);
        assert(decimal(a)[0] == decimal(b)[0]);
    } else if a >= 10 && b >= 10 {
        assert(decimal(a).drop_last() =~= decimal(a / 10));
        assert(decimal(b).drop_last() =~= decimal(b / 10));
        lemma_decimal_injective(a / 10, b / 10);
        lemma_digit(a % 10);
        lemma_digit(b % 10);
        assert(decimal(a).last() == digit(a % 10));
        assert(decimal(b).last() == digit(b % 10));
        assert(a % 10 == b % 10);
        assert(a == (a / 10) * 10 + a % 10);
        assert(b == (b / 10) * 10 + b % 10);
    } else if a < 10 {
        assert(decimal(a).len() == 1);
    } else {
        assert(decimal(b).len() == 1);
    }
}

/// The two-digit form: at least two characters, all decimal digits, and
/// different numbers give different forms.
pub proof fn lemma_decimal2_digits(n: nat)
    ensures
        decimal2(n).len() >= 2,
        forall|k: int| 0 <= k < decimal2(n).len() ==> is_digit(#[trigger] decimal2(n)[k]),
{
    lemma_decimal_digits(n);
    if n < 10 {
        lemma_digit(n);
        assert((('0' as u32) == 48));
    }
}

pub proof fn lemma_decimal2_injective(a: nat, b: nat)
    requires
        decimal2(a) == decimal2(b),
    ensures
        a == b,
{
    lemma_decimal_digits(a);
    lemma_decimal_digits(b);
    if a < 10 && b < 10 {
        lemma_digit(a);
        lemma_digit(b);
        assert(decimal2(a)[1] == decimal2(b)[1]);
    } else if a < 10 {
        assert(decimal2(a)[0] == '0');
        assert(('0' as u32) == 48);
        assert(decimal(b)[0] as u32 != 48);
    } else if b < 10 {
        assert(decimal2(b)[0] == '0');
        assert(('0' as u32) == 48);
        assert(decimal(a)[0] as u32 != 48);
    } else {
        lemma_decimal_injective(a, b);
    }
}

/// Append `n` in decimal to `out`.
pub fn push_decimal(out: &mut Vec<char>, n: u64)
    ensures
        final(out)@ == old(out)@ + decimal(n as nat),
    decreases n,
{
    if n >= 10 {
        push_decimal(out, n / 10);
    }
    let d = (n % 10) as u8;
    let c = (d + 48) as char;
    assert(c == digit((n % 10) as nat));
    out.push(c);
    proof {
        if n >= 10 {
            assert(final(out)@ =~= old(out)@ + decimal(n as nat));
        } else {
            assert(final(out)@ =~= old(out)@ + decimal(n as nat));
        }
    }
}

/// Append `n` in decimal, at least two digits, to `out`.
pub fn push_decimal2(out: &mut Vec<char>, n: u64)
    ensures
        final(out)@ == old(out)@ + decimal2(n as nat),
{
    if n < 10 {
        out.push('0');
    }
    let ghost mid = out@;
    push_decimal(out, n);
    proof {
        if n < 10 {
            assert(final(out)@ =~= old(out)@ + decimal2(n as nat));
        }
    }
}

/// The first line of `s` (`str::lines().next()`): everything before the
/// first `'\n'`, without a `'\r'` that ends it; `None` for empty text.
pub open spec fn first_line(s: Seq<char>) -> Option<Seq<char>> {
    if s.len() == 0 {
        None
    } else if exists|i: int| 0 <= i < s.len() && s[i] == '\n' {
        let i = choose|i: int|
            0 <= i < s.len() && s[i] == '\n' && forall|k: int| 0 <= k < i ==> s[k] != '\n';
        let line = s.take(i);
        if line.len() > 0 && line.last() == '\r' {
            Some(line.drop_last())
        } else {
            Some(line)
        }
    } else {
        Some(s)
    }
}

/// The first line of `v`, as [`first_line`] defines it.
pub fn first_line_chars(v: &[char]) -> (r: Option<Vec<char>>)
    ensures
        r matches Some(l) ==> first_line(v@) == Some(l@),
        r is None ==> first_line(v@) is None,
{
    if v.len() == 0 {
        return None;
    }
    let mut i: usize = 0;
    while i < v.len() && v[i] != '\n'
        invariant
            i <= v@.len(),
            forall|k: int| 0 <= k < i ==> v@[k] != '\n',
        decreases v.len() - i,
    {
        i = i + 1;
    }
    if i == v.len() {
        assert(!exists|k: int| 0 <= k < v@.len() && v@[k] == '\n');
        return Some(slice_chars(v, 0, v.len()));
    }
    proof {
        let j = choose|j: int|
            0 <= j < v@.len() && v@[j] == '\n' && forall|k: int| 0 <= k < j ==> v@[k] != '\n';
        assert(v@[i as int] == '\n');
        if j < i {
            assert(v@[j] != '\n');
        }
        if j > i {
            assert(v@[i as int] != '\n');
        }
        assert(j == i);
    }
    if i > 0 && v[i - 1] == '\r' {
        Some(slice_chars(v, 0, i - 1))
    } else {
        Some(slice_chars(v, 0, i))
    }
}


/// The position of the first `c` in `s`.
pub open spec fn find_char(s: Seq<char>, c: char) -> Option<int> {
    if exists|i: int| 0 <= i < s.len() && s[i] == c {
        Some(choose|i: int| 0 <= i < s.len() && s[i] == c && forall|k: int| 0 <= k < i ==> s[k] != c)
    } else {
        None
    }
}

/// The position of the first `c` in `v`, as [`find_char`] defines it.
pub fn find_char_in(v: &[char], c: char) -> (r: Option<usize>)
    ensures
        r matches Some(i) ==> find_char(v@, c) == Some(i as int) && i < v@.len() && v@[i as int]
            == c,
        r is None ==> find_char(v@, c) is None,
{
    let mut i: usize = 0;
    while i < v.len() && v[i] != c
        invariant
            i <= v@.len(),
            forall|k: int| 0 <= k < i ==> v@[k] != c,
        decreases v.len() - i,
    {
        i = i + 1;
    }
    if i == v.len() {
        assert(!exists|k: int| 0 <= k < v@.len() && v@[k] == c);
        return None;
    }
    proof {
        assert(v@[i as int] == c);
        let j = choose|j: int|
            0 <= j < v@.len() && v@[j] == c && forall|k: int| 0 <= k < j ==> v@[k] != c;
        if j < i {
            assert(v@[j] != c);
        }
        if j > i {
            assert(v@[i as int] != c);
        }
    }
    Some(i)
}

/// A quote character, `"` or `'`.
pub open spec fn is_quote(c: char) -> bool {
    c == '"' || c == '\''
}

/// `s` without leading quote characters.
pub open spec fn strip_quotes_start(s: Seq<char>) -> Seq<char>
    decreases s.len(),
{
    if s.len() > 0 && is_quote(s[0]) {
        strip_quotes_start(s.drop_first())
    } else {
        s
    }
}

/// `s` without trailing quote characters.
pub open spec fn strip_quotes_end(s: Seq<char>) -> Seq<char>
    decreases s.len(),
{
    if s.len() > 0 && is_quote(s.last()) {
        strip_quotes_end(s.drop_last())
    } else {
        s
    }
}

/// `s` without surrounding quotes (`trim_matches(|c| c == '"' || c == '\'')`).
pub open spec fn strip_quotes(s: Seq<char>) -> Seq<char> {
    strip_quotes_end(strip_quotes_start(s))
}

/// [`strip_quotes`] on a vector.
pub fn strip_quotes_chars(v: &[char]) -> (r: Vec<char>)
    ensures
        r@ == strip_quotes(v@),
{
    let len = v.len();
    let mut i: usize = 0;
    proof {
        assert(v@.subrange(0, len as int) =~= v@);
    }
    while i < len && (v[i] == '"' || v[i] == '\'')
        invariant
            i <= len == v@.len(),
            strip_quotes_start(v@) == strip_quotes_start(v@.subrange(i as int, len as int)),
        decreases len - i,
    {
        proof {
            assert(v@.subrange(i as int, len as int).drop_first() =~= v@.subrange(
                i + 1,
                len as int,
            ));
        }
        i = i + 1;
    }
    let ghost start = v@.subrange(i as int, len as int);
    assert(strip_quotes_start(v@) == start);
    let mut j: usize = len;
    proof {
        assert(start.subrange(0, (len - i) as int) =~= start);
    }
    while j > i && (v[j - 1] == '"' || v[j - 1] == '\'')
        invariant
            i <= j <= len == v@.len(),
            start == v@.subrange(i as int, len as int),
            strip_quotes_end(start) == strip_quotes_end(v@.subrange(i as int, j as int)),
        decreases j,
    {
        proof {
            assert(v@.subrange(i as int, j as int).drop_last() =~= v@.subrange(
                i as int,
                j - 1,
            ));
        }
        j = j - 1;
    }
    slice_chars(v, i, j)
}

/// Whether two string slices hold the same characters.
pub fn str_eq(a: &str, b: &str) -> (r: bool)
    ensures
        r == (a@ == b@),
{
    let x = a.as_bytes();
    let y = b.as_bytes();
    proof {
        vstd::utf8::encode_utf8_decode_utf8(a@);
        vstd::utf8::encode_utf8_decode_utf8(b@);
    }
    if x.len() != y.len() {
        return false;
    }
    let mut i: usize = 0;
    while i < x.len()
        invariant
            i <= x@.len() == y@.len(),
            x@ == vstd::utf8::encode_utf8(a@),
            y@ == vstd::utf8::encode_utf8(b@),
            forall|k: int| 0 <= k < i ==> x@[k] == y@[k],
        decreases x.len() - i,
    {
        if x[i] != y[i] {
            return false;
        }
        i = i + 1;
    }
    assert(x@ =~= y@);
    true
}

} // verus!
