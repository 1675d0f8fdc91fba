//! Region recipes: how one section's region should look — palette,
//! landmark, props — as authored by a local model and cached per section
//! hash ([`crate::sidecar`]).
//!
//! Every field is optional (`None` = the rule-derived value stands), and
//! [`RegionRecipe::clamped`] bounds the free values, so no model reply can
//! push an out-of-range value into the world. Colours and scales are
//! single-precision numbers carried here as their IEEE-754 bit patterns
//! ([`F32`]); clamping orders them as the numbers they encode.

use vstd::prelude::*;

use crate::text::{chars_of, find_char, find_char_in, slice_chars, string_of};

verus! {

/// A single-precision float, carried as its IEEE-754 bit pattern.
#[derive(Clone, Copy, Debug, PartialEq, Eq)]
pub struct F32 {
    pub bits: u32,
}

/// The bits of 0.0.
pub const ZERO_BITS: u32 = 0x0000_0000;

/// The bits of 0.5.
pub const HALF_BITS: u32 = 0x3F00_0000;

/// The bits of 0.6.
pub const SIX_TENTHS_BITS: u32 = 0x3F19_999A;

/// The bits of 1.0.
pub const ONE_BITS: u32 = 0x3F80_0000;

/// The bits of 2.5.
pub const TWO_AND_A_HALF_BITS: u32 = 0x4020_0000;

/// Whether the float `b` encodes is finite (neither infinite nor NaN).
pub open spec fn is_finite_bits(b: u32) -> bool {
    b % 0x8000_0000 < 0x7F80_0000
}

/// A finite float's position in numeric order: the magnitude bits, negated
/// for negative numbers (so `-0.0` and `0.0` sit together at 0).
pub open spec fn order_key(b: u32) -> int {
    if b >= 0x8000_0000 {
        -((b % 0x8000_0000) as int)
    } else {
        b as int
    }
}

/// `f32::clamp(finite(v), lo, hi)` for finite `lo <= hi`, where `finite`
/// turns NaN and infinities into 0.5.
pub open spec fn clamp_bits(v: u32, lo: u32, hi: u32) -> u32 {
    let v = if is_finite_bits(v) {
        v
    } else {
        HALF_BITS
    };
    if order_key(v) < order_key(lo) {
        lo
    } else if order_key(v) > order_key(hi) {
        hi
    } else {
        v
    }
}

/// [`order_key`] of `b`.
fn order_key_of(b: u32) -> (k: i64)
    ensures
        k == order_key(b),
{
    if b >= 0x8000_0000 {
        -((b % 0x8000_0000) as i64)
    } else {
        b as i64
    }
}

/// Clamp the finite value of `v` into `[lo, hi]`; NaN and infinities become
/// 0.5 first.
pub fn clamp_f32(v: F32, lo: u32, hi: u32) -> (r: F32)
    ensures
        r.bits == clamp_bits(v.bits, lo, hi),
{
    let x = if v.bits % 0x8000_0000 < 0x7F80_0000 {
        v.bits
    } else {
        HALF_BITS
    };
    if order_key_of(x) < order_key_of(lo) {
        F32 { bits: lo }
    } else if order_key_of(x) > order_key_of(hi) {
        F32 { bits: hi }
    } else {
        F32 { bits: x }
    }
}

/// An RGB colour clamped to `[0, 1]` per channel.
pub open spec fn clamp_rgb_bits(c: [F32; 3]) -> [F32; 3] {
    [
        F32 { bits: clamp_bits(c[0].bits, ZERO_BITS, ONE_BITS) },
        F32 { bits: clamp_bits(c[1].bits, ZERO_BITS, ONE_BITS) },
        F32 { bits: clamp_bits(c[2].bits, ZERO_BITS, ONE_BITS) },
    ]
}

fn clamp_rgb(c: [F32; 3]) -> (r: [F32; 3])
    ensures
        r == clamp_rgb_bits(c),
{
    [
        clamp_f32(c[0], ZERO_BITS, ONE_BITS),
        clamp_f32(c[1], ZERO_BITS, ONE_BITS),
        clamp_f32(c[2], ZERO_BITS, ONE_BITS),
    ]
}

/// The shape of a region's centrepiece.
#[derive(Clone, Copy, Debug, PartialEq, Eq)]
pub enum LandmarkKind {
    Pyramid,
    Cone,
    Column,
    Cube,
    Orb,
    Ring,
}

impl Default for LandmarkKind {
    fn default() -> (k: LandmarkKind)
        ensures
            k == LandmarkKind::Pyramid,
    {
        LandmarkKind::Pyramid
    }
}

/// The region's centrepiece.
#[derive(Clone, Copy, Debug, PartialEq, Eq)]
pub struct LandmarkSpec {
    pub kind: LandmarkKind,
    /// Multiplier on the rule-derived height (a function of prose length).
    pub scale: F32,
    /// Emissive glow strength.
    pub emissive: F32,
}

impl Default for LandmarkSpec {
    fn default() -> (s: LandmarkSpec)
        ensures
            s == (LandmarkSpec {
                kind: LandmarkKind::Pyramid,
                scale: F32 { bits: ONE_BITS },
                emissive: F32 { bits: SIX_TENTHS_BITS },
            }),
    {
        LandmarkSpec {
            kind: LandmarkKind::Pyramid,
            scale: F32 { bits: ONE_BITS },
            emissive: F32 { bits: SIX_TENTHS_BITS },
        }
    }
}

/// The shape of the small props ringing a platform.
#[derive(Clone, Copy, Debug, PartialEq, Eq)]
pub enum PropKind {
    Blocks,
    Spheres,
    Crystals,
}

impl Default for PropKind {
    fn default() -> (k: PropKind)
        ensures
            k == PropKind::Blocks,
    {
        PropKind::Blocks
    }
}

/// The ring of small shapes on the platform.
#[derive(Clone, Copy, Debug, PartialEq, Eq)]
pub struct PropSpec {
    pub kind: PropKind,
    pub count: u32,
}

impl Default for PropSpec {
    fn default() -> (s: PropSpec)
        ensures
            s == (PropSpec { kind: PropKind::Blocks, count: 6 }),
    {
        PropSpec { kind: PropKind::Blocks, count: 6 }
    }
}

/// How one section's region should look; applied by [`crate::draft`] on top
/// of the rule-derived draft.
#[derive(Clone, Copy, Debug, PartialEq, Eq)]
pub struct RegionRecipe {
    /// Signature colour (sRGB, 0..1) for the landmark, lamp, and platform
    /// tint. `None` = derive from the section hash.
    pub accent: Option<[F32; 3]>,
    /// Ground strip tint (sRGB, 0..1). `None` = the shared ground colour.
    pub ground: Option<[F32; 3]>,
    pub landmark: Option<LandmarkSpec>,
    pub props: Option<PropSpec>,
}

impl Default for RegionRecipe {
    fn default() -> (r: RegionRecipe)
        ensures
            r == empty_recipe(),
    {
        RegionRecipe { accent: None, ground: None, landmark: None, props: None }
    }
}

/// The recipe that sets nothing.
pub open spec fn empty_recipe() -> RegionRecipe {
    RegionRecipe { accent: None, ground: None, landmark: None, props: None }
}

/// A prop count bounded to 3..=12.
pub open spec fn clamp_count(n: u32) -> u32 {
    if n < 3 {
        3
    } else if n > 12 {
        12
    } else {
        n
    }
}

/// A recipe with every free value in the renderer's safe range: colours in
/// `[0, 1]`, landmark scale in `[0.5, 2.5]`, glow in `[0, 1]`, 3 to 12 props.
pub open spec fn clamped_recipe(r: RegionRecipe) -> RegionRecipe {
    RegionRecipe {
        accent: match r.accent {
            Some(c) => Some(clamp_rgb_bits(c)),
            None => None,
        },
        ground: match r.ground {
            Some(c) => Some(clamp_rgb_bits(c)),
            None => None,
        },
        landmark: match r.landmark {
            Some(l) => Some(
                LandmarkSpec {
                    kind: l.kind,
                    scale: F32 { bits: clamp_bits(l.scale.bits, HALF_BITS, TWO_AND_A_HALF_BITS) },
                    emissive: F32 { bits: clamp_bits(l.emissive.bits, ZERO_BITS, ONE_BITS) },
                },
            ),
            None => None,
        },
        props: match r.props {
            Some(p) => Some(PropSpec { kind: p.kind, count: clamp_count(p.count) }),
            None => None,
        },
    }
}

impl RegionRecipe {
    /// Clamp model-authored values into the renderer's safe ranges.
    pub fn clamped(self) -> (r: RegionRecipe)
        ensures
            r == clamped_recipe(self),
    {
        let accent = match self.accent {
            Some(c) => Some(clamp_rgb(c)),
            None => None,
        };
        let ground = match self.ground {
            Some(c) => Some(clamp_rgb(c)),
            None => None,
        };
        let landmark = match self.landmark {
            Some(l) => Some(
                LandmarkSpec {
                    kind: l.kind,
                    scale: clamp_f32(l.scale, HALF_BITS, TWO_AND_A_HALF_BITS),
                    emissive: clamp_f32(l.emissive, ZERO_BITS, ONE_BITS),
                },
            ),
            None => None,
        };
        let props = match self.props {
            Some(p) => {
                let count = if p.count < 3 {
                    3
                } else if p.count > 12 {
                    12
                } else {
                    p.count
                };
                Some(PropSpec { kind: p.kind, count })
            },
            None => None,
        };
        RegionRecipe { accent, ground, landmark, props }
    }

    /// True when nothing is set — not worth caching.
    pub fn is_empty(&self) -> (e: bool)
        ensures
            e == (*self == empty_recipe()),
    {
        self.accent.is_none() && self.ground.is_none() && self.landmark.is_none()
            && self.props.is_none()
    }
}

// ---------------------------------------------------------------------------
// Finding the JSON object in a model reply

/// Where a scan through a JSON object stands.
pub struct ScanState {
    /// Open braces minus closed ones, outside strings.
    pub depth: int,
    pub in_string: bool,
    /// The previous character, inside a string, was an unescaped `\`.
    pub escaped: bool,
}

/// One character of the scan: inside a string only quotes and escapes
/// count; outside, `"` opens a string and braces nest.
pub open spec fn scan_step(st: ScanState, c: char) -> ScanState {
    if st.in_string {
        if st.escaped {
            ScanState { escaped: false, ..st }
        } else if c == '\\' {
            ScanState { escaped: true, ..st }
        } else if c == '"' {
            ScanState { in_string: false, ..st }
        } else {
            st
        }
    } else if c == '"' {
        ScanState { in_string: true, ..st }
    } else if c == '{' {
        ScanState { depth: st.depth + 1, ..st }
    } else if c == '}' {
        ScanState { depth: st.depth - 1, ..st }
    } else {
        st
    }
}

/// The scan after all of `s`.
#[verifier::opaque]
pub open spec fn scan(s: Seq<char>) -> ScanState
    decreases s.len(),
{
    if s.len() == 0 {
        ScanState { depth: 0, in_string: false, escaped: false }
    } else {
        scan_step(scan(s.drop_last()), s.last())
    }
}

/// The first `k` characters of `s` end with a `}`, outside any string, that
/// closes the outermost brace.
#[verifier::opaque]
pub open spec fn closes_at(s: Seq<char>, k: int) -> bool {
    &&& 0 < k <= s.len()
    &&& s[k - 1] == '}'
    &&& !scan(s.take(k - 1)).in_string
    &&& scan(s.take(k)).depth == 0
}

/// The length of the first balanced object at the start of `s`.
#[verifier::opaque]
pub open spec fn object_len(s: Seq<char>) -> Option<int> {
    if exists|k: int| closes_at(s, k) {
        Some(choose|k: int| closes_at(s, k) && forall|j: int| 0 < j < k ==> !closes_at(s, j))
    } else {
        None
    }
}

/// The first balanced JSON object in a reply: from its first `{` to the
/// `}` that closes it, braces inside strings ignored. `None` when there is
/// no `{` or the object never closes (e.g. a truncated reply).
pub open spec fn json_object_of(text: Seq<char>) -> Option<Seq<char>> {
    match find_char(text, '{') {
        None => None,
        Some(start) => match object_len(text.skip(start)) {
            None => None,
            Some(n) => Some(text.subrange(start, start + n)),
        },
    }
}

proof fn lemma_scan_take(s: Seq<char>, k: int)
    requires
        0 <= k < s.len(),
    ensures
        scan(s.take(k + 1)) == scan_step(scan(s.take(k)), s[k]),
{
    reveal(scan);
    assert(s.take(k + 1).drop_last() =~= s.take(k));
}

proof fn lemma_scan_empty(s: Seq<char>)
    requires
        s.len() == 0,
    ensures
        scan(s) == (ScanState { depth: 0, in_string: false, escaped: false }),
{
    reveal(scan);
}

proof fn lemma_closes_at(s: Seq<char>, k: int)
    requires
        0 <= k < s.len(),
    ensures
        closes_at(s, k + 1) == (s[k] == '}' && !scan(s.take(k)).in_string && scan(
            s.take(k + 1),
        ).depth == 0),
{
    reveal(closes_at);
}

proof fn lemma_object_len(s: Seq<char>, n: int)
    requires
        closes_at(s, n),
        forall|j: int| 0 < j < n ==> !closes_at(s, j),
    ensures
        object_len(s) == Some(n),
{
    reveal(closes_at);
    reveal(object_len);
    let m = choose|m: int| closes_at(s, m) && forall|j: int| 0 < j < m ==> !closes_at(s, j);
    if m < n {
        assert(!closes_at(s, m));
    }
    if m > n {
        assert(!closes_at(s, n));
    }
}

/// The length of the first balanced object at `chars[start..]`, which
/// begins with `{`.
fn object_end(chars: &Vec<char>, start: usize) -> (r: Option<usize>)
    requires
        start < chars@.len(),
        chars@[start as int] == '{',
    ensures
        r matches Some(n) ==> object_len(chars@.skip(start as int)) == Some(n as int),
        r matches Some(n) ==> start + n <= chars@.len(),
        r is None ==> object_len(chars@.skip(start as int)) is None,
{
    let ghost s = chars@.skip(start as int);
    let mut depth: u64 = 0;
    let mut in_string = false;
    let mut escaped = false;
    let mut i: usize = start;
    proof {
        lemma_scan_empty(s.take(0));
    }
    while i < chars.len()
        invariant
            start <= i <= chars@.len(),
            s == chars@.skip(start as int),
            chars@[start as int] == '{',
            scan(s.take(i - start)) == (ScanState { depth: depth as int, in_string, escaped }),
            i > start ==> depth > 0,
            i == start ==> depth == 0 && !in_string,
            depth <= i - start,
            forall|k: int| 0 < k <= i - start ==> !closes_at(s, k),
        decreases chars.len() - i,
    {
        let c = chars[i];
        let ghost k = i - start;
        proof {
            lemma_scan_take(s, k);
            lemma_closes_at(s, k);
            assert(s[k] == c);
        }
        let ghost before = ScanState { depth: depth as int, in_string, escaped };
        if in_string {
            if escaped {
                escaped = false;
            } else if c == '\\' {
                escaped = true;
            } else if c == '"' {
                in_string = false;
            }
        } else if c == '"' {
            in_string = true;
        } else if c == '{' {
            depth = depth + 1;
        } else if c == '}' {
            depth = depth - 1;
            if depth == 0 {
                proof {
                    assert(scan_step(before, c).depth == 0);
                    assert(closes_at(s, k + 1));
                    lemma_object_len(s, k + 1);
                }
                return Some(i + 1 - start);
            }
        }
        assert(scan_step(before, c) == (ScanState { depth: depth as int, in_string, escaped }));
        assert(!closes_at(s, k + 1));
        i = i + 1;
    }
    proof {
        reveal(closes_at);
        reveal(object_len);
        assert(!exists|k: int| closes_at(s, k));
    }
    None
}

impl RegionRecipe {
    /// The JSON object a model reply holds, as [`json_object_of`] finds it:
    /// code fences and surrounding prose are skipped. Parsing the object
    /// into a recipe is left to the caller.
    pub fn json_in_llm_text(text: &str) -> (r: Option<String>)
        ensures
            r matches Some(s) ==> json_object_of(text@) == Some(s@),
            r is None ==> json_object_of(text@) is None,
    {
        let chars = chars_of(text);
        let found = find_char_in(&chars, '{');
        if found.is_none() {
            return None;
        }
        let start = found.unwrap();
        let end = object_end(&chars, start);
        match end {
            Some(n) => {
                let len = chars.len();
                assert(start + n <= len);
                let object = slice_chars(&chars, start, start + n);
                proof {
                    assert(json_object_of(text@) == Some(chars@.subrange(start as int, start + n)));
                }
                Some(string_of(&object))
            },
            None => None,
        }
    }
}

} // verus!
