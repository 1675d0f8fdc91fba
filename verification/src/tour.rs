//! Walking the document: which tour stop the keys lead to, and the caption
//! that says where you are. The stop survives rebuilds, so editing the
//! section you're looking at keeps you there.

use vstd::prelude::*;

use crate::doc::Doc;
use crate::text::{
    chars_of, cut_at_word, cut_chars_at_word, decimal, flatten, flatten_chars, push_all,
    push_decimal, string_of,
};

verus! {

/// The navigation keys pressed this frame.
#[derive(Clone, Copy, Debug, PartialEq, Eq)]
pub struct TourKeys {
    /// → ↓ Space PageDown.
    pub forward: bool,
    /// ← ↑ PageUp.
    pub back: bool,
    /// Home.
    pub first: bool,
    /// End.
    pub last: bool,
}

/// The stop the keys lead to from `stop` on a tour of `stops` stops: kept
/// on the tour, one forward, then one back, then Home, then End, each
/// applied in that order.
pub open spec fn next_stop(stop: nat, stops: nat, keys: TourKeys) -> nat {
    let last: nat = if stops > 0 {
        (stops - 1) as nat
    } else {
        0
    };
    let n0: nat = if stop < last {
        stop
    } else {
        last
    };
    let n1: nat = if keys.forward {
        if n0 + 1 < last {
            n0 + 1
        } else {
            last
        }
    } else {
        n0
    };
    let n2: nat = if keys.back {
        if n1 > 0 {
            (n1 - 1) as nat
        } else {
            0
        }
    } else {
        n1
    };
    let n3: nat = if keys.first {
        0
    } else {
        n2
    };
    if keys.last {
        last
    } else {
        n3
    }
}

/// The stop to head to after the keys of one frame.
pub fn navigate(stop: usize, stops: usize, keys: TourKeys) -> (next: usize)
    ensures
        next == next_stop(stop as nat, stops as nat, keys),
        stops > 0 ==> next < stops,
        stops == 0 ==> next == 0,
{
    let last = if stops > 0 {
        stops - 1
    } else {
        0
    };
    let mut next = if stop < last {
        stop
    } else {
        last
    };
    if keys.forward {
        next = if next + 1 < last {
            next + 1
        } else {
            last
        };
    }
    if keys.back {
        next = if next > 0 {
            next - 1
        } else {
            0
        };
    }
    if keys.first {
        next = 0;
    }
    if keys.last {
        next = last;
    }
    next
}

/// The caption over a tour stop: `3 / 7   Heading`, or a hint when the
/// document has no sections to stop at.
pub open spec fn heading_caption(stop: nat, stops: Seq<Seq<char>>) -> Seq<char> {
    if stop < stops.len() {
        decimal(stop + 1) + " / "@ + decimal(stops.len()) + "   "@ + stops[stop as int]
    } else {
        "Nothing here yet: add a ## heading"@
    }
}

/// The caption over stop `stop` of a tour captioned by `stops`.
pub fn caption_heading(stop: usize, stops: &Vec<String>) -> (c: String)
    ensures
        c@ == heading_caption(stop as nat, stops@.map_values(|s: String| s@)),
{
    if stop < stops.len() {
        let mut v: Vec<char> = Vec::new();
        push_decimal(&mut v, stop as u64 + 1);
        push_all(&mut v, &chars_of(" / "));
        push_decimal(&mut v, stops.len() as u64);
        push_all(&mut v, &chars_of("   "));
        push_all(&mut v, &chars_of(stops[stop].as_str()));
        string_of(&v)
    } else {
        "Nothing here yet: add a ## heading".to_owned()
    }
}

/// The start of a section's prose on one line, cut at a word boundary
/// after at most 180 characters and then marked with `…`.
pub open spec fn excerpt_of(body: Seq<char>) -> Seq<char> {
    let flat = flatten(body);
    if flat.len() <= 180 {
        flat
    } else {
        cut_at_word(flat, 180) + seq!['…']
    }
}

/// The start of a section's prose, cut at a word boundary.
pub fn excerpt(body: &str) -> (e: String)
    ensures
        e@ == excerpt_of(body@),
{
    let flat = flatten_chars(&chars_of(body));
    if flat.len() <= 180 {
        return string_of(&flat);
    }
    let mut cut = cut_chars_at_word(&flat, 180);
    cut.push('…');
    string_of(&cut)
}

/// The excerpt under the caption at stop `stop`: that section's excerpt,
/// or nothing past the last section.
pub fn caption_excerpt(doc: &Doc, stop: usize) -> (e: String)
    ensures
        stop < doc@.sections.len() ==> e@ == excerpt_of(doc@.sections[stop as int].body),
        stop >= doc@.sections.len() ==> e@.len() == 0,
{
    if stop < doc.sections.len() {
        excerpt(doc.sections[stop].body.as_str())
    } else {
        String::new()
    }
}

} // verus!
