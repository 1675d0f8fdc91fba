//! Properties of the library as a whole: how reading, planning, caching and
//! queueing fit together.

use vstd::prelude::*;

use crate::doc::{
    close_heading, doc_of, genre_of, in_slides, read_all, section_hash, section_of, step, DocView,
    ReadState,
};
use crate::draft::{
    any_recipe, base_entities, region_prefix, EntityView, RegionView, max_id, recipe_for, region_entities, region_of, regions_of, rule_landmark,
    world_of,
};
use crate::generation::{drained, job_wanted, worker_action, Outcome, WorkerAction};
use crate::hash::le_u64;
use crate::markdown::MdEventView;
use crate::recipe::{
    clamped_recipe, empty_recipe, is_finite_bits, order_key, RegionRecipe, HALF_BITS, ONE_BITS,
    TWO_AND_A_HALF_BITS, ZERO_BITS,
};
use crate::sidecar::{
    distinct_entries, entries_map, hex_digit, hex_of, is_clamped, lemma_clamped_idempotent,
    live_keys, loaded_map,
};
use crate::llm::prompt_excerpt_of;
use crate::text::{
    decimal2, is_digit, lemma_decimal2_digits, lemma_decimal2_injective, flatten, last_space, lemma_cut_at_word_flat, lemma_flat_is_fixed, lemma_flatten_is_flat,
    lemma_trim_idempotent, trim,
};
use crate::smoke::{smoke_frame, SmokeExit, TIMEOUT, WARM_UP};
use crate::tour::next_stop;
use crate::watch::{changed_count, reloads};

verus! {

// ---------------------------------------------------------------------------
// Reading

/// A document without `#`/`##` sections whose intro has prose becomes one
/// section, named by the title (the fallback when there is no `#` title),
/// holding the intro.
pub proof fn law_no_headings_is_one_section(events: Seq<MdEventView>, fallback: Seq<char>)
    requires
        read_all(events).sections.len() == 0,
        trim(read_all(events).intro).len() > 0,
    ensures
        doc_of(events, fallback).sections.len() == 1,
        doc_of(events, fallback).sections[0] == section_of(
            doc_of(events, fallback).title,
            doc_of(events, fallback).intro,
        ),
        read_all(events).title is None ==> doc_of(events, fallback).title == fallback,
{
}

/// Every section's hash is the BLAKE3 digest of its heading, a line break
/// and its body, so a section whose text is unchanged keeps its hash (and
/// seed), wherever it stands.
pub proof fn law_hash_tracks_section_text(
    events: Seq<MdEventView>,
    fallback: Seq<char>,
    i: int,
)
    requires
        0 <= i < doc_of(events, fallback).sections.len(),
    ensures
        doc_of(events, fallback).sections[i].hash == section_hash(
            doc_of(events, fallback).sections[i].heading,
            doc_of(events, fallback).sections[i].body,
        ),
{
}

/// Section bodies and the intro carry no leading or trailing white space.
pub proof fn law_prose_is_trimmed(events: Seq<MdEventView>, fallback: Seq<char>, i: int)
    requires
        0 <= i < doc_of(events, fallback).sections.len(),
    ensures
        trim(doc_of(events, fallback).sections[i].body) == doc_of(events, fallback).sections[i].body,
        trim(doc_of(events, fallback).intro) == doc_of(events, fallback).intro,
{
    let st = read_all(events);
    lemma_trim_idempotent(st.intro);
    let d = doc_of(events, fallback);
    if st.sections.len() == 0 && trim(st.intro).len() > 0 {
        lemma_trim_idempotent(trim(st.intro));
    } else {
        lemma_trim_idempotent(st.sections[i].1);
    }
}

/// Code blocks are left out: text and inline code inside a code block
/// (outside front matter) change nothing.
pub proof fn law_code_blocks_are_not_scenery(st: ReadState, t: Seq<char>, split: bool)
    requires
        st.in_code,
        !st.in_metadata,
    ensures
        step(st, MdEventView::Text(t), split) == st,
        step(st, MdEventView::Code(t), split) == st,
{
}

/// The first `#` heading is the title, wherever it stands: closing it
/// sets the title and starts no section.
pub proof fn law_first_h1_is_the_title(st: ReadState, slides: bool)
    requires
        st.heading matches Some(h) && h.0 == 1,
        st.title is None,
    ensures
        close_heading(st, slides).title == Some(trim(st.heading->Some_0.1)),
        close_heading(st, slides).sections == st.sections,
        close_heading(st, slides).intro == st.intro,
{
}

/// Splitting slides, a slide has one section: once it is named, later
/// headings (other than the title) are prose of that section, and only a
/// `---` separator opens the next slide.
pub proof fn law_one_section_per_slide(st: ReadState, split: bool)
    requires
        in_slides(st, split),
    ensures
        st.slide_named && st.heading is Some && !(st.heading->Some_0.0 == 1 && st.title is None)
            ==> close_heading(st, true).sections.len() == st.sections.len(),
        !st.slide_named && st.heading is Some && !(st.heading->Some_0.0 == 1 && st.title is None)
            ==> close_heading(st, true).sections.len() == st.sections.len() + 1,
        !step(st, MdEventView::Rule, split).slide_named,
        step(st, MdEventView::Rule, split).sections == st.sections,
{
}

/// Outside a deck, a `---` separator changes nothing.
pub proof fn law_separators_split_only_decks(st: ReadState, split: bool)
    requires
        !in_slides(st, split),
    ensures
        step(st, MdEventView::Rule, split) == st,
{
}

/// A document whose front matter names no genre is a `world`.
pub proof fn law_genre_defaults_to_world(doc: DocView)
    requires
        !doc.front_matter.contains_key("genre"@),
    ensures
        genre_of(doc.front_matter) == "world"@,
{
}

// ---------------------------------------------------------------------------
// Recipes and the cache

/// After clamping, every free value is in the renderer's range: colour
/// channels in `[0, 1]`, landmark scale in `[0.5, 2.5]`, glow in `[0, 1]`,
/// 3 to 12 props, all finite; clamping again changes nothing.
pub proof fn law_clamped_is_in_range(r: RegionRecipe)
    ensures
        is_clamped(clamped_recipe(r)),
        clamped_recipe(r).accent matches Some(c) ==> forall|j: int|
            0 <= j < 3 ==> is_finite_bits(#[trigger] c[j].bits) && order_key(ZERO_BITS) <= order_key(
                c[j].bits,
            ) <= order_key(ONE_BITS),
        clamped_recipe(r).ground matches Some(c) ==> forall|j: int|
            0 <= j < 3 ==> is_finite_bits(#[trigger] c[j].bits) && order_key(ZERO_BITS) <= order_key(
                c[j].bits,
            ) <= order_key(ONE_BITS),
        clamped_recipe(r).landmark matches Some(l) ==> is_finite_bits(l.scale.bits) && order_key(
            HALF_BITS,
        ) <= order_key(l.scale.bits) <= order_key(TWO_AND_A_HALF_BITS) && is_finite_bits(
            l.emissive.bits,
        ) && order_key(ZERO_BITS) <= order_key(l.emissive.bits) <= order_key(ONE_BITS),
        clamped_recipe(r).props matches Some(p) ==> 3 <= p.count <= 12,
{
    lemma_clamped_idempotent(r);
}

/// Clamping leaves the recipe that sets nothing as it is, so an empty
/// reply stays empty (and is not worth caching).
pub proof fn law_empty_recipe_stays_empty()
    ensures
        clamped_recipe(empty_recipe()) == empty_recipe(),
{
}

proof fn lemma_hex_len(b: Seq<u8>)
    ensures
        hex_of(b).len() == 2 * b.len(),
    decreases b.len(),
{
    if b.len() > 0 {
        lemma_hex_len(b.drop_last());
    }
}

proof fn lemma_hex_digit_injective(a: int, b: int)
    requires
        0 <= a < 16,
        0 <= b < 16,
        hex_digit(a) == hex_digit(b),
    ensures
        a == b,
{
    assert((((a + 48) as u32) as char) as u32 == (a + 48) as u32);
    assert((((b + 48) as u32) as char) as u32 == (b + 48) as u32);
    assert((((a + 87) as u32) as char) as u32 == (a + 87) as u32);
    assert((((b + 87) as u32) as char) as u32 == (b + 87) as u32);
}

/// Different section hashes have different cache keys, so a recipe is
/// only ever found for the exact text it was authored for.
pub proof fn law_keys_distinguish_hashes(a: Seq<u8>, b: Seq<u8>)
    requires
        a.len() == b.len(),
        hex_of(a) == hex_of(b),
    ensures
        a == b,
    decreases a.len(),
{
    if a.len() > 0 {
        lemma_hex_len(a.drop_last());
        lemma_hex_len(b.drop_last());
        let n = hex_of(a.drop_last()).len() as int;
        assert(hex_of(a)[n] == hex_digit((a.last() / 16) as int));
        assert(hex_of(b)[n] == hex_digit((b.last() / 16) as int));
        assert(hex_of(a)[n + 1] == hex_digit((a.last() % 16) as int));
        assert(hex_of(b)[n + 1] == hex_digit((b.last() % 16) as int));
        lemma_hex_digit_injective((a.last() / 16) as int, (b.last() / 16) as int);
        lemma_hex_digit_injective((a.last() % 16) as int, (b.last() % 16) as int);
        assert(hex_of(a.drop_last()) =~= hex_of(a).take(n));
        assert(hex_of(b.drop_last()) =~= hex_of(b).take(n));
        law_keys_distinguish_hashes(a.drop_last(), b.drop_last());
        let x = a.last() as int;
        let y = b.last() as int;
        assert(x == (x / 16) * 16 + x % 16);
        assert(y == (y / 16) * 16 + y % 16);
        assert(a.last() == b.last());
        assert(a =~= a.drop_last().push(a.last()));
        assert(b =~= b.drop_last().push(b.last()));
    }
}

/// What a cache read gives back of a write: the written recipe, clamped;
/// every other key keeps its entry.
pub proof fn law_get_after_insert(
    cache: Map<Seq<char>, RegionRecipe>,
    hash: Seq<u8>,
    recipe: RegionRecipe,
    other: Seq<char>,
)
    requires
        other != hex_of(hash),
    ensures
        cache.insert(hex_of(hash), clamped_recipe(recipe)).contains_key(hex_of(hash)),
        cache.insert(hex_of(hash), clamped_recipe(recipe))[hex_of(hash)] == clamped_recipe(recipe),
        cache.insert(hex_of(hash), clamped_recipe(recipe)).contains_key(other)
            == cache.contains_key(other),
        cache.contains_key(other) ==> cache.insert(hex_of(hash), clamped_recipe(recipe))[other]
            == cache[other],
{
}

/// Caching a recipe for a new key adds one entry; for a key already cached
/// the count stays (the recipe is replaced).
pub proof fn law_insert_counts_new_keys(
    cache: Map<Seq<char>, RegionRecipe>,
    hash: Seq<u8>,
    recipe: RegionRecipe,
)
    requires
        cache.dom().finite(),
    ensures
        cache.insert(hex_of(hash), clamped_recipe(recipe)).dom().finite(),
        cache.insert(hex_of(hash), clamped_recipe(recipe)).dom().len() == cache.dom().len() + (
        if cache.contains_key(hex_of(hash)) {
            0int
        } else {
            1int
        }),
{
    let k = hex_of(hash);
    assert(cache.insert(k, clamped_recipe(recipe)).dom() =~= cache.dom().insert(k));
}

/// Entries written from a cache (each key once, each recipe clamped) load
/// back as the same map.
pub proof fn law_saved_entries_load_back(entries: Seq<(String, RegionRecipe)>)
    requires
        distinct_entries(entries),
        forall|i: int| 0 <= i < entries.len() ==> is_clamped(#[trigger] entries[i].1),
    ensures
        loaded_map(entries) == entries_map(entries),
    decreases entries.len(),
{
    if entries.len() > 0 {
        let d = entries.drop_last();
        assert forall|i: int| 0 <= i < d.len() implies is_clamped(#[trigger] d[i].1) by {
            assert(d[i] == entries[i]);
        }
        law_saved_entries_load_back(d);
        assert(is_clamped(entries[entries.len() - 1].1));
    }
}

/// What a reload gives back of a save: the entries written for a document
/// (each key once, each recipe clamped, as `RecipeStore::sidecar_entries`
/// ensures) load back as exactly the cached recipes of the document's
/// current sections — pruned entries stay gone, the rest are unchanged.
pub proof fn law_sidecar_round_trip(
    cache: Map<Seq<char>, RegionRecipe>,
    doc: DocView,
    entries: Seq<(String, RegionRecipe)>,
)
    requires
        distinct_entries(entries),
        forall|i: int| 0 <= i < entries.len() ==> is_clamped(#[trigger] entries[i].1),
        entries_map(entries) == cache.restrict(live_keys(doc)),
    ensures
        loaded_map(entries) == cache.restrict(live_keys(doc)),
        forall|i: int|
            0 <= i < doc.sections.len() ==> (#[trigger] loaded_map(entries).contains_key(
                hex_of(doc.sections[i].hash),
            ) <==> cache.contains_key(hex_of(doc.sections[i].hash))),
{
    law_saved_entries_load_back(entries);
    assert forall|i: int| 0 <= i < doc.sections.len() implies (#[trigger] loaded_map(
        entries,
    ).contains_key(hex_of(doc.sections[i].hash)) <==> cache.contains_key(
        hex_of(doc.sections[i].hash),
    )) by {
        assert(live_keys(doc).contains(hex_of(doc.sections[i].hash)));
    }
}

// ---------------------------------------------------------------------------
// The prompt

/// A prompt excerpt is stable: the excerpt of an excerpt is itself. It is
/// the start of the prose on one line, at most 600 characters, and a cut
/// that found a space keeps at least one word.
pub proof fn law_prompt_excerpt_is_stable(body: Seq<char>)
    ensures
        prompt_excerpt_of(prompt_excerpt_of(body)) == prompt_excerpt_of(body),
        prompt_excerpt_of(body).len() <= 600,
        prompt_excerpt_of(body) == flatten(body).take(prompt_excerpt_of(body).len() as int),
        flatten(body).len() > 0 ==> prompt_excerpt_of(body).len() > 0,
        flatten(body).len() > 600 && last_space(flatten(body).take(600)) is Some
            ==> prompt_excerpt_of(body).len() > 0,
{
    let f = flatten(body);
    lemma_flatten_is_flat(body);
    lemma_cut_at_word_flat(f, 600);
    let e = prompt_excerpt_of(body);
    lemma_flat_is_fixed(e);
    if f.len() > 0 {
        assert(f[0] != ' ');
    }
}

// ---------------------------------------------------------------------------
// Planning the world

/// One tour stop per section, in document order, captioned by its heading.
pub proof fn law_one_stop_per_section(
    doc: DocView,
    store: Map<Seq<char>, RegionRecipe>,
    deck: bool,
    i: int,
)
    requires
        0 <= i < doc.sections.len(),
    ensures
        world_of(doc, store, deck).regions.len() == doc.sections.len(),
        world_of(doc, store, deck).regions[i].heading == doc.sections[i].heading,
{
}

/// Editing a section, or the recipe of a section, changes only its own
/// region: a section that stands at the same place with the same text and
/// the same recipe plans the same region and the same entities.
pub proof fn law_regions_are_local(
    d1: DocView,
    s1: Map<Seq<char>, RegionRecipe>,
    d2: DocView,
    s2: Map<Seq<char>, RegionRecipe>,
    j: int,
)
    requires
        0 <= j < d1.sections.len(),
        0 <= j < d2.sections.len(),
        d1.sections[j] == d2.sections[j],
        recipe_for(s1, d1.sections[j]) == recipe_for(s2, d2.sections[j]),
    ensures
        regions_of(d1, s1)[j] == regions_of(d2, s2)[j],
        region_entities(j, regions_of(d1, s1)[j].props.len() as int) == region_entities(
            j,
            regions_of(d2, s2)[j].props.len() as int,
        ),
{
}

/// Without recipes the plan is the pure rule-based draft: every region is
/// rule-derived and the source says so.
pub proof fn law_draft_without_recipes(doc: DocView, deck: bool, i: int)
    requires
        0 <= i < doc.sections.len(),
    ensures
        world_of(doc, Map::empty(), deck).source == "localgpt-md draft"@,
        world_of(doc, Map::empty(), deck).regions[i] == region_of(i, doc.sections[i], None),
{
    assert(!any_recipe(doc, Map::empty()));
}

/// Same document, same recipes, same world: the plan has no clock,
/// randomness or hidden state.
pub proof fn law_same_text_same_world(
    d1: DocView,
    s1: Map<Seq<char>, RegionRecipe>,
    d2: DocView,
    s2: Map<Seq<char>, RegionRecipe>,
    deck: bool,
)
    requires
        d1 == d2,
        s1 == s2,
    ensures
        world_of(d1, s1, deck) == world_of(d2, s2, deck),
{
}

/// A recipe that sets nothing plans the same region as no recipe: every
/// field a recipe leaves unset keeps the rule-derived value.
pub proof fn law_empty_recipe_plans_the_draft(i: int, s: crate::doc::SectionView)
    ensures
        region_of(i, s, Some(empty_recipe())) == region_of(i, s, None),
{
    assert(region_of(i, s, Some(empty_recipe())).props =~= region_of(i, s, None).props);
}

/// `name` starts with `p`.
pub open spec fn has_prefix(name: Seq<char>, p: Seq<char>) -> bool {
    p.len() <= name.len() && name.take(p.len() as int) == p
}

/// Whether an entity's name starts with region `j`'s prefix and a dash
/// (`s02-` for the second region).
pub open spec fn in_region(j: int) -> spec_fn(EntityView) -> bool {
    |e: EntityView| has_prefix(e.name, region_prefix(j) + seq!['-'])
}

proof fn lemma_dash_name(p: Seq<char>, x: Seq<char>)
    requires
        x.len() > 0,
        x[0] == '-',
    ensures
        (p + x).len() > p.len(),
        (p + x).take(p.len() as int) == p,
        (p + x)[p.len() as int] == '-',
{
    assert((p + x).take(p.len() as int) =~= p);
}

proof fn lemma_prefix_selects(i: int, j: int, name: Seq<char>)
    requires
        0 <= i,
        0 <= j,
        name.len() > region_prefix(i).len(),
        name.take(region_prefix(i).len() as int) == region_prefix(i),
        name[region_prefix(i).len() as int] == '-',
    ensures
        has_prefix(name, region_prefix(j) + seq!['-']) == (i == j),
{
    let pi = region_prefix(i);
    let pj = region_prefix(j);
    let a = decimal2((i + 1) as nat);
    let b = decimal2((j + 1) as nat);
    let q = pj + seq!['-'];
    lemma_decimal2_digits((i + 1) as nat);
    lemma_decimal2_digits((j + 1) as nat);
    assert(('-' as u32) == 45);
    if i == j {
        assert forall|k: int| 0 <= k < q.len() implies name[k] == q[k] by {
            if k < pi.len() {
                assert(name.take(pi.len() as int)[k] == name[k]);
            }
        }
        assert(name.take(q.len() as int) =~= q);
    } else if has_prefix(name, q) {
        assert forall|k: int| 0 <= k < q.len() implies #[trigger] name[k] == q[k] by {
            assert(name.take(q.len() as int)[k] == name[k]);
        }
        assert forall|k: int| 0 <= k < pi.len() implies #[trigger] name[k] == pi[k] by {
            assert(name.take(pi.len() as int)[k] == name[k]);
        }
        if a.len() == b.len() {
            assert forall|k: int| 0 <= k < a.len() implies a[k] == b[k] by {
                assert(name[k + 1] == pi[k + 1]);
                assert(name[k + 1] == q[k + 1]);
            }
            assert(a =~= b);
            lemma_decimal2_injective((i + 1) as nat, (j + 1) as nat);
        } else if b.len() < a.len() {
            let t: int = 1 + b.len() as int;
            assert(q[t] == '-');
            assert(name[t] == pi[t]);
            assert(pi[t] == a[b.len() as int]);
            assert(is_digit(a[b.len() as int]));
        } else {
            let t: int = 1 + a.len() as int;
            assert(name[t] == '-');
            assert(q[t] == b[a.len() as int]);
            assert(is_digit(b[a.len() as int]));
        }
    }
}

proof fn lemma_filter_all(s: Seq<EntityView>, p: spec_fn(EntityView) -> bool)
    requires
        forall|k: int| 0 <= k < s.len() ==> p(#[trigger] s[k]),
    ensures
        s.filter(p) == s,
    decreases s.len(),
{
    reveal(Seq::filter);
    if s.len() > 0 {
        assert forall|k: int| 0 <= k < s.drop_last().len() implies p(#[trigger] s.drop_last()[k]) by {
            assert(s.drop_last()[k] == s[k]);
        }
        lemma_filter_all(s.drop_last(), p);
        assert(p(s[s.len() - 1]));
        assert(s.drop_last().push(s.last()) =~= s);
    }
}

proof fn lemma_filter_none(s: Seq<EntityView>, p: spec_fn(EntityView) -> bool)
    requires
        forall|k: int| 0 <= k < s.len() ==> !p(#[trigger] s[k]),
    ensures
        s.filter(p) == Seq::<EntityView>::empty(),
    decreases s.len(),
{
    reveal(Seq::filter);
    if s.len() > 0 {
        assert forall|k: int| 0 <= k < s.drop_last().len() implies !p(#[trigger] s.drop_last()[k]) by {
            assert(s.drop_last()[k] == s[k]);
        }
        lemma_filter_none(s.drop_last(), p);
        assert(!p(s[s.len() - 1]));
    }
}

proof fn lemma_region_entities_filter(i: int, n: int, j: int)
    requires
        0 <= i,
        0 <= n,
        0 <= j,
    ensures
        region_entities(i, n).filter(in_region(j)) == (if i == j {
            region_entities(i, n)
        } else {
            Seq::<EntityView>::empty()
        }),
{
    let es = region_entities(i, n);
    let p = region_prefix(i);
    reveal_strlit("-ground");
    reveal_strlit("-platform");
    reveal_strlit("-landmark");
    reveal_strlit("-prop-");
    reveal_strlit("-lamp");
    assert forall|k: int| 0 <= k < es.len() implies in_region(j)(#[trigger] es[k]) == (i == j) by {
        let name = es[k].name;
        if k == 0 {
            lemma_dash_name(p, "-ground"@);
        } else if k == 1 {
            lemma_dash_name(p, "-platform"@);
        } else if k == 2 {
            lemma_dash_name(p, "-landmark"@);
        } else if k < 3 + n {
            let d = decimal2((k - 3 + 1) as nat);
            assert(name == p + "-prop-"@ + d);
            lemma_dash_name(p, "-prop-"@ + d);
            assert(p + "-prop-"@ + d =~= p + ("-prop-"@ + d));
        } else {
            lemma_dash_name(p, "-lamp"@);
        }
        lemma_prefix_selects(i, j, name);
    }
    if i == j {
        lemma_filter_all(es, in_region(j));
    } else {
        lemma_filter_none(es, in_region(j));
    }
}

proof fn lemma_entities_filter_upto(regions: Seq<RegionView>, m: int, j: int)
    requires
        0 <= m <= regions.len(),
        0 <= j,
    ensures
        Seq::new(m as nat, |i: int| region_entities(i, regions[i].props.len() as int)).flatten().filter(
            in_region(j),
        ) == (if j < m {
            region_entities(j, regions[j].props.len() as int)
        } else {
            Seq::<EntityView>::empty()
        }),
    decreases m,
{
    let f = |i: int| region_entities(i, regions[i].props.len() as int);
    if m == 0 {
        assert(Seq::new(0, f) =~= Seq::<Seq<EntityView>>::empty());
        reveal(Seq::filter);
    } else {
        lemma_entities_filter_upto(regions, m - 1, j);
        let prev = Seq::new((m - 1) as nat, f);
        assert(Seq::new(m as nat, f) =~= prev.push(f(m - 1)));
        prev.lemma_flatten_push(f(m - 1));
        Seq::filter_distributes_over_add(prev.flatten(), f(m - 1), in_region(j));
        lemma_region_entities_filter(m - 1, regions[m - 1].props.len() as int, j);
        if j < m - 1 {
            assert(region_entities(j, regions[j].props.len() as int) + Seq::<EntityView>::empty()
                =~= region_entities(j, regions[j].props.len() as int));
        } else if j == m - 1 {
            assert(Seq::<EntityView>::empty() + f(m - 1) =~= f(m - 1));
        } else {
            assert(Seq::<EntityView>::empty() + Seq::<EntityView>::empty() =~= Seq::<
                EntityView,
            >::empty());
        }
    }
}

/// The entities whose names carry region `j`'s prefix (`s02-`) are exactly
/// that region's entities, in order: the base ground and sun never match,
/// and no other region's names do.
pub proof fn law_region_prefix_selects_its_entities(
    doc: DocView,
    store: Map<Seq<char>, RegionRecipe>,
    deck: bool,
    j: int,
)
    requires
        0 <= j < doc.sections.len(),
    ensures
        world_of(doc, store, deck).entities.filter(in_region(j)) == region_entities(
            j,
            regions_of(doc, store)[j].props.len() as int,
        ),
{
    let regions = regions_of(doc, store);
    let f = |i: int| region_entities(i, regions[i].props.len() as int);
    let nested = Seq::new(regions.len(), f);
    lemma_entities_filter_upto(regions, regions.len() as int, j);
    Seq::filter_distributes_over_add(base_entities(), nested.flatten(), in_region(j));
    reveal_strlit("ground-lead-in");
    reveal_strlit("sun");
    let b = base_entities();
    let q = region_prefix(j) + seq!['-'];
    lemma_decimal2_digits((j + 1) as nat);
    assert forall|k: int| 0 <= k < b.len() implies !in_region(j)(#[trigger] b[k]) by {
        if k == 0 {
            if has_prefix(b[k].name, q) {
                assert(b[k].name.take(q.len() as int)[0] == b[k].name[0]);
                assert(q[0] == 's');
            }
        }
    }
    lemma_filter_none(b, in_region(j));
    assert(Seq::<EntityView>::empty() + f(j) =~= f(j));
}

/// Editing or restyling one section leaves every other region identical:
/// the entities named with an untouched region's prefix are the same, in
/// order, before and after.
pub proof fn law_untouched_regions_keep_their_entities(
    d1: DocView,
    s1: Map<Seq<char>, RegionRecipe>,
    d2: DocView,
    s2: Map<Seq<char>, RegionRecipe>,
    deck1: bool,
    deck2: bool,
    j: int,
)
    requires
        0 <= j < d1.sections.len(),
        0 <= j < d2.sections.len(),
        d1.sections[j] == d2.sections[j],
        recipe_for(s1, d1.sections[j]) == recipe_for(s2, d2.sections[j]),
    ensures
        world_of(d1, s1, deck1).entities.filter(in_region(j)) == world_of(
            d2,
            s2,
            deck2,
        ).entities.filter(in_region(j)),
{
    law_region_prefix_selects_its_entities(d1, s1, deck1, j);
    law_region_prefix_selects_its_entities(d2, s2, deck2, j);
    law_regions_are_local(d1, s1, d2, s2, j);
}

/// An empty document still plans a world: the lead-in ground and the sun,
/// and no regions (so no tour and no camera).
pub proof fn law_empty_document_still_compiles(doc: DocView, store: Map<Seq<char>, RegionRecipe>, deck: bool)
    requires
        doc.sections.len() == 0,
    ensures
        world_of(doc, store, deck).regions.len() == 0,
        world_of(doc, store, deck).entities == base_entities(),
        world_of(doc, store, deck).entities.len() == 2,
        world_of(doc, store, deck).next_entity_id == 3,
{
    let w = world_of(doc, store, deck);
    let nested = Seq::new(0, |i: int| region_entities(i, regions_of(doc, store)[i].props.len() as int));
    assert(nested =~= Seq::<Seq<crate::draft::EntityView>>::empty());
    assert(nested.flatten() =~= Seq::<crate::draft::EntityView>::empty());
    assert(w.entities =~= base_entities());
    reveal_with_fuel(max_id, 3);
}

proof fn lemma_max_id_is_max(es: Seq<crate::draft::EntityView>)
    ensures
        forall|j: int| 0 <= j < es.len() ==> #[trigger] es[j].id <= max_id(es),
    decreases es.len(),
{
    if es.len() > 0 {
        lemma_max_id_is_max(es.drop_last());
        assert forall|j: int| 0 <= j < es.len() implies #[trigger] es[j].id <= max_id(es) by {
            if j < es.len() - 1 {
                assert(es.drop_last()[j] == es[j]);
            }
        }
    }
}

/// The next free entity id is above every id in the world.
pub proof fn law_next_entity_id_is_free(doc: DocView, store: Map<Seq<char>, RegionRecipe>, deck: bool, j: int)
    requires
        0 <= j < world_of(doc, store, deck).entities.len(),
        max_id(world_of(doc, store, deck).entities) < u64::MAX,
    ensures
        world_of(doc, store, deck).entities[j].id < world_of(doc, store, deck).next_entity_id,
{
    lemma_max_id_is_max(world_of(doc, store, deck).entities);
}

/// A recipe's prop count and landmark arrive in its region; without one,
/// the landmark follows the seed.
pub proof fn law_recipe_shapes_its_region(i: int, s: crate::doc::SectionView, r: Option<RegionRecipe>)
    ensures
        r matches Some(rc) ==> (rc.props matches Some(p) ==> region_of(i, s, r).props.len()
            == p.count),
        r matches Some(rc) ==> (rc.landmark matches Some(l) ==> region_of(i, s, r).landmark == l),
        r is None ==> region_of(i, s, r).landmark == rule_landmark(le_u64(s.hash) as u64),
        r is None ==> region_of(i, s, r).accent is None && region_of(i, s, r).ground is None,
{
}

// ---------------------------------------------------------------------------
// The tour

/// Navigation never leaves the tour, Home goes to the first stop and End to
/// the last.
pub proof fn law_navigation_stays_on_the_tour(stop: nat, stops: nat, keys: crate::tour::TourKeys)
    requires
        stops > 0,
    ensures
        next_stop(stop, stops, keys) < stops,
        keys.last ==> next_stop(stop, stops, keys) == stops - 1,
        keys.first && !keys.last ==> next_stop(stop, stops, keys) == 0,
{
}

// ---------------------------------------------------------------------------
// Regeneration

/// Nothing is generated twice: once a job for a key has gone out, no
/// section with that key wants another until its outcome is in; a cached
/// or failed key never wants one.
pub proof fn law_no_job_for_cached_pending_or_failed(
    doc: DocView,
    cached: Map<Seq<char>, RegionRecipe>,
    failed: Set<Seq<char>>,
    pending: Set<Seq<char>>,
    hash: Seq<u8>,
    i: int,
)
    requires
        0 <= i < doc.sections.len(),
        hex_of(doc.sections[i].hash) == hex_of(hash),
    ensures
        !job_wanted(doc, cached, failed, pending.insert(hex_of(hash)), i),
        cached.contains_key(hex_of(hash)) ==> !job_wanted(doc, cached, failed, pending, i),
        failed.contains(hex_of(hash)) ==> !job_wanted(doc, cached, failed, pending, i),
{
}

/// A failure is sticky for the run: after an outcome without a recipe,
/// no section with that key wants a job again.
pub proof fn law_failures_are_not_retried(
    outcomes: Seq<Outcome>,
    pending: Set<Seq<char>>,
    failed: Set<Seq<char>>,
    cache: Map<Seq<char>, RegionRecipe>,
    doc: DocView,
    i: int,
)
    requires
        outcomes.len() > 0,
        outcomes.last().recipe is None,
        0 <= i < doc.sections.len(),
        doc.sections[i].hash == outcomes.last().hash@,
    ensures
        ({
            let d = drained(outcomes, pending, failed, cache);
            !job_wanted(doc, d.2, d.1, d.0, i)
        }),
{
}

/// Once a job's outcome is in, the job is no longer pending; a failure is
/// remembered and a recipe is cached.
pub proof fn law_outcome_settles_its_job(
    outcomes: Seq<Outcome>,
    pending: Set<Seq<char>>,
    failed: Set<Seq<char>>,
    cache: Map<Seq<char>, RegionRecipe>,
)
    requires
        outcomes.len() > 0,
    ensures
        ({
            let d = drained(outcomes, pending, failed, cache);
            let k = hex_of(outcomes.last().hash@);
            &&& !d.0.contains(k)
            &&& outcomes.last().recipe is None ==> d.1.contains(k)
            &&& outcomes.last().recipe matches Some(r) ==> d.2.contains_key(k) && d.2[k]
                == clamped_recipe(r)
        }),
{
}

/// Every job gets an answer within one load: a resident model generates,
/// and a job never waits on a second load attempt.
pub proof fn law_worker_answers_each_job(model_loaded: bool)
    ensures
        model_loaded ==> worker_action(model_loaded, false) == WorkerAction::Generate,
        !model_loaded ==> worker_action(model_loaded, false) == WorkerAction::LoadModel,
        worker_action(model_loaded, true) != WorkerAction::LoadModel,
{
}

// ---------------------------------------------------------------------------
// The smoke shot

/// The smoke run captures only on the warm-up frame, exits successfully as
/// soon as the shot is saved, and never runs past the timeout.
pub proof fn law_smoke_run_ends(frame: u32, has_target: bool, saved: bool)
    ensures
        smoke_frame(frame, has_target, saved).capture ==> frame + 1 == WARM_UP,
        saved ==> smoke_frame(frame, has_target, saved).exit == Some(SmokeExit::Success),
        frame >= TIMEOUT ==> smoke_frame(frame, has_target, saved).exit is Some,
        frame + 1 <= TIMEOUT && !saved ==> smoke_frame(frame, has_target, saved).exit is None,
{
}

// ---------------------------------------------------------------------------
// Hot reload

/// A file is reloaded once per change: after a poll reloads at a time, the
/// next poll that reads the same time keeps the world, and a file missing
/// mid-save never reloads.
pub proof fn law_one_reload_per_change(before: Option<i128>, now: Option<i128>)
    ensures
        reloads(before, now) ==> !reloads(now, now),
        !reloads(before, None),
        !reloads(before, before),
{
}

/// Reloading an unchanged document reports no changed sections.
pub proof fn law_unchanged_reload_changes_nothing(doc: DocView, n: int)
    requires
        n <= doc.sections.len(),
    ensures
        changed_count(doc, doc, n) == 0,
    decreases n,
{
    if n > 0 {
        law_unchanged_reload_changes_nothing(doc, n - 1);
    }
}

// ---------------------------------------------------------------------------
// What each operation is for

/// Outside a deck's slides, every `##` heading starts a section, and so
/// does every `#` heading once the title is set: closing it appends exactly
/// one section, named by the trimmed heading text, with no prose yet; the
/// title, the intro and the earlier sections are kept.
pub proof fn law_headings_start_sections(st: ReadState)
    requires
        st.heading matches Some(h) && (h.0 == 2 || (h.0 == 1 && st.title is Some)),
    ensures
        close_heading(st, false).sections == st.sections.push(
            (trim(st.heading->Some_0.1), Seq::<char>::empty()),
        ),
        close_heading(st, false).title == st.title,
        close_heading(st, false).intro == st.intro,
        close_heading(st, false).heading is None,
{
}

/// Headings below `##` never start a section outside slides: closing one
/// keeps the number of sections and adds its text as a line of prose.
pub proof fn law_deeper_headings_are_prose(st: ReadState)
    requires
        st.heading matches Some(h) && h.0 > 2,
    ensures
        close_heading(st, false).sections.len() == st.sections.len(),
        st.sections.len() == 0 ==> close_heading(st, false).intro == st.intro + trim(
            st.heading->Some_0.1,
        ) + seq!['\n'],
{
}

/// A cached recipe's colours arrive in its section's region as they are:
/// the signature colour is the recipe's accent and the ground tint is the
/// recipe's ground; without a recipe neither is set.
pub proof fn law_recipe_colours_arrive(
    doc: DocView,
    store: Map<Seq<char>, RegionRecipe>,
    deck: bool,
    i: int,
)
    requires
        0 <= i < doc.sections.len(),
    ensures
        store.contains_key(hex_of(doc.sections[i].hash)) ==> world_of(doc, store, deck).regions[i].accent
            == store[hex_of(doc.sections[i].hash)].accent && world_of(
            doc,
            store,
            deck,
        ).regions[i].ground == store[hex_of(doc.sections[i].hash)].ground,
        !store.contains_key(hex_of(doc.sections[i].hash)) ==> world_of(
            doc,
            store,
            deck,
        ).regions[i].accent is None && world_of(doc, store, deck).regions[i].ground is None,
{
}

/// Clamping keeps every discrete choice of a recipe: which fields are set,
/// the landmark kind and the prop kind; a prop count from 3 to 12 is kept,
/// a smaller one becomes 3 and a larger one 12.
pub proof fn law_clamping_keeps_choices(r: RegionRecipe)
    ensures
        clamped_recipe(r).accent is Some == r.accent is Some,
        clamped_recipe(r).ground is Some == r.ground is Some,
        clamped_recipe(r).landmark is Some == r.landmark is Some,
        clamped_recipe(r).props is Some == r.props is Some,
        r.landmark matches Some(l) ==> clamped_recipe(r).landmark->Some_0.kind == l.kind,
        r.props matches Some(p) ==> clamped_recipe(r).props->Some_0.kind == p.kind,
        r.props matches Some(p) ==> (3 <= p.count <= 12 ==> clamped_recipe(r).props->Some_0.count
            == p.count),
        r.props matches Some(p) ==> (p.count < 3 ==> clamped_recipe(r).props->Some_0.count == 3),
        r.props matches Some(p) ==> (p.count > 12 ==> clamped_recipe(r).props->Some_0.count == 12),
{
}

/// Every section whose key is neither cached, pending nor failed wants a
/// job, whatever its text (a heading with no prose too), and no other
/// section does.
pub proof fn law_uncached_sections_want_jobs(
    doc: DocView,
    cached: Map<Seq<char>, RegionRecipe>,
    failed: Set<Seq<char>>,
    pending: Set<Seq<char>>,
    i: int,
)
    requires
        0 <= i < doc.sections.len(),
    ensures
        job_wanted(doc, cached, failed, pending, i) <==> (!cached.contains_key(
            hex_of(doc.sections[i].hash),
        ) && !pending.contains(hex_of(doc.sections[i].hash)) && !failed.contains(
            hex_of(doc.sections[i].hash),
        )),
{
}

/// A reload counts a section as changed exactly when it is new or its hash
/// (of heading and body) moved: counting is monotone, adds one per changed
/// place, and two documents of the same length whose hashes differ at one
/// place only report one change.
pub proof fn law_reload_counts_hash_changes(old: DocView, new: DocView, n: int)
    requires
        0 <= n <= new.sections.len(),
    ensures
        n > 0 ==> changed_count(old, new, n) == changed_count(old, new, n - 1) + (if n - 1
            >= old.sections.len() || old.sections[n - 1].hash != new.sections[n - 1].hash {
            1int
        } else {
            0int
        }),
        changed_count(old, new, n) <= n,
    decreases n,
{
    if n > 0 {
        law_reload_counts_hash_changes(old, new, n - 1);
    }
}

/// Two documents of the same length whose section hashes differ at exactly
/// one place (a heading or a body edited there) report one changed section.
pub proof fn law_one_edit_is_one_change(old: DocView, new: DocView, j: int, n: int)
    requires
        old.sections.len() == new.sections.len(),
        0 <= j < new.sections.len(),
        old.sections[j].hash != new.sections[j].hash,
        forall|i: int| 0 <= i < new.sections.len() && i != j ==> old.sections[i].hash
            == new.sections[i].hash,
        0 <= n <= new.sections.len(),
    ensures
        changed_count(old, new, n) == (if j < n {
            1int
        } else {
            0int
        }),
    decreases n,
{
    if n > 0 {
        law_one_edit_is_one_change(old, new, j, n - 1);
        law_reload_counts_hash_changes(old, new, n);
    }
}

/// One key moves one stop: forward alone goes to the next stop unless at
/// the last, back alone to the previous unless at the first, and no key
/// keeps the stop (pulled back onto the tour if it fell off).
pub proof fn law_keys_move_one_stop(stop: nat, stops: nat)
    requires
        stops > 0,
    ensures
        stop + 1 < stops ==> next_stop(
            stop,
            stops,
            crate::tour::TourKeys { forward: true, back: false, first: false, last: false },
        ) == stop + 1,
        0 < stop < stops ==> next_stop(
            stop,
            stops,
            crate::tour::TourKeys { forward: false, back: true, first: false, last: false },
        ) == stop - 1,
        stop < stops ==> next_stop(
            stop,
            stops,
            crate::tour::TourKeys { forward: false, back: false, first: false, last: false },
        ) == stop,
        stop >= stops ==> next_stop(
            stop,
            stops,
            crate::tour::TourKeys { forward: false, back: false, first: false, last: false },
        ) == stops - 1,
{
}

/// A region's entities are numbered from `(index + 1) * 1000 + 1` in
/// order, one id each: ground, platform, landmark, the props, the lamp.
pub proof fn law_region_ids_are_consecutive(i: int, n: int, k: int)
    requires
        0 <= i,
        0 <= n,
        0 <= k < n + 4,
    ensures
        region_entities(i, n).len() == n + 4,
        region_entities(i, n)[k].id == ((i + 1) * 1000 + 1 + k) as u64,
{
}

/// Without a recipe a region has 3 to 11 props, numbered in ring order.
pub proof fn law_rule_prop_count_in_range(i: int, s: crate::doc::SectionView, k: int)
    ensures
        3 <= region_of(i, s, None).props.len() <= 11,
        0 <= k < region_of(i, s, None).props.len() ==> region_of(i, s, None).props[k].k == k,
{
}

/// Draining counts the recipes that arrived: one per outcome with a recipe,
/// none for a failure.
pub proof fn law_applied_counts_recipes(
    outcomes: Seq<Outcome>,
    pending: Set<Seq<char>>,
    failed: Set<Seq<char>>,
    cache: Map<Seq<char>, RegionRecipe>,
)
    ensures
        drained(outcomes, pending, failed, cache).3 <= outcomes.len(),
        (forall|i: int| 0 <= i < outcomes.len() ==> (#[trigger] outcomes[i]).recipe is Some)
            ==> drained(outcomes, pending, failed, cache).3 == outcomes.len(),
        (forall|i: int| 0 <= i < outcomes.len() ==> (#[trigger] outcomes[i]).recipe is None)
            ==> drained(outcomes, pending, failed, cache).3 == 0,
    decreases outcomes.len(),
{
    if outcomes.len() > 0 {
        let d = outcomes.drop_last();
        if forall|i: int| 0 <= i < outcomes.len() ==> (#[trigger] outcomes[i]).recipe is Some {
            assert forall|i: int| 0 <= i < d.len() implies (#[trigger] d[i]).recipe is Some by {
                assert(d[i] == outcomes[i]);
            }
            assert(outcomes[outcomes.len() - 1].recipe is Some);
        }
        if forall|i: int| 0 <= i < outcomes.len() ==> (#[trigger] outcomes[i]).recipe is None {
            assert forall|i: int| 0 <= i < d.len() implies (#[trigger] d[i]).recipe is None by {
                assert(d[i] == outcomes[i]);
            }
            assert(outcomes[outcomes.len() - 1].recipe is None);
        }
        law_applied_counts_recipes(d, pending, failed, cache);
    }
}

} // verus!
