//! The rule-based draft: plan a [`Doc`] as a world instantly and
//! deterministically — one region per section along a path, and a tour with
//! one stop per section.
//!
//! The plan fixes every discrete choice of the world: entity ids and names,
//! each region's landmark kind, prop count and prop shapes, the colours and
//! scales a cached recipe overrides, the tour stops and the world's meta.
//! Entity ids are stable per section (`(index + 1) * 1000 + n`), so editing
//! one section leaves every other region identical. The application turns
//! the plan into a `WorldManifest`, computing the geometry (positions,
//! heights, angles, colours) from the plan's numbers.

use vstd::prelude::*;

use crate::doc::{genre_of, Doc, DocView, SectionView};
use crate::hash::le_u64;
use crate::recipe::{LandmarkKind, LandmarkSpec, PropKind, PropSpec, RegionRecipe, F32, ONE_BITS,
    SIX_TENTHS_BITS};
use crate::sidecar::{hex_of, RecipeStore};
use crate::text::{chars_of, decimal2, first_line, first_line_chars, push_all, push_decimal2,
    string_of, word_count, words};

verus! {

/// The most sections a plan takes: region ids stay within `u64`.
pub open spec fn max_sections() -> int {
    18_000_000_000_000_000
}

/// What an entity of the world is.
#[derive(Clone, Copy, Debug, PartialEq, Eq)]
pub enum EntityRole {
    /// Ground under the first viewpoint, before region 1's own strip.
    LeadInGround,
    /// The directional light.
    Sun,
    /// A region's strip of ground.
    Ground { region: usize },
    /// A region's platform.
    Platform { region: usize },
    /// A region's centrepiece.
    Landmark { region: usize },
    /// Prop `k` of the ring on a region's platform.
    Prop { region: usize, k: usize },
    /// A region's point light.
    Lamp { region: usize },
}

/// One entity: its id, its name and what it is.
#[derive(Clone, Debug, PartialEq, Eq)]
pub struct EntityPlan {
    pub id: u64,
    pub name: String,
    pub role: EntityRole,
}

/// An entity as values.
pub struct EntityView {
    pub id: u64,
    pub name: Seq<char>,
    pub role: EntityRole,
}

impl View for EntityPlan {
    type V = EntityView;

    open spec fn view(&self) -> EntityView {
        EntityView { id: self.id, name: self.name@, role: self.role }
    }
}

/// The shape of one prop.
#[derive(Clone, Copy, Debug, PartialEq, Eq)]
pub enum PropShape {
    Block,
    Sphere,
    Crystal,
}

/// One prop of a region's ring.
#[derive(Clone, Copy, Debug, PartialEq, Eq)]
pub struct PropPlan {
    /// Its place in the ring, from 0.
    pub k: usize,
    pub shape: PropShape,
    /// Size step, 0 to 15, taken from the section seed.
    pub size_step: u64,
}

/// A section's region.
#[derive(Clone, Debug, PartialEq, Eq)]
pub struct RegionPlan {
    /// The section's position in the document, from 0.
    pub index: usize,
    /// The section heading: the tour stop's caption.
    pub heading: String,
    /// The section seed.
    pub seed: u64,
    /// How many words the section's prose has (landmark height, prop count).
    pub words: usize,
    /// Hue in degrees, 0 to 359.
    pub hue: u64,
    /// The recipe's signature colour, if any.
    pub accent: Option<[F32; 3]>,
    /// The recipe's ground tint, if any.
    pub ground: Option<[F32; 3]>,
    pub landmark: LandmarkSpec,
    pub props: Vec<PropPlan>,
    /// Angle in degrees of the first prop, 0 to 359.
    pub prop_offset: u64,
}

/// A region as values.
pub struct RegionView {
    pub index: usize,
    pub heading: Seq<char>,
    pub seed: u64,
    pub words: usize,
    pub hue: u64,
    pub accent: Option<[F32; 3]>,
    pub ground: Option<[F32; 3]>,
    pub landmark: LandmarkSpec,
    pub props: Seq<PropPlan>,
    pub prop_offset: u64,
}

impl View for RegionPlan {
    type V = RegionView;

    open spec fn view(&self) -> RegionView {
        RegionView {
            index: self.index,
            heading: self.heading@,
            seed: self.seed,
            words: self.words,
            hue: self.hue,
            accent: self.accent,
            ground: self.ground,
            landmark: self.landmark,
            props: self.props@,
            prop_offset: self.prop_offset,
        }
    }
}

/// The whole world.
#[derive(Clone, Debug, PartialEq, Eq)]
pub struct WorldPlan {
    /// The world's name: the document title.
    pub name: String,
    /// The first line of the intro, if any.
    pub description: Option<String>,
    /// `localgpt-md` and the genre.
    pub tags: Vec<String>,
    /// `localgpt-md draft`, with `+ llm recipe` when any recipe applied.
    pub source: String,
    /// Slides on a straight path (`genre: deck`) rather than a winding one.
    pub deck: bool,
    pub regions: Vec<RegionPlan>,
    /// Every entity, in the order the world lists them.
    pub entities: Vec<EntityPlan>,
    /// One more than the largest entity id.
    pub next_entity_id: u64,
}

/// The world as values.
pub struct WorldView {
    pub name: Seq<char>,
    pub description: Option<Seq<char>>,
    pub tags: Seq<Seq<char>>,
    pub source: Seq<char>,
    pub deck: bool,
    pub regions: Seq<RegionView>,
    pub entities: Seq<EntityView>,
    pub next_entity_id: u64,
}

impl View for WorldPlan {
    type V = WorldView;

    open spec fn view(&self) -> WorldView {
        WorldView {
            name: self.name@,
            description: match self.description {
                Some(d) => Some(d@),
                None => None,
            },
            tags: self.tags@.map_values(|t: String| t@),
            source: self.source@,
            deck: self.deck,
            regions: self.regions@.map_values(|r: RegionPlan| r@),
            entities: self.entities@.map_values(|e: EntityPlan| e@),
            next_entity_id: self.next_entity_id,
        }
    }
}

impl WorldPlan {
    /// The tour stops, in order: one per region, captioned by its heading.
    /// No regions, no tour.
    pub open spec fn stops(self) -> Seq<Seq<char>> {
        self@.regions.map_values(|r: RegionView| r.heading)
    }
}

// ---------------------------------------------------------------------------
// The rules

/// The landmark kind a number from 0 to 5 picks.
pub open spec fn landmark_kind_of(n: u64) -> LandmarkKind {
    if n == 0 {
        LandmarkKind::Pyramid
    } else if n == 1 {
        LandmarkKind::Cone
    } else if n == 2 {
        LandmarkKind::Column
    } else if n == 3 {
        LandmarkKind::Cube
    } else if n == 4 {
        LandmarkKind::Orb
    } else {
        LandmarkKind::Ring
    }
}

/// The landmark a section gets without a recipe: its kind from the seed,
/// unit scale, glow 0.6.
pub open spec fn rule_landmark(seed: u64) -> LandmarkSpec {
    LandmarkSpec {
        kind: landmark_kind_of((seed >> 16u64) % 6),
        scale: F32 { bits: ONE_BITS },
        emissive: F32 { bits: SIX_TENTHS_BITS },
    }
}

/// How many props a section gets without a recipe: three, plus up to four
/// from the seed, plus one per thirty words up to four.
pub open spec fn rule_prop_count(seed: u64, words: int) -> int {
    3 + ((seed >> 24u64) % 5) + if words / 30 < 4 {
        words / 30
    } else {
        4
    }
}

/// The shape of prop `k`: the recipe's kind (blocks for `Blocks`), or,
/// without one, a sphere or a block by the seed's bit `k`.
pub open spec fn prop_shape(seed: u64, k: int, spec: Option<PropSpec>) -> PropShape {
    match spec {
        Some(p) => match p.kind {
            PropKind::Spheres => PropShape::Sphere,
            PropKind::Crystals => PropShape::Crystal,
            PropKind::Blocks => PropShape::Block,
        },
        None => if (seed >> (k as u64)) & 1u64 != 0 {
            PropShape::Sphere
        } else {
            PropShape::Block
        },
    }
}

/// The size step of prop `k`: four bits of the seed.
pub open spec fn size_step(seed: u64, k: int) -> u64 {
    (seed >> (((k % 8) * 4) as u64)) & 0xFu64
}

/// The recipe cached for a section, if any.
pub open spec fn recipe_for(store: Map<Seq<char>, RegionRecipe>, s: SectionView) -> Option<
    RegionRecipe,
> {
    if store.contains_key(hex_of(s.hash)) {
        Some(store[hex_of(s.hash)])
    } else {
        None
    }
}

/// The region of section `index`: everything a recipe leaves unset is
/// derived from the section's seed and word count.
pub open spec fn region_of(index: int, s: SectionView, recipe: Option<RegionRecipe>) -> RegionView {
    let seed = le_u64(s.hash) as u64;
    let words = words(s.body).len() as int;
    let props_spec: Option<PropSpec> = match recipe {
        Some(r) => r.props,
        None => None,
    };
    let count = match props_spec {
        Some(p) => p.count as int,
        None => rule_prop_count(seed, words),
    };
    RegionView {
        index: index as usize,
        heading: s.heading,
        seed,
        words: words as usize,
        hue: seed % 360,
        accent: match recipe {
            Some(r) => r.accent,
            None => None,
        },
        ground: match recipe {
            Some(r) => r.ground,
            None => None,
        },
        landmark: match recipe {
            Some(r) => match r.landmark {
                Some(l) => l,
                None => rule_landmark(seed),
            },
            None => rule_landmark(seed),
        },
        props: Seq::new(
            count as nat,
            |k: int|
                PropPlan {
                    k: k as usize,
                    shape: prop_shape(seed, k, props_spec),
                    size_step: size_step(seed, k),
                },
        ),
        prop_offset: (seed >> 32u64) % 360,
    }
}

/// The name prefix of region `index`: `s01` for the first.
pub open spec fn region_prefix(index: int) -> Seq<char> {
    seq!['s'] + decimal2((index + 1) as nat)
}

/// An entity as values.
pub open spec fn entity(id: int, name: Seq<char>, role: EntityRole) -> EntityView {
    EntityView { id: id as u64, name, role }
}

/// The entities of region `index` with `n` props, in order: ground,
/// platform, landmark, the props, the lamp; ids from `(index + 1) * 1000 + 1`.
pub open spec fn region_entities(index: int, n: int) -> Seq<EntityView> {
    let base = (index + 1) * 1000;
    let p = region_prefix(index);
    let r = index as usize;
    seq![
        entity(base + 1, p + "-ground"@, EntityRole::Ground { region: r }),
        entity(base + 2, p + "-platform"@, EntityRole::Platform { region: r }),
        entity(base + 3, p + "-landmark"@, EntityRole::Landmark { region: r }),
    ] + Seq::new(
        n as nat,
        |k: int|
            entity(
                base + 4 + k,
                p + "-prop-"@ + decimal2((k + 1) as nat),
                EntityRole::Prop { region: r, k: k as usize },
            ),
    ) + seq![entity(base + 4 + n, p + "-lamp"@, EntityRole::Lamp { region: r })]
}

/// The two entities every world starts with.
pub open spec fn base_entities() -> Seq<EntityView> {
    seq![
        entity(1, "ground-lead-in"@, EntityRole::LeadInGround),
        entity(2, "sun"@, EntityRole::Sun),
    ]
}

/// The regions of a document with the recipes of `store`.
pub open spec fn regions_of(doc: DocView, store: Map<Seq<char>, RegionRecipe>) -> Seq<RegionView> {
    Seq::new(
        doc.sections.len(),
        |i: int| region_of(i, doc.sections[i], recipe_for(store, doc.sections[i])),
    )
}

/// All entities of a world with these regions.
pub open spec fn entities_of(regions: Seq<RegionView>) -> Seq<EntityView> {
    base_entities() + Seq::new(
        regions.len(),
        |i: int| region_entities(i, regions[i].props.len() as int),
    ).flatten()
}

/// The largest id among `es` (0 for none).
pub open spec fn max_id(es: Seq<EntityView>) -> u64
    decreases es.len(),
{
    if es.len() == 0 {
        0
    } else {
        let m = max_id(es.drop_last());
        if es.last().id > m {
            es.last().id
        } else {
            m
        }
    }
}

/// Some section of the document has a cached recipe.
pub open spec fn any_recipe(doc: DocView, store: Map<Seq<char>, RegionRecipe>) -> bool {
    exists|i: int| 0 <= i < doc.sections.len() && recipe_for(store, doc.sections[i]) is Some
}

/// The world a document plans as, with the recipes of `store`.
pub open spec fn world_of(doc: DocView, store: Map<Seq<char>, RegionRecipe>, deck: bool) -> WorldView {
    let regions = regions_of(doc, store);
    let entities = entities_of(regions);
    WorldView {
        name: doc.title,
        description: first_line(doc.intro),
        tags: seq!["localgpt-md"@, genre_of(doc.front_matter)],
        source: if any_recipe(doc, store) {
            "localgpt-md draft + llm recipe"@
        } else {
            "localgpt-md draft"@
        },
        deck,
        regions,
        entities,
        next_entity_id: (max_id(entities) + 1) as u64,
    }
}


// ---------------------------------------------------------------------------
// Planning

/// `prefix` followed by `suffix`, as a string.
fn name_with(prefix: &Vec<char>, suffix: &str) -> (s: String)
    ensures
        s@ == prefix@ + suffix@,
{
    let mut v = prefix.clone();
    let tail = chars_of(suffix);
    push_all(&mut v, &tail);
    string_of(&v)
}

/// The rule-derived landmark for a seed.
fn rule_landmark_exec(seed: u64) -> (l: LandmarkSpec)
    ensures
        l == rule_landmark(seed),
{
    let n = (seed >> 16u64) % 6;
    let kind = if n == 0 {
        LandmarkKind::Pyramid
    } else if n == 1 {
        LandmarkKind::Cone
    } else if n == 2 {
        LandmarkKind::Column
    } else if n == 3 {
        LandmarkKind::Cube
    } else if n == 4 {
        LandmarkKind::Orb
    } else {
        LandmarkKind::Ring
    };
    LandmarkSpec {
        kind,
        scale: F32 { bits: ONE_BITS },
        emissive: F32 { bits: SIX_TENTHS_BITS },
    }
}

/// Copy a recipe out of an optional reference.
pub open spec fn copied(r: Option<&RegionRecipe>) -> Option<RegionRecipe> {
    match r {
        Some(x) => Some(*x),
        None => None,
    }
}

/// A section's region and its entities.
pub fn region(index: usize, section: &crate::doc::Section, recipe: Option<&RegionRecipe>) -> (r: (
    RegionPlan,
    Vec<EntityPlan>,
))
    requires
        index < max_sections(),
    ensures
        r.0@ == region_of(index as int, section@, copied(recipe)),
        r.1@.map_values(|e: EntityPlan| e@) == region_entities(index as int, r.0@.props.len() as int),
{
    let seed = section.seed();
    let body = chars_of(section.body.as_str());
    let words = word_count(&body);
    let props_spec: Option<PropSpec> = match recipe {
        Some(rc) => rc.props,
        None => None,
    };
    let count: usize = match props_spec {
        Some(p) => p.count as usize,
        None => {
            let extra = if words / 30 < 4 {
                words / 30
            } else {
                4
            };
            3 + ((seed >> 24u64) % 5) as usize + extra
        },
    };
    let ghost want = region_of(index as int, section@, copied(recipe));
    assert(count == want.props.len());
    let mut props: Vec<PropPlan> = Vec::new();
    let mut k: usize = 0;
    while k < count
        invariant
            k <= count,
            count == want.props.len(),
            props_spec is None ==> count <= 11,
            want == region_of(index as int, section@, copied(recipe)),
            seed == want.seed,
            props_spec == (match copied(recipe) {
                Some(r) => r.props,
                None => None,
            }),
            props@ =~= want.props.take(k as int),
        decreases count - k,
    {
        let shape = match props_spec {
            Some(p) => match p.kind {
                PropKind::Spheres => PropShape::Sphere,
                PropKind::Crystals => PropShape::Crystal,
                PropKind::Blocks => PropShape::Block,
            },
            None => {
                if (seed >> (k as u64)) & 1u64 != 0 {
                    PropShape::Sphere
                } else {
                    PropShape::Block
                }
            },
        };
        let step = (seed >> (((k % 8) * 4) as u64)) & 0xFu64;
        props.push(PropPlan { k, shape, size_step: step });
        proof {
            assert(want.props[k as int] == (PropPlan { k, shape, size_step: step }));
            assert(props@ =~= want.props.take(k + 1));
        }
        k = k + 1;
    }
    proof {
        assert(want.props.take(count as int) =~= want.props);
    }
    let landmark = match recipe {
        Some(rc) => match rc.landmark {
            Some(l) => l,
            None => rule_landmark_exec(seed),
        },
        None => rule_landmark_exec(seed),
    };
    let plan = RegionPlan {
        index,
        heading: section.heading.clone(),
        seed,
        words,
        hue: seed % 360,
        accent: match recipe {
            Some(rc) => rc.accent,
            None => None,
        },
        ground: match recipe {
            Some(rc) => rc.ground,
            None => None,
        },
        landmark,
        props,
        prop_offset: (seed >> 32u64) % 360,
    };

    // The entities, with ids from (index + 1) * 1000 + 1.
    let base: u64 = (index as u64 + 1) * 1000;
    let mut prefix: Vec<char> = Vec::new();
    prefix.push('s');
    push_decimal2(&mut prefix, index as u64 + 1);
    proof {
        assert(prefix@ =~= region_prefix(index as int));
    }
    let ghost want_ents = region_entities(index as int, count as int);
    let mut ents: Vec<EntityPlan> = Vec::new();
    ents.push(EntityPlan { id: base + 1, name: name_with(&prefix, "-ground"), role: EntityRole::Ground { region: index } });
    ents.push(EntityPlan { id: base + 2, name: name_with(&prefix, "-platform"), role: EntityRole::Platform { region: index } });
    ents.push(EntityPlan { id: base + 3, name: name_with(&prefix, "-landmark"), role: EntityRole::Landmark { region: index } });
    proof {
        assert(ents@.map_values(|e: EntityPlan| e@) =~= want_ents.take(3));
    }
    let mut k: usize = 0;
    while k < count
        invariant
            k <= count,
            count <= u32::MAX,
            base == (index + 1) * 1000,
            index < max_sections(),
            prefix@ == region_prefix(index as int),
            want_ents == region_entities(index as int, count as int),
            ents@.map_values(|e: EntityPlan| e@) =~= want_ents.take(3 + k),
        decreases count - k,
    {
        let mut name = prefix.clone();
        let tail = chars_of("-prop-");
        push_all(&mut name, &tail);
        push_decimal2(&mut name, k as u64 + 1);
        let e = EntityPlan {
            id: base + 4 + k as u64,
            name: string_of(&name),
            role: EntityRole::Prop { region: index, k },
        };
        let ghost before = ents@;
        ents.push(e);
        proof {
            assert(name@ =~= region_prefix(index as int) + "-prop-"@ + decimal2((k + 1) as nat));
            assert(want_ents.len() == 4 + count);
            assert(want_ents[3 + k] == e@);
            assert(ents@.map_values(|e: EntityPlan| e@) =~= before.map_values(|e: EntityPlan| e@).push(e@));
            assert(want_ents.take(3 + k + 1) =~= want_ents.take(3 + k).push(want_ents[3 + k]));
        }
        k = k + 1;
    }
    let lamp = EntityPlan {
        id: base + 4 + count as u64,
        name: name_with(&prefix, "-lamp"),
        role: EntityRole::Lamp { region: index },
    };
    let ghost before = ents@;
    ents.push(lamp);
    proof {
        assert(want_ents.len() == 4 + count);
        assert(want_ents[3 + count] == lamp@);
        assert(ents@.map_values(|e: EntityPlan| e@) =~= before.map_values(|e: EntityPlan| e@).push(lamp@));
        assert(want_ents =~= want_ents.take(3 + count).push(want_ents[3 + count]));
        assert(ents@.map_values(|e: EntityPlan| e@) =~= want_ents);
        assert(plan@ =~= want);
    }
    (plan, ents)
}


/// The ids of region `index`'s entities stay below this bound.
pub open spec fn id_bound(index: int) -> int {
    (index + 1) * 1000 + 4 + 0xFFFF_FFFF
}

proof fn lemma_max_id_bound(es: Seq<EntityView>, bound: int)
    requires
        forall|j: int| 0 <= j < es.len() ==> #[trigger] es[j].id <= bound,
        0 <= bound,
    ensures
        max_id(es) <= bound,
    decreases es.len(),
{
    if es.len() > 0 {
        assert forall|j: int| 0 <= j < es.drop_last().len() implies #[trigger] es.drop_last()[j].id
            <= bound by {
            assert(es.drop_last()[j] == es[j]);
        }
        lemma_max_id_bound(es.drop_last(), bound);
    }
}

/// Plan the world of a document, with the recipes of `store` applied on
/// top of the draft: a section whose hash has a cached recipe is restyled
/// by it; every other section — and every field a recipe leaves unset —
/// keeps the rule-derived value.
pub fn compile_with(doc: &Doc, store: &RecipeStore) -> (w: WorldPlan)
    requires
        doc.front_matter.wf(),
        store.wf(),
        doc@.sections.len() <= max_sections(),
    ensures
        w@ == world_of(doc@, store@, genre_of(doc@.front_matter) == "deck"@),
{
    let deck = doc.is_deck();
    let ghost want_regions = regions_of(doc@, store@);
    let mut entities: Vec<EntityPlan> = Vec::new();
    entities.push(EntityPlan { id: 1, name: string_of(&chars_of("ground-lead-in")), role: EntityRole::LeadInGround });
    entities.push(EntityPlan { id: 2, name: string_of(&chars_of("sun")), role: EntityRole::Sun });
    let ghost region_ents = |regions: Seq<RegionView>, i: int| region_entities(i, regions[i].props.len() as int);
    proof {
        assert(entities@.map_values(|e: EntityPlan| e@) =~= base_entities());
        assert(Seq::new(0, |i: int| region_ents(want_regions, i)).flatten() =~= Seq::<EntityView>::empty());
    }
    let mut regions: Vec<RegionPlan> = Vec::new();
    let mut llm_styled = false;
    let mut i: usize = 0;
    while i < doc.sections.len()
        invariant
            i <= doc.sections@.len() <= max_sections(),
            store.wf(),
            want_regions == regions_of(doc@, store@),
            regions@.map_values(|r: RegionPlan| r@) =~= want_regions.take(i as int),
            entities@.map_values(|e: EntityPlan| e@) =~= base_entities() + Seq::new(
                i as nat,
                |j: int| region_entities(j, want_regions[j].props.len() as int),
            ).flatten(),
            forall|j: int| 0 <= j < entities@.len() ==> #[trigger] entities@[j].id <= id_bound(
                i as int,
            ),
            llm_styled == exists|j: int|
                0 <= j < i && recipe_for(store@, doc@.sections[j]) is Some,
        decreases doc.sections.len() - i,
    {
        let section = &doc.sections[i];
        let recipe = store.get(&section.hash);
        proof {
            assert(doc@.sections[i as int] == section@);
            assert(copied(recipe) == recipe_for(store@, section@));
        }
        llm_styled = llm_styled || recipe.is_some();
        let (plan, ents) = region(i, section, recipe);
        let ghost f = |j: int| region_entities(j, want_regions[j].props.len() as int);
        proof {
            assert(want_regions[i as int] == plan@);
            assert(ents@.map_values(|e: EntityPlan| e@) == f(i as int));
            let a = Seq::new(i as nat, f);
            let b = Seq::new((i + 1) as nat, f);
            assert(b =~= a.push(f(i as int)));
            a.lemma_flatten_push(f(i as int));
        }
        let ghost old_ents = entities@;
        let ghost old_regions = regions@;
        regions.push(plan);
        let mut m: usize = 0;
        while m < ents.len()
            invariant
                m <= ents@.len(),
                entities@ =~= old_ents + ents@.take(m as int),
            decreases ents.len() - m,
        {
            entities.push(EntityPlan { id: ents[m].id, name: ents[m].name.clone(), role: ents[m].role });
            proof {
                assert(ents@.take(m + 1) =~= ents@.take(m as int).push(ents@[m as int]));
            }
            m = m + 1;
        }
        proof {
            assert(ents@.take(ents@.len() as int) =~= ents@);
            assert(entities@.map_values(|e: EntityPlan| e@) =~= old_ents.map_values(|e: EntityPlan| e@) + ents@.map_values(|e: EntityPlan| e@));
            assert(regions@.map_values(|r: RegionPlan| r@) =~= old_regions.map_values(|r: RegionPlan| r@).push(plan@));
            assert(want_regions.take(i + 1) =~= want_regions.take(i as int).push(want_regions[i as int]));
            assert forall|j: int| 0 <= j < entities@.len() implies #[trigger] entities@[j].id <= id_bound(i + 1) by {
                if j >= old_ents.len() {
                    let q = j - old_ents.len();
                    assert(entities@[j]@ == f(i as int)[q]);
                }
            }
            if recipe.is_some() {
                assert(recipe_for(store@, doc@.sections[i as int]) is Some);
            }
        }
        i = i + 1;
    }
    proof {
        assert(want_regions.take(i as int) =~= want_regions);
    }
    let ghost all = entities@.map_values(|e: EntityPlan| e@);
    let mut max: u64 = 0;
    let mut j: usize = 0;
    proof {
        assert(all.take(0) =~= Seq::<EntityView>::empty());
    }
    while j < entities.len()
        invariant
            j <= entities@.len(),
            all == entities@.map_values(|e: EntityPlan| e@),
            max == max_id(all.take(j as int)),
        decreases entities.len() - j,
    {
        if entities[j].id > max {
            max = entities[j].id;
        }
        proof {
            assert(all.take(j + 1).drop_last() =~= all.take(j as int));
        }
        j = j + 1;
    }
    proof {
        assert(all.take(all.len() as int) =~= all);
        lemma_max_id_bound(all, id_bound(doc@.sections.len() as int));
    }
    let intro = chars_of(doc.intro.as_str());
    let description = match first_line_chars(&intro) {
        Some(l) => Some(string_of(&l)),
        None => None,
    };
    let mut tags: Vec<String> = Vec::new();
    tags.push("localgpt-md".to_owned());
    tags.push(doc.genre().to_owned());
    let source = if llm_styled {
        "localgpt-md draft + llm recipe".to_owned()
    } else {
        "localgpt-md draft".to_owned()
    };
    let w = WorldPlan {
        name: doc.title.clone(),
        description,
        tags,
        source,
        deck,
        regions,
        entities,
        next_entity_id: max + 1,
    };
    proof {
        assert(w@.tags =~= seq!["localgpt-md"@, genre_of(doc@.front_matter)]);
    }
    w
}

/// Plan the pure rule-based draft of a document, with no recipes.
pub fn compile(doc: &Doc) -> (w: WorldPlan)
    requires
        doc.front_matter.wf(),
        doc@.sections.len() <= max_sections(),
    ensures
        w@ == world_of(
            doc@,
            Map::<Seq<char>, RegionRecipe>::empty(),
            genre_of(doc@.front_matter) == "deck"@,
        ),
{
    let store = RecipeStore::in_memory();
    compile_with(doc, &store)
}

} // verus!
