use localgpt_md::doc::Doc;
use localgpt_md::draft::{compile, compile_with, EntityPlan, EntityRole, PropShape, RegionPlan,
    WorldPlan};
use localgpt_md::recipe::{LandmarkKind, LandmarkSpec, PropKind, PropSpec, RegionRecipe, F32};
use localgpt_md::sidecar::RecipeStore;

const HELLO: &str = "# Hello, world

A small walk through four rooms.

## The porch

A wooden porch looks out over a gravel path. Moss grows between its
boards.

## The library

Tall shelves, dusty books, and one reading lamp that is always on.
Somewhere a clock ticks.

## The garden

Roses climb the walls. A fountain hums in the middle of the lawn, and
the paths are lined with lavender.

## The tower

A spiral stair winds up to a small room with a view of the whole valley.
";

const DECK: &str = "---
genre: deck
---

# Markdown, as a place

A talk you can walk through — LocalGPT MD in six slides.

---

## One file, one world

Open any Markdown file and each section becomes a place on a path.

- `##` headings become places
- save the file and the world rebuilds
- arrow keys walk the talk

---

## The draft renders instantly

A rule-based draft lays out the world the moment the file opens — no model,
no waiting. Every place is deterministic: same text, same world.

---

## Then a local model reads your slides

Behind the `llm` feature, an on-device model restyles each place from what
the prose actually says. Nothing leaves the machine.

```bash
cargo run --features llm-metal -- samples/deck.md --generate
```

---

## Nothing is generated twice

Each place is cached by its content hash in a sidecar next to the deck.
Edit one slide and only that slide regenerates.

- deck.md — the talk
- deck.world.json — the cache

---

## Thank you

github.com/localgpt-app/localgpt-md
";

fn f(v: f32) -> F32 {
    F32 { bits: v.to_bits() }
}

/// A region's plan and the entities whose names start with `prefix`.
fn region_of(world: &WorldPlan, index: usize, prefix: &str) -> (RegionPlan, Vec<EntityPlan>) {
    let entities = world
        .entities
        .iter()
        .filter(|e| e.name.starts_with(prefix))
        .cloned()
        .collect();
    (world.regions[index].clone(), entities)
}

fn stops(world: &WorldPlan) -> Vec<String> {
    world.regions.iter().map(|r| r.heading.clone()).collect()
}

#[test]
fn one_tour_stop_per_section_in_order() {
    let doc = Doc::parse(HELLO, "hello");
    let world = compile(&doc);
    let headings: Vec<_> = doc.sections.iter().map(|s| s.heading.clone()).collect();
    assert_eq!(stops(&world), headings);
    assert_eq!(world.regions[0].index, 0);
    assert_eq!(world.regions.len(), 4);
}

#[test]
fn deterministic() {
    let doc = Doc::parse(HELLO, "hello");
    assert_eq!(compile(&doc), compile(&doc));
}

#[test]
fn editing_one_section_leaves_other_regions_identical() {
    let before = compile(&Doc::parse(HELLO, "hello"));
    let edited = HELLO.replace("dusty", "dusty, cobwebbed");
    assert_ne!(edited, HELLO, "sample must mention 'dusty' in section 2");
    let after = compile(&Doc::parse(&edited, "hello"));
    assert_ne!(region_of(&before, 1, "s02-"), region_of(&after, 1, "s02-"));
    for (index, prefix) in [(0, "s01-"), (2, "s03-"), (3, "s04-")] {
        assert_eq!(region_of(&before, index, prefix), region_of(&after, index, prefix));
    }
}

#[test]
fn empty_document_still_compiles() {
    let world = compile(&Doc::parse("", "empty"));
    assert!(world.regions.is_empty());
    assert!(stops(&world).is_empty());
    assert_eq!(world.entities.len(), 2); // lead-in ground + sun
    assert_eq!(world.entities[0].name, "ground-lead-in");
    assert_eq!(world.entities[1].name, "sun");
    assert_eq!(world.next_entity_id, 3);
    assert_eq!(world.name, "empty");
}

#[test]
fn deck_lays_out_a_straight_presentation_path() {
    let doc = Doc::parse(DECK, "deck");
    assert!(doc.is_deck());
    let world = compile(&doc);
    assert!(world.deck);
    // One stop per slide, in deck order.
    let titles: Vec<_> = doc.sections.iter().map(|s| s.heading.clone()).collect();
    assert_eq!(stops(&world), titles);
    assert_eq!(titles.len(), 5);
    assert_eq!(titles[0], "One file, one world");
    assert_eq!(world.tags, ["localgpt-md", "deck"]);
}

#[test]
fn recipe_restyling_is_deterministic_and_local() {
    let doc = Doc::parse(HELLO, "hello");
    let mut store = RecipeStore::in_memory();
    store.insert(
        &doc.sections[0].hash,
        RegionRecipe {
            accent: Some([f(0.9), f(0.3), f(0.1)]),
            ground: Some([f(0.5), f(0.4), f(0.3)]),
            landmark: Some(LandmarkSpec {
                kind: LandmarkKind::Orb,
                scale: f(1.5),
                emissive: f(0.9),
            }),
            props: Some(PropSpec {
                kind: PropKind::Crystals,
                count: 10,
            }),
        },
    );
    let with = compile_with(&doc, &store);
    let without = compile(&doc);

    // The restyled region changed, and only it.
    assert_ne!(region_of(&with, 0, "s01-"), region_of(&without, 0, "s01-"));
    for (index, prefix) in [(1, "s02-"), (2, "s03-"), (3, "s04-")] {
        assert_eq!(region_of(&with, index, prefix), region_of(&without, index, prefix));
    }

    // The recipe's prop count and landmark kind actually arrived.
    let props = with
        .entities
        .iter()
        .filter(|e| e.name.starts_with("s01-prop-"))
        .count();
    assert_eq!(props, 10);
    assert_eq!(with.regions[0].landmark.kind, LandmarkKind::Orb);
    assert!(with.regions[0].props.iter().all(|p| p.shape == PropShape::Crystal));
    assert_eq!(with.source, "localgpt-md draft + llm recipe");
    assert_eq!(without.source, "localgpt-md draft");

    // Deterministic with the store.
    assert_eq!(compile_with(&doc, &store), with);
}

#[test]
fn region_entities_are_numbered_from_the_section_index() {
    let doc = Doc::parse(HELLO, "hello");
    let world = compile(&doc);
    let second: Vec<_> = world
        .entities
        .iter()
        .filter(|e| e.name.starts_with("s02-"))
        .collect();
    let n = world.regions[1].props.len();
    assert_eq!(second.len(), n + 4);
    assert_eq!(second[0].id, 2001);
    assert_eq!(second[0].name, "s02-ground");
    assert_eq!(second[1].name, "s02-platform");
    assert_eq!(second[2].name, "s02-landmark");
    assert_eq!(second[3].name, "s02-prop-01");
    assert_eq!(second[3].role, EntityRole::Prop { region: 1, k: 0 });
    assert_eq!(second[n + 3].name, "s02-lamp");
    assert_eq!(second[n + 3].id, 2004 + n as u64);
    let max = world.entities.iter().map(|e| e.id).max().unwrap();
    assert_eq!(world.next_entity_id, max + 1);
}

#[test]
fn rule_prop_count_and_landmark_follow_the_seed() {
    let doc = Doc::parse(HELLO, "hello");
    let world = compile(&doc);
    for (section, region) in doc.sections.iter().zip(world.regions.iter()) {
        let seed = section.seed();
        assert_eq!(region.seed, seed);
        assert_eq!(region.hue, seed % 360);
        let words = section.body.split_whitespace().count();
        assert_eq!(region.words, words);
        let expected = 3 + ((seed >> 24) % 5) as usize + (words / 30).min(4);
        assert_eq!(region.props.len(), expected);
        let kind = match (seed >> 16) % 6 {
            0 => LandmarkKind::Pyramid,
            1 => LandmarkKind::Cone,
            2 => LandmarkKind::Column,
            3 => LandmarkKind::Cube,
            4 => LandmarkKind::Orb,
            _ => LandmarkKind::Ring,
        };
        assert_eq!(region.landmark.kind, kind);
        assert_eq!(region.landmark.scale, f(1.0));
        assert_eq!(region.landmark.emissive, f(0.6));
        assert_eq!(region.prop_offset, (seed >> 32) % 360);
        for (k, p) in region.props.iter().enumerate() {
            let shape = if (seed >> k) & 1 != 0 { PropShape::Sphere } else { PropShape::Block };
            assert_eq!(p.shape, shape);
            assert_eq!(p.size_step, (seed >> (k % 8 * 4)) & 0xF);
        }
    }
}

#[test]
fn world_meta_comes_from_the_document() {
    let world = compile(&Doc::parse(HELLO, "hello"));
    assert_eq!(world.name, "Hello, world");
    assert_eq!(world.description.as_deref(), Some("A small walk through four rooms."));
    assert_eq!(world.tags, ["localgpt-md", "world"]);
    assert!(!world.deck);
}
