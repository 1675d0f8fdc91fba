use localgpt_md::doc::Doc;
use localgpt_md::hash::{hash_text, SectionHash};
use localgpt_md::recipe::{PropKind, PropSpec, RegionRecipe, F32};
use localgpt_md::sidecar::{key, RecipeStore, SIDECAR_VERSION};

const HELLO: &str = "# Hello\n\n## One\n\nFirst place.\n\n## Two\n\nSecond place.\n";

fn f(v: f32) -> F32 {
    F32 { bits: v.to_bits() }
}

fn hello_doc() -> Doc {
    Doc::parse(HELLO, "hello")
}

#[test]
fn key_is_the_hex_digest() {
    let h = SectionHash { bytes: *blake3::hash(b"One\nFirst place.").as_bytes() };
    assert_eq!(key(&h), blake3::hash(b"One\nFirst place.").to_hex().as_str());
    assert_eq!(key(&h).len(), 64);
    let zero = SectionHash { bytes: [0u8; 32] };
    assert_eq!(key(&zero), "0".repeat(64));
    let mut bytes = [0u8; 32];
    bytes[0] = 0xAB;
    bytes[31] = 0x0F;
    let k = key(&SectionHash { bytes });
    assert!(k.starts_with("ab00"));
    assert!(k.ends_with("0f"));
}

#[test]
fn round_trip_through_the_file() {
    let doc = hello_doc();
    let mut store = RecipeStore::with_path("roundtrip.world.json".to_string());
    store.insert(
        &doc.sections[0].hash,
        RegionRecipe {
            accent: Some([f(0.1), f(0.2), f(0.3)]),
            ..Default::default()
        },
    );
    let entries = store.sidecar_entries(&doc).expect("a file-backed store");
    let reloaded =
        RecipeStore::from_sidecar("roundtrip.world.json".to_string(), SIDECAR_VERSION, entries);
    assert_eq!(
        reloaded.get(&doc.sections[0].hash).unwrap().accent,
        Some([f(0.1), f(0.2), f(0.3)])
    );
    assert!(reloaded.get(&doc.sections[1].hash).is_none());
    assert_eq!(reloaded.path(), "roundtrip.world.json");
}

#[test]
fn save_prunes_sections_no_longer_in_the_doc() {
    let doc = hello_doc();
    let mut store = RecipeStore::with_path("prune.world.json".to_string());
    for section in &doc.sections {
        store.insert(&section.hash, RegionRecipe::default());
    }
    // A hash for a section that no longer exists.
    store.insert(&hash_text("gone"), RegionRecipe::default());
    assert_eq!(store.len(), doc.sections.len() + 1);
    let entries = store.sidecar_entries(&doc).unwrap();
    assert_eq!(entries.len(), doc.sections.len());
    let reloaded = RecipeStore::from_sidecar("prune.world.json".to_string(), 1, entries);
    assert_eq!(reloaded.len(), doc.sections.len());
    assert!(reloaded.get(&hash_text("gone")).is_none());
}

#[test]
fn in_memory_store_has_no_file() {
    let doc = hello_doc();
    let mut store = RecipeStore::in_memory();
    store.insert(&doc.sections[0].hash, RegionRecipe::default());
    assert!(store.sidecar_entries(&doc).is_none());
    assert_eq!(store.path(), "");
}

#[test]
fn future_version_is_rejected_not_guessed() {
    let entries = vec![(
        "00".to_string(),
        RegionRecipe {
            accent: Some([f(1.0), f(1.0), f(1.0)]),
            ..Default::default()
        },
    )];
    let store = RecipeStore::from_sidecar("version.world.json".to_string(), 99, entries);
    assert!(store.is_empty());
}

#[test]
fn load_clamps_hand_edited_values() {
    let doc = hello_doc();
    let k = key(&doc.sections[0].hash);
    let entries = vec![(
        k,
        RegionRecipe {
            props: Some(PropSpec {
                kind: PropKind::Blocks,
                count: 9999,
            }),
            ..Default::default()
        },
    )];
    let store = RecipeStore::from_sidecar("hand.world.json".to_string(), 1, entries);
    assert_eq!(
        store.get(&doc.sections[0].hash).unwrap().props.map(|p| p.count),
        Some(12)
    );
}

#[test]
fn insert_replaces_and_get_finds() {
    let doc = hello_doc();
    let mut store = RecipeStore::in_memory();
    assert!(store.is_empty());
    let h = doc.sections[1].hash;
    store.insert(&h, RegionRecipe { ground: Some([f(0.2), f(0.2), f(0.2)]), ..Default::default() });
    store.insert(&h, RegionRecipe { ground: Some([f(2.0), f(-1.0), f(0.5)]), ..Default::default() });
    assert_eq!(store.len(), 1);
    assert_eq!(store.get(&h).unwrap().ground, Some([f(1.0), f(0.0), f(0.5)]));
    assert_eq!(store.get_key(&key(&h)).unwrap().ground, Some([f(1.0), f(0.0), f(0.5)]));
    assert!(store.get(&doc.sections[0].hash).is_none());
}
