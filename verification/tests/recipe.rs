use localgpt_md::recipe::{LandmarkKind, LandmarkSpec, PropKind, PropSpec, RegionRecipe, F32};

fn f(v: f32) -> F32 {
    F32 { bits: v.to_bits() }
}

fn value(bits: F32) -> f32 {
    f32::from_bits(bits.bits)
}

fn json(text: &str) -> serde_json::Value {
    let object = RegionRecipe::json_in_llm_text(text).expect("an object");
    serde_json::from_str(&object).expect("valid JSON")
}

#[test]
fn parses_plain_object() {
    let text = r#"{"accent":[0.2,0.4,0.9],"props":{"kind":"spheres","count":9}}"#;
    assert_eq!(RegionRecipe::json_in_llm_text(text).as_deref(), Some(text));
    let v = json(text);
    let accent: Vec<f32> = v["accent"]
        .as_array()
        .unwrap()
        .iter()
        .map(|c| c.as_f64().unwrap() as f32)
        .collect();
    assert_eq!(accent, [0.2, 0.4, 0.9]);
    assert_eq!(
        (v["props"]["kind"].as_str(), v["props"]["count"].as_u64()),
        (Some("spheres"), Some(9))
    );
    assert!(v.get("landmark").is_none());
}

#[test]
fn parses_through_prose_and_fences() {
    let reply = "Sure! Here is the JSON:\n```json\n{\"landmark\":{\"kind\":\"orb\",\"scale\":1.4,\"emissive\":0.2}}\n```\nEnjoy.";
    assert_eq!(
        RegionRecipe::json_in_llm_text(reply).as_deref(),
        Some("{\"landmark\":{\"kind\":\"orb\",\"scale\":1.4,\"emissive\":0.2}}")
    );
    let v = json(reply);
    assert_eq!(v["landmark"]["kind"], "orb");
    assert_eq!(v["landmark"]["scale"].as_f64().unwrap() as f32, 1.4);
    assert_eq!(v["landmark"]["emissive"].as_f64().unwrap() as f32, 0.2);
}

#[test]
fn missing_and_partial_fields_default() {
    let v = json("{\"landmark\":{\"scale\":2.0}}");
    assert_eq!(v["landmark"]["scale"].as_f64(), Some(2.0));
    assert!(v["landmark"].get("kind").is_none());
    // Fields a reply leaves out take the landmark defaults.
    assert_eq!(
        LandmarkSpec::default(),
        LandmarkSpec {
            kind: LandmarkKind::Pyramid,
            scale: f(1.0),
            emissive: f(0.6),
        }
    );
    assert_eq!(
        PropSpec::default(),
        PropSpec {
            kind: PropKind::Blocks,
            count: 6
        }
    );
}

#[test]
fn truncated_object_is_rejected() {
    assert!(RegionRecipe::json_in_llm_text("{\"accent\":[0.1,0.2").is_none());
    assert!(RegionRecipe::json_in_llm_text("no json here").is_none());
}

#[test]
fn braces_inside_strings_do_not_count() {
    let text = "x {\"a\":\"}{\\\"}\",\"b\":{}} tail }";
    assert_eq!(
        RegionRecipe::json_in_llm_text(text).as_deref(),
        Some("{\"a\":\"}{\\\"}\",\"b\":{}}")
    );
}

#[test]
fn clamped_bounds_everything() {
    let recipe = RegionRecipe {
        accent: Some([f(-3.0), f(0.5), f(9.0)]),
        ground: Some([f(f32::NAN), f(0.2), f(0.2)]),
        landmark: Some(LandmarkSpec {
            kind: LandmarkKind::Ring,
            scale: f(50.0),
            emissive: f(-1.0),
        }),
        props: Some(PropSpec {
            kind: PropKind::Crystals,
            count: 99,
        }),
    }
    .clamped();
    assert_eq!(recipe.accent.map(|c| c.map(value)), Some([0.0, 0.5, 1.0]));
    assert_eq!(recipe.ground.map(|c| c.map(value)), Some([0.5, 0.2, 0.2]));
    assert_eq!(
        recipe.landmark.map(|l| (value(l.scale), value(l.emissive))),
        Some((2.5, 0.0))
    );
    assert_eq!(recipe.props.map(|p| p.count), Some(12));
}

#[test]
fn clamping_keeps_values_in_range_and_fixes_infinities() {
    let recipe = RegionRecipe {
        accent: Some([f(f32::INFINITY), f(-0.0), f(0.25)]),
        ground: None,
        landmark: Some(LandmarkSpec {
            kind: LandmarkKind::Orb,
            scale: f(0.1),
            emissive: f(f32::NEG_INFINITY),
        }),
        props: Some(PropSpec {
            kind: PropKind::Blocks,
            count: 0,
        }),
    }
    .clamped();
    assert_eq!(recipe.accent.map(|c| c.map(value)), Some([0.5, -0.0, 0.25]));
    assert_eq!(
        recipe.landmark.map(|l| (value(l.scale), value(l.emissive))),
        Some((0.5, 0.5))
    );
    assert_eq!(recipe.props.map(|p| p.count), Some(3));
    assert_eq!(recipe.clamped(), recipe);
}

#[test]
fn is_empty_detects_the_default() {
    assert!(RegionRecipe::default().is_empty());
    assert!(!RegionRecipe {
        ground: Some([f(0.1); 3]),
        ..Default::default()
    }
    .is_empty());
}

#[test]
fn clamping_leaves_an_empty_recipe_empty() {
    assert_eq!(RegionRecipe::default().clamped(), RegionRecipe::default());
    assert!(RegionRecipe::default().clamped().is_empty());
}
