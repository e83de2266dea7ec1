use nexfilm_engine::app_state::{
    effective_pipeline_state, BaseColor, DensityAnchors, PipelineState, ProcessingContract,
};
use nexfilm_engine::batch_settings::{
    copies_film_base, copy_json, copy_targets, film_area, geometry_copy, mark_inherited_film_base,
    merge_json, target_keeps_its_own_base, validate_modules, GeometryCopy, ImageKey, JsonValue,
    FILM_AREA_MODULE, FILM_BASE_MODULE, GEOMETRY_MODULE,
};
use nexfilm_engine::persistence::{
    math_version_for_contract, migrate_legacy_thumbnail, needs_density_migration,
    LEGACY_MATH_VERSION, MATH_VERSION,
};
use nexfilm_engine::pipeline::{base_is_frame_measurement, frame_base, INHERITED_FILM_BASE_SOURCE};
use nexfilm_engine::raw_backend::{bayer_raw_channel, bayer_rgb_channel};

fn key(roll: &str, file: &str) -> ImageKey {
    ImageKey { roll_id: roll.to_string(), file_path: file.to_string() }
}

fn modules(names: &[&str]) -> Vec<String> {
    names.iter().map(|name| name.to_string()).collect()
}

#[test]
fn module_selection_is_validated() {
    assert_eq!(
        validate_modules(&Vec::new()),
        Err("At least one settings module is required".to_string())
    );
    assert_eq!(
        validate_modules(&modules(&["geometry", "tone", "colour"])),
        Err("Unsupported settings module: tone".to_string())
    );
    assert_eq!(validate_modules(&modules(&[GEOMETRY_MODULE, FILM_AREA_MODULE, FILM_BASE_MODULE])), Ok(()));
}

#[test]
fn copy_targets_skip_the_source_and_repeats() {
    let source = key("roll", "a.raw");
    let targets = vec![
        key("roll", "b.raw"),
        key("roll", "a.raw"),
        key("roll", "c.raw"),
        key("roll", "b.raw"),
        key("other", "b.raw"),
    ];
    let result = copy_targets(&source, &targets);
    let names: Vec<(String, String)> =
        result.iter().map(|k| (k.roll_id.clone(), k.file_path.clone())).collect();
    assert_eq!(
        names,
        vec![
            ("roll".to_string(), "b.raw".to_string()),
            ("roll".to_string(), "c.raw".to_string()),
            ("other".to_string(), "b.raw".to_string()),
        ]
    );
    assert!(copy_targets(&source, &vec![key("roll", "a.raw")]).is_empty());
}

#[test]
fn geometry_selection_prefers_the_whole_geometry() {
    assert_eq!(geometry_copy(&modules(&["film_area", "geometry"])), GeometryCopy::Whole);
    assert_eq!(geometry_copy(&modules(&["base_color", "film_area"])), GeometryCopy::FilmArea);
    assert_eq!(geometry_copy(&modules(&["base_color"])), GeometryCopy::Nothing);
    assert!(copies_film_base(&modules(&["geometry", "base_color"])));
    assert!(!copies_film_base(&modules(&["geometry"])));
}

#[test]
fn a_target_keeps_only_a_base_it_measured_itself() {
    let measured = BaseColor { base_r: 40000, base_g: 30000, base_b: 20000 };
    assert!(target_keeps_its_own_base(Some(measured), "auto_invert"));
    assert!(!target_keeps_its_own_base(Some(measured), INHERITED_FILM_BASE_SOURCE));
    assert!(!target_keeps_its_own_base(Some(BaseColor::default()), "auto_invert"));
    assert!(!target_keeps_its_own_base(None, "auto_invert"));
}

#[test]
fn base_measurement_needs_a_value_and_a_source() {
    let measured = BaseColor { base_r: 40000, base_g: 30000, base_b: 20000 };
    for source in ["", "unresolved", "inherited_film_base", "compatibility_fallback", "missing_film_base_reference"] {
        assert!(!base_is_frame_measurement(source, &measured), "{source}");
    }
    assert!(base_is_frame_measurement("sampled", &measured));
    assert!(!base_is_frame_measurement("sampled", &BaseColor::default()));
}

#[test]
fn frame_base_is_used_only_when_trusted() {
    let measured = BaseColor { base_r: 40000, base_g: 30000, base_b: 20000 };
    let mut state = PipelineState::smart_auto();
    state.processing_report.base_source = "auto_invert".to_string();
    assert_eq!(frame_base(&state, &measured), Some(measured));
    assert_eq!(frame_base(&state, &BaseColor::default()), None);
    let mut legacy = state.clone();
    legacy.contract = ProcessingContract::LegacyV1;
    assert_eq!(frame_base(&legacy, &measured), None);
    let mut unresolved = state.clone();
    unresolved.processing_report.base_source = "unresolved".to_string();
    assert_eq!(frame_base(&unresolved, &measured), None);
    // An inherited base is still subtracted; it is re-measured on decode.
    let mut inherited = state.clone();
    inherited.processing_report.base_source = INHERITED_FILM_BASE_SOURCE.to_string();
    assert_eq!(frame_base(&inherited, &measured), Some(measured));
    let mut srgb = state.clone();
    srgb.processing_report.analysis_data_domain = "legacy_linear_srgb".to_string();
    assert_eq!(frame_base(&srgb, &measured), None);
    assert!(DensityAnchors::default().d_min_base.is_none());
}

#[test]
fn math_versions_follow_the_contract() {
    assert_eq!(math_version_for_contract(ProcessingContract::LegacyV1), LEGACY_MATH_VERSION);
    assert_eq!(math_version_for_contract(ProcessingContract::SmartAutoProPhotoV11), MATH_VERSION);
    assert!(needs_density_migration(2, 9));
    assert!(needs_density_migration(3, 8));
    assert!(!needs_density_migration(3, 9));
}

#[test]
fn legacy_thumbnails_move_to_embedded_and_rendered_slots() {
    assert_eq!(migrate_legacy_thumbnail(None, true, None, None), None);
    assert_eq!(migrate_legacy_thumbnail(Some(String::new()), true, None, None), None);
    assert_eq!(
        migrate_legacy_thumbnail(Some("old".to_string()), false, None, None),
        Some(("old".to_string(), None))
    );
    assert_eq!(
        migrate_legacy_thumbnail(Some("old".to_string()), true, Some(String::new()), None),
        Some(("old".to_string(), Some("old".to_string())))
    );
    assert_eq!(
        migrate_legacy_thumbnail(
            Some("old".to_string()),
            true,
            Some("embedded".to_string()),
            Some("rendered".to_string())
        ),
        Some(("embedded".to_string(), Some("rendered".to_string())))
    );
}

#[test]
fn bayer_channels_follow_libraws_filter_code() {
    let rggb = 0x94949494;
    assert_eq!(bayer_raw_channel(rggb, 0, 0), 0);
    assert_eq!(bayer_raw_channel(rggb, 0, 1), 1);
    assert_eq!(bayer_raw_channel(rggb, 1, 0), 1);
    assert_eq!(bayer_raw_channel(rggb, 1, 1), 2);
    assert_eq!(bayer_rgb_channel(0xb4b4b4b4, 1, 0), 1);
    assert_eq!(bayer_raw_channel(0xb4b4b4b4, 1, 0), 3);
    assert_eq!(bayer_raw_channel(rggb, -1, -1), bayer_raw_channel(rggb, 7, 1));
}

#[test]
fn an_inherited_base_is_marked_without_touching_the_endpoints() {
    let mut state = PipelineState::smart_auto();
    state.processing_report.base_source = "auto_invert".to_string();
    state.processing_report.base_confidence = "low".to_string();
    let before = state.clone();
    let marked = mark_inherited_film_base(state);
    assert_eq!(marked.processing_report.base_source, INHERITED_FILM_BASE_SOURCE);
    assert_eq!(marked.processing_report.base_confidence, "1.000");
    assert_eq!(marked.render_mapping, before.render_mapping);
    assert_eq!(marked.density_anchors, before.density_anchors);
    assert_eq!(marked.contract, before.contract);
    assert_eq!(marked.processing_report.stages, before.processing_report.stages);
    let measured = BaseColor { base_r: 40000, base_g: 30000, base_b: 20000 };
    assert!(!target_keeps_its_own_base(Some(measured), &marked.processing_report.base_source));
}

#[test]
fn migrated_frames_and_moved_thumbnails_settle() {
    assert!(!needs_density_migration(LEGACY_MATH_VERSION, nexfilm_engine::persistence::RAW_DECODE_VERSION));
    assert!(!needs_density_migration(
        math_version_for_contract(ProcessingContract::SmartAutoProPhotoV11),
        nexfilm_engine::persistence::RAW_DECODE_VERSION
    ));
    let first = migrate_legacy_thumbnail(Some("old".to_string()), true, None, None).unwrap();
    let second =
        migrate_legacy_thumbnail(Some("old".to_string()), true, Some(first.0.clone()), first.1.clone()).unwrap();
    assert_eq!(first, second);
    let first = migrate_legacy_thumbnail(Some("old".to_string()), false, Some("embedded".to_string()), None).unwrap();
    let second =
        migrate_legacy_thumbnail(Some("old".to_string()), false, Some(first.0.clone()), first.1.clone()).unwrap();
    assert_eq!(first, second);
}

fn num(text: &str) -> JsonValue {
    JsonValue::Number(text.to_string())
}

fn obj(members: Vec<(&str, JsonValue)>) -> JsonValue {
    JsonValue::Object(members.into_iter().map(|(name, value)| (name.to_string(), value)).collect())
}

fn point(x: &str, y: &str) -> JsonValue {
    JsonValue::Array(vec![num(x), num(y)])
}

fn render(value: &JsonValue) -> String {
    match value {
        JsonValue::Null => "null".to_string(),
        JsonValue::Bool(flag) => flag.to_string(),
        JsonValue::Number(text) => text.clone(),
        JsonValue::Text(text) => format!("{text:?}"),
        JsonValue::Array(items) => {
            format!("[{}]", items.iter().map(render).collect::<Vec<_>>().join(","))
        }
        JsonValue::Object(members) => format!(
            "{{{}}}",
            members.iter().map(|(name, value)| format!("{name:?}:{}", render(value))).collect::<Vec<_>>().join(",")
        ),
    }
}

#[test]
fn geometry_merge_takes_source_fields_and_keeps_target_extras() {
    let source = obj(vec![
        (
            "calibration_points",
            JsonValue::Array(vec![point("0.1", "0.1"), point("0.9", "0.1"), point("0.9", "0.9"), point("0.1", "0.9")]),
        ),
        ("crop_rect", obj(vec![("x", num("0.1"))])),
    ]);
    let target = obj(vec![
        ("calibration_points", JsonValue::Null),
        ("crop_rect", obj(vec![("x", num("0.0")), ("future", JsonValue::Bool(true))])),
        ("future_root", num("42")),
    ]);
    let merged = merge_json(target, &source);
    assert_eq!(
        render(&merged),
        r#"{"calibration_points":[[0.1,0.1],[0.9,0.1],[0.9,0.9],[0.1,0.9]],"crop_rect":{"x":0.1,"future":true},"future_root":42}"#
    );
}

#[test]
fn a_source_that_is_not_an_object_replaces_the_target() {
    let target = obj(vec![("angle", num("0.0"))]);
    assert_eq!(render(&merge_json(target, &num("12.0"))), "12.0");
    let members_only_in_source = merge_json(JsonValue::Null, &obj(vec![("angle", num("12.0"))]));
    assert_eq!(render(&members_only_in_source), r#"{"angle":12.0}"#);
    let appended = merge_json(obj(vec![("a", num("1"))]), &obj(vec![("b", JsonValue::Text("x".to_string()))]));
    assert_eq!(render(&appended), r#"{"a":1,"b":"x"}"#);
}

#[test]
fn film_area_copy_carries_only_points_and_confirmation() {
    let source = obj(vec![
        (
            "calibration_points",
            JsonValue::Array(vec![point("0.2", "0.1"), point("0.8", "0.1"), point("0.8", "0.9"), point("0.2", "0.9")]),
        ),
        ("calibration_confirmed", JsonValue::Bool(true)),
        ("crop_rect", obj(vec![("x", num("0.2")), ("y", num("0.2"))])),
        ("rotate_90_count", num("0")),
    ]);
    let area = film_area(&source);
    assert_eq!(
        render(&area),
        r#"{"calibration_points":[[0.2,0.1],[0.8,0.1],[0.8,0.9],[0.2,0.9]],"calibration_confirmed":true}"#
    );
    let target = obj(vec![
        ("calibration_points", JsonValue::Null),
        ("calibration_confirmed", JsonValue::Bool(false)),
        ("crop_rect", obj(vec![("x", num("0.05")), ("y", num("0.1"))])),
        ("rotate_90_count", num("1")),
        ("flip_h", JsonValue::Bool(true)),
    ]);
    assert_eq!(
        render(&merge_json(target, &area)),
        r#"{"calibration_points":[[0.2,0.1],[0.8,0.1],[0.8,0.9],[0.2,0.9]],"calibration_confirmed":true,"crop_rect":{"x":0.05,"y":0.1},"rotate_90_count":1,"flip_h":true}"#
    );
    // A geometry without a film area carries an empty, unconfirmed one.
    assert_eq!(render(&film_area(&obj(vec![("angle", num("3"))]))), r#"{"calibration_points":null,"calibration_confirmed":false}"#);
    assert_eq!(render(&film_area(&JsonValue::Null)), r#"{"calibration_points":null,"calibration_confirmed":false}"#);
}

#[test]
fn merging_the_same_geometry_twice_changes_nothing() {
    let source = obj(vec![
        ("crop_rect", obj(vec![("x", num("0.1")), ("nested", obj(vec![("k", num("2"))]))])),
        ("angle", num("1.5")),
    ]);
    let target = obj(vec![("crop_rect", obj(vec![("y", num("0.3"))])), ("flip_h", JsonValue::Bool(false))]);
    let once = merge_json(target, &source);
    let twice = merge_json(copy_json(&once), &source);
    assert_eq!(render(&twice), render(&once));
    assert_eq!(
        render(&once),
        r#"{"crop_rect":{"y":0.3,"x":0.1,"nested":{"k":2}},"flip_h":false,"angle":1.5}"#
    );
}

#[test]
fn a_frame_renders_with_its_runtime_state_when_it_has_one() {
    let saved = PipelineState::smart_auto();
    let runtime = Some(PipelineState::capture_corrected(DensityAnchors::default(), true));
    assert_eq!(effective_pipeline_state(&runtime, &saved).contract, ProcessingContract::CaptureCorrectedV11);
    assert_eq!(effective_pipeline_state(&None, &saved), &saved);
}
