use exruster::io::exr_metadata::{
    build_ui_lines, build_ui_rows, group_metadata, normalize_attribute_key, sort_layers, upsert_item,
    ExrMetadata, HeaderAttributes, LayerMetadata, MetadataError, MetadataGroup, SharedHeader,
};

fn pair(k: &str, v: &str) -> (String, String) {
    (k.to_string(), v.to_string())
}

fn sample() -> ExrMetadata {
    ExrMetadata {
        groups: vec![
            MetadataGroup { name: "Ogólne".to_string(), items: vec![pair("Plik", "a.exr"), pair("", "note")] },
            MetadataGroup { name: "Nagłówek".to_string(), items: vec![pair("pixel_aspect", "1")] },
        ],
        layers: vec![LayerMetadata {
            name: String::new(),
            width: 1920,
            height: 1080,
            attributes: vec![pair("compression", "ZIP"), pair(" ", "x")],
        }],
    }
}

#[test]
fn ui_lines_format() {
    let lines = build_ui_lines(&sample());
    assert_eq!(
        lines,
        vec![
            "[Ogólne]",
            "Plik: a.exr",
            "note",
            "[Nagłówek]",
            "pixel_aspect: 1",
            "Warstwa: (domyślna)  — 1920x1080",
            "  compression: ZIP",
            "   : x",
        ]
    );
}

#[test]
fn ui_rows_format() {
    let rows = build_ui_rows(&sample());
    assert_eq!(
        rows,
        vec![
            pair("Ogólne", ""),
            pair("Plik", "a.exr"),
            pair("", "note"),
            pair("Nagłówek", ""),
            pair("pixel_aspect", "1"),
            pair("Warstwa: (domyślna)", ""),
            pair("Wymiary", "1920x1080"),
            pair("compression", "ZIP"),
            pair("Atrybut", "x"),
        ]
    );
}

#[test]
fn attribute_keys_are_normalised() {
    assert_eq!(normalize_attribute_key("pixelAspectRatio"), "pixelAspectRatio");
    assert_eq!(normalize_attribute_key("PIXEL_ASPECT_RATIO"), "pixel_aspect");
    assert_eq!(normalize_attribute_key("TimeCode"), "time_code");
    assert_eq!(normalize_attribute_key("Chromaticities"), "chromaticities");
}

#[test]
fn upsert_replaces_ignoring_case() {
    let mut items = vec![pair("Owner", "a")];
    upsert_item(&mut items, "owner".to_string(), "b".to_string());
    upsert_item(&mut items, "comments".to_string(), "c".to_string());
    assert_eq!(items, vec![pair("Owner", "b"), pair("comments", "c")]);
}

fn layer(name: &str) -> LayerMetadata {
    LayerMetadata { name: name.to_string(), width: 1, height: 1, attributes: Vec::new() }
}

#[test]
fn layers_sorted_base_first_then_by_name() {
    let sorted = sort_layers(vec![layer("beta"), layer("Alpha"), layer(""), layer("alpha")]);
    let names: Vec<&str> = sorted.iter().map(|l| l.name.as_str()).collect();
    assert_eq!(names, vec!["", "Alpha", "alpha", "beta"]);
}

#[test]
fn metadata_grouping() {
    let shared = SharedHeader {
        display_window: "0,0 - 9,9".to_string(),
        pixel_aspect: "1".to_string(),
        other: vec![pair("Pixel_Aspect", "2"), pair("owner", "me")],
    };
    let headers = vec![
        HeaderAttributes { layer_name: Some("spec".to_string()), width: 10, height: 10, attributes: vec![pair("TIMECODE", "1")] },
        HeaderAttributes { layer_name: None, width: 10, height: 10, attributes: Vec::new() },
    ];
    let meta = group_metadata(vec![pair("Plik", "x.exr")], Some(shared), headers).unwrap();
    assert_eq!(meta.groups[0].name, "Ogólne");
    assert_eq!(meta.groups[1].items, vec![pair("display_window", "0,0 - 9,9"), pair("pixel_aspect", "2"), pair("owner", "me")]);
    assert_eq!(meta.layers[0].name, "");
    assert_eq!(meta.layers[1].attributes, vec![pair("time_code", "1")]);
    let err = group_metadata(Vec::new(), None, Vec::new()).unwrap_err();
    assert_eq!(err, MetadataError::NoHeaders);
}
