use exruster::io::full_exr_cache::{find_layer_by_name, lower_names_answer};
use exruster::io::image_cache::{
    channel_alias_to_short, find_answering_layer, find_best_layer, layer_name_answers,
    layers_from_channels, names_contain, resolve_rgb_indices, LayerInfo,
};
use exruster::io::lazy_exr_loader::{channels_of_layer, find_layer_metadata, gather_layer_metadata, HeaderChannel};
use exruster::io::metadata_traits::{utils, ChannelInfo, LayerDescriptor, UnifiedLayerInfo};

fn layer(name: &str, channels: &[&str]) -> LayerInfo {
    LayerInfo {
        name: name.to_string(),
        channels: channels.iter().map(|c| ChannelInfo::new(c.to_string())).collect(),
    }
}

fn strings(names: &[&str]) -> Vec<String> {
    names.iter().map(|s| s.to_string()).collect()
}

#[test]
fn best_layer_name_prefers_rgba() {
    let layers = vec![layer("depth", &["Z"]), layer("rgb", &["R", "G", "B"]), layer("beauty", &["R", "G", "B", "A"])];
    assert_eq!(find_best_layer(&layers), "beauty");
    let layers = vec![layer("depth", &["Z"]), layer("rgb", &["R", "G", "B"])];
    assert_eq!(find_best_layer(&layers), "rgb");
    let layers = vec![layer("depth", &["Z"]), layer("mono", &["Y"])];
    assert_eq!(find_best_layer(&layers), "depth");
    assert_eq!(find_best_layer(&[]), "Layer 1");
}

#[test]
fn rgb_indices_exact_then_prefix_then_order() {
    assert_eq!(resolve_rgb_indices(&strings(&["A", "B", "G", "R"])), (3, 2, 1, Some(0)));
    assert_eq!(resolve_rgb_indices(&strings(&["red", "green", "blue"])), (0, 1, 2, None));
    assert_eq!(resolve_rgb_indices(&strings(&["G"])), (0, 0, 0, None));
    assert_eq!(resolve_rgb_indices(&strings(&["X", "Y", "Z"])), (0, 1, 2, None));
    assert_eq!(resolve_rgb_indices(&strings(&["X", "Y"])), (0, 1, 1, None));
    assert_eq!(resolve_rgb_indices(&strings(&["Z", "alpha"])), (0, 1, 1, Some(1)));
    assert_eq!(resolve_rgb_indices(&strings(&["B", "x"])), (0, 0, 0, None));
}

#[test]
fn channel_aliases() {
    assert_eq!(channel_alias_to_short("red"), "R");
    assert_eq!(channel_alias_to_short("  Red "), "R");
    assert_eq!(channel_alias_to_short("r"), "R");
    assert_eq!(channel_alias_to_short("GREEN"), "G");
    assert_eq!(channel_alias_to_short("blue"), "B");
    assert_eq!(channel_alias_to_short("Alpha"), "A");
    assert_eq!(channel_alias_to_short("a"), "A");
    assert_eq!(channel_alias_to_short(" Z "), "Z");
    assert_eq!(channel_alias_to_short("gr"), "gr");
    assert_eq!(channel_alias_to_short("R8"), "R");
    assert_eq!(channel_alias_to_short("b16"), "B");
    assert_eq!(channel_alias_to_short("R8x"), "R8x");
}

#[test]
fn channel_alias_is_canonical() {
    for name in ["red", " depth ", "Blue", "x", "ALPHA"] {
        let once = channel_alias_to_short(name);
        assert_eq!(channel_alias_to_short(&once), once);
    }
}

#[test]
fn names_contain_exact_names() {
    let names = strings(&["R", "G"]);
    assert!(names_contain(&names, "G"));
    assert!(!names_contain(&names, "g"));
    assert!(!names_contain(&Vec::new(), "R"));
}

#[test]
fn layer_request_matching() {
    assert!(layer_name_answers("", ""));
    assert!(!layer_name_answers("beauty", ""));
    assert!(!layer_name_answers("", "beauty"));
    assert!(layer_name_answers("Beauty", "beauty"));
    assert!(layer_name_answers("ViewLayer.Beauty", "beauty"));
    assert!(layer_name_answers("diff", "DiffuseColor"));
    assert!(!layer_name_answers("specular", "diffuse"));
    let names = strings(&["depth", "ViewLayer.Diffuse", "Diffuse"]);
    assert_eq!(find_answering_layer(&names, "diffuse"), Some(1));
    assert_eq!(find_answering_layer(&names, "normal"), None);
}

fn channel(layer: &str, short: &str, w: u32, h: u32) -> HeaderChannel {
    HeaderChannel { layer: layer.to_string(), short_name: short.to_string(), width: w, height: h }
}

#[test]
fn layers_gathered_in_order_of_appearance() {
    let channels = vec![
        channel("beauty", "R", 4, 4),
        channel("depth", "Z", 2, 2),
        channel("beauty", "G", 4, 4),
        channel("beauty", "B", 8, 8),
    ];
    let layers = layers_from_channels(&channels);
    assert_eq!(layers.len(), 2);
    assert_eq!(layers[0].name, "beauty");
    let names: Vec<&str> = layers[0].channels.iter().map(|c| c.name.as_str()).collect();
    assert_eq!(names, vec!["R", "G", "B"]);
    assert_eq!(layers[1].name, "depth");

    let lazy = gather_layer_metadata(&channels);
    assert_eq!(lazy.len(), 2);
    assert_eq!((lazy[0].width, lazy[0].height), (4, 4));
    assert_eq!(lazy[0].channel_names, strings(&["R", "G"]));
    assert_eq!(lazy[1].channel_names, strings(&["Z"]));
    assert_eq!(find_layer_metadata(&lazy, "DEPTH"), Some(1));
    assert_eq!(find_layer_metadata(&lazy, "normal"), None);
}

#[test]
fn full_cache_lookup_in_unicode_lower_case() {
    let names = strings(&["Diffuse", "ŚWIATŁO.Key"]);
    assert_eq!(find_layer_by_name(&names, "światło"), Some(1));
    assert_eq!(find_layer_by_name(&names, "DIFF"), Some(0));
    assert_eq!(find_layer_by_name(&names, "normal"), None);
    assert_eq!(find_layer_by_name(&strings(&["", "a"]), ""), Some(0));
    let a: Vec<char> = "key".chars().collect();
    let b: Vec<char> = "light.key".chars().collect();
    assert!(lower_names_answer(&a, &b));
    assert!(!lower_names_answer(&a, &[]));
}

#[test]
fn best_layer_agrees_with_unified_descriptors() {
    let cases = vec![
        vec![layer("depth", &["Z"]), layer("rgb", &["R", "G", "B"]), layer("beauty", &["R", "G", "B", "A"])],
        vec![layer("depth", &["Z"]), layer("rgb", &["B", "G", "R"])],
        vec![layer("mono", &["Y"])],
    ];
    for layers in cases {
        let unified: Vec<UnifiedLayerInfo> = layers.iter().map(|l| UnifiedLayerInfo::from(l.clone())).collect();
        let chosen = utils::find_best_layer(&unified).unwrap();
        assert_eq!(find_best_layer(&layers), chosen.name());
    }
}

#[test]
fn gathering_keeps_every_channel_once() {
    let channels = vec![
        channel("a", "R", 1, 1),
        channel("b", "R", 2, 2),
        channel("a", "G", 3, 3),
        channel("c", "Z", 1, 1),
        channel("b", "G", 2, 2),
    ];
    let layers = layers_from_channels(&channels);
    let total: usize = layers.iter().map(|l| l.channels.len()).sum();
    assert_eq!(total, channels.len());
    let mut names: Vec<&str> = layers.iter().map(|l| l.name.as_str()).collect();
    names.dedup();
    assert_eq!(names, vec!["a", "b", "c"]);
}

#[test]
fn channels_of_one_layer() {
    let channels = vec![
        channel("Beauty", "R", 4, 4),
        channel("depth", "Z", 4, 4),
        channel("BEAUTY", "G", 4, 4),
    ];
    assert_eq!(channels_of_layer(&channels, "beauty"), strings(&["R", "G"]));
    assert_eq!(channels_of_layer(&channels, "normal"), Vec::<String>::new());
}
