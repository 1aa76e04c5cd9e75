use exruster::io::exr_metadata::LayerMetadata;
use exruster::io::image_cache::LayerInfo;
use exruster::io::lazy_exr_loader::LazyLayerMetadata;
use exruster::io::metadata_traits::utils;
use exruster::io::metadata_traits::{ChannelInfo, LayerDescriptor, UnifiedLayerInfo};

#[test]
fn test_unified_layer_info_creation() {
    let layer = UnifiedLayerInfo::from_lazy(
        "test_layer".to_string(),
        1920,
        1080,
        vec!["R".to_string(), "G".to_string(), "B".to_string()],
    );
    assert_eq!(layer.name(), "test_layer");
    assert_eq!(layer.dimensions(), Some((1920, 1080)));
    assert_eq!(layer.channel_names(), vec!["R", "G", "B"]);
    assert!(layer.has_channel("R"));
    assert!(!layer.has_channel("A"));
}

#[test]
fn test_find_best_layer() {
    let layers = vec![
        UnifiedLayerInfo::from_lazy("mono".to_string(), 100, 100, vec!["Y".to_string()]),
        UnifiedLayerInfo::from_lazy(
            "rgb".to_string(),
            100,
            100,
            vec!["R".to_string(), "G".to_string(), "B".to_string()],
        ),
        UnifiedLayerInfo::from_lazy(
            "rgba".to_string(),
            100,
            100,
            vec!["R".to_string(), "G".to_string(), "B".to_string(), "A".to_string()],
        ),
    ];
    let best = utils::find_best_layer(&layers);
    assert_eq!(best.unwrap().name(), "rgba");
}

#[test]
fn best_layer_falls_back_to_rgb_then_first() {
    let rgb_only = vec![
        UnifiedLayerInfo::from_lazy("mono".to_string(), 1, 1, vec!["Y".to_string()]),
        UnifiedLayerInfo::from_lazy(
            "rgb".to_string(),
            1,
            1,
            vec!["B".to_string(), "G".to_string(), "R".to_string()],
        ),
    ];
    assert_eq!(utils::find_best_layer(&rgb_only).unwrap().name(), "rgb");
    let plain = vec![
        UnifiedLayerInfo::from_lazy("depth".to_string(), 1, 1, vec!["Z".to_string()]),
        UnifiedLayerInfo::from_lazy("mono".to_string(), 1, 1, vec!["Y".to_string()]),
    ];
    assert_eq!(utils::find_best_layer(&plain).unwrap().name(), "depth");
    let none: Vec<UnifiedLayerInfo> = Vec::new();
    assert!(utils::find_best_layer(&none).is_none());
}

#[test]
fn channel_names_come_from_descriptors_when_not_listed() {
    let layer = UnifiedLayerInfo::from_basic(
        "beauty".to_string(),
        vec![ChannelInfo::new("R".to_string()), ChannelInfo::new("A".to_string())],
    );
    assert_eq!(layer.channel_names(), vec!["R", "A"]);
    assert_eq!(layer.dimensions(), None);
    let mut bare = layer.clone();
    bare.channel_names.clear();
    assert_eq!(bare.channel_names(), vec!["R", "A"]);
    assert!(bare.has_channel("A"));
}

#[test]
fn metadata_layers_have_size_but_no_channels() {
    let layer = UnifiedLayerInfo::from_metadata(
        "spec".to_string(),
        640,
        480,
        vec![("compression".to_string(), "ZIP".to_string())],
    );
    assert_eq!(layer.dimensions(), Some((640, 480)));
    assert!(layer.channel_names().is_empty());
    assert_eq!(layer.attributes.len(), 1);
}

#[test]
fn conversions_round_trip() {
    let info = LayerInfo {
        name: "diffuse".to_string(),
        channels: vec![ChannelInfo::new("R".to_string())],
    };
    let unified = UnifiedLayerInfo::from(info);
    assert_eq!(unified.channel_names, vec!["R".to_string()]);
    let back = LayerInfo::from(unified);
    assert_eq!(back.name, "diffuse");
    assert_eq!(back.channels.len(), 1);
    assert_eq!(back.channels[0].name, "R");

    let lazy = LazyLayerMetadata {
        name: "spec".to_string(),
        width: 8,
        height: 4,
        channel_names: vec!["G".to_string()],
    };
    let unified = UnifiedLayerInfo::from(lazy);
    assert_eq!(unified.channels[0].name, "G");
    let back = LazyLayerMetadata::from(unified);
    assert_eq!((back.width, back.height), (8, 4));
    assert_eq!(back.channel_names, vec!["G".to_string()]);

    let no_size = UnifiedLayerInfo::from_basic("x".to_string(), Vec::new());
    let meta = LayerMetadata::from(no_size);
    assert_eq!((meta.width, meta.height), (0, 0));
    let unified = UnifiedLayerInfo::from(meta);
    assert_eq!(unified.width, Some(0));
}
