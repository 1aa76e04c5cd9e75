use exruster::io::metadata_traits::ChannelInfo;
use exruster::processing::channel_classification::{
    create_default_config, determine_channel_group_ultra_fast, determine_channel_group_with_config,
    group_channels_parallel, matches_pattern_simd,
};

#[test]
fn test_simd_pattern_matching() {
    assert!(matches_pattern_simd("LightMix", "Light*"));
    assert!(matches_pattern_simd("Background", "Back*"));
    assert!(matches_pattern_simd("test", "*"));
    assert!(!matches_pattern_simd("test", "other*"));
    assert!(matches_pattern_simd("anyPrefix", "any*"));
    assert!(matches_pattern_simd("testValue", "test*"));
    assert!(matches_pattern_simd("somethingElse", "something*"));
    assert!(matches_pattern_simd("IDObject01", "ID*"));
    assert!(matches_pattern_simd("_testLayer", "_*"));
    assert!(matches_pattern_simd("_anything_here", "_*"));
    assert!(!matches_pattern_simd("notAny", "different*"));
    assert!(!matches_pattern_simd("wrongPrefix", "correct*"));
}

#[test]
fn test_channel_group_classification() {
    assert_eq!(determine_channel_group_ultra_fast("R"), "base");
    assert_eq!(determine_channel_group_ultra_fast("Beauty.red"), "base");
    assert_eq!(determine_channel_group_ultra_fast("LightMix.blue"), "light");
    assert_eq!(determine_channel_group_ultra_fast("Background.red"), "scene");
    assert_eq!(determine_channel_group_ultra_fast("ID0.red"), "scene_objects");
    assert_eq!(determine_channel_group_ultra_fast("_testLayer.blue"), "scene_objects");
}

#[test]
fn test_wildcard_patterns_with_config() {
    let config = create_default_config();
    let id001_result = determine_channel_group_with_config("ID001", &config);
    println!("ID001 result: {}", id001_result);
    assert_eq!(id001_result, "Scene Objects");
    assert_eq!(determine_channel_group_with_config("IDWalls", &config), "Scene Objects");
    assert_eq!(determine_channel_group_with_config("_testLayer", &config), "Scene Objects");
    assert_eq!(determine_channel_group_with_config("_anything", &config), "Scene Objects");
    assert_eq!(determine_channel_group_with_config("LightMix", &config), "Light");
    assert_eq!(determine_channel_group_with_config("LightAny", &config), "Light");
    assert_eq!(determine_channel_group_with_config("lightMix", &config), "Light");
    assert_eq!(determine_channel_group_with_config("lightAny", &config), "Light");
    assert_eq!(determine_channel_group_with_config("RenderStamp1", &config), "Technical");
    assert_eq!(determine_channel_group_with_config("renderstamp2", &config), "Technical");
    assert_eq!(determine_channel_group_with_config("Cryptomatte3", &config), "Cryptomatte");
    assert_eq!(determine_channel_group_with_config("cryptomatte4", &config), "Cryptomatte");
    assert_eq!(determine_channel_group_with_config("Translucency1", &config), "Scene");
    assert_eq!(determine_channel_group_with_config("translucency2", &config), "Scene");
    assert_ne!(determine_channel_group_with_config("notID", &config), "Scene Objects");
    assert_ne!(determine_channel_group_with_config("noLight", &config), "Light");
}

#[test]
fn pattern_without_wildcard_needs_exact_text() {
    assert!(matches_pattern_simd("Light", "Light"));
    assert!(!matches_pattern_simd("LightMix", "Light"));
}

#[test]
fn grouping_gathers_channels_by_group() {
    let channels = vec![
        ChannelInfo::new("R".to_string()),
        ChannelInfo::new("LightMix.red".to_string()),
        ChannelInfo::new("G".to_string()),
    ];
    let mut groups = group_channels_parallel(&channels, None);
    groups.sort();
    assert_eq!(groups.len(), 2);
    assert_eq!(groups[0].0, "base");
    let mut base = groups[0].1.clone();
    base.sort();
    assert_eq!(base, vec!["G".to_string(), "R".to_string()]);
    assert_eq!(groups[1], ("light".to_string(), vec!["LightMix.red".to_string()]));
}

#[test]
fn default_group_keys_are_unique() {
    let config = create_default_config();
    let mut keys: Vec<&str> = config.groups.iter().map(|(k, _)| k.as_str()).collect();
    let n = keys.len();
    keys.sort();
    keys.dedup();
    assert_eq!(keys.len(), n);
    assert_eq!(n, 6);
}
