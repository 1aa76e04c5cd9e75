use exruster::io::image_cache::LayerInfo;
use exruster::io::metadata_traits::ChannelInfo;
use exruster::processing::channel_classification::create_default_config;
use exruster::processing::layer_export::{
    find_base_layer, format_extension, group_key, layers_in_group, output_file_name, ExportError,
    ExportFormat,
};

fn layer(name: &str, channels: &[&str]) -> LayerInfo {
    LayerInfo {
        name: name.to_string(),
        channels: channels.iter().map(|c| ChannelInfo::new(c.to_string())).collect(),
    }
}

#[test]
fn export_file_names() {
    assert_eq!(output_file_name("shot", "", &ExportFormat::Png16), "shot_base.png");
    assert_eq!(output_file_name("shot", "Light", &ExportFormat::Tiff32Float), "shot_Light.tiff");
    assert_eq!(
        output_file_name("shot", "a/b\\c:d*e?f\"g<h>i|j", &ExportFormat::Png16),
        "shot_a_b_c_d_e_f_g_h_i_j.png"
    );
    assert_eq!(format_extension(&ExportFormat::Tiff32Float), "tiff");
}

#[test]
fn sanitized_names_hold_no_unsafe_characters() {
    let name = output_file_name("base", "x/y?z", &ExportFormat::Png16);
    let middle = &name["base_".len()..name.len() - ".png".len()];
    assert_eq!(middle.chars().count(), "x/y?z".chars().count());
    assert!(!middle.contains(['/', '\\', ':', '*', '?', '"', '<', '>', '|']));
}

#[test]
fn export_group_keys() {
    assert_eq!(group_key("beauty"), Some("base"));
    assert_eq!(group_key("objects"), Some("scene_objects"));
    assert_eq!(group_key("lights"), Some("light"));
    assert_eq!(group_key("scene"), Some("scene"));
    assert_eq!(group_key("cryptomatte"), Some("cryptomatte"));
    assert_eq!(group_key("Beauty"), None);
}

#[test]
fn layers_of_a_group() {
    let config = create_default_config();
    let layers = vec![
        layer("Beauty", &["R", "G", "B"]),
        layer("LightMix", &["R"]),
        layer("ID001", &["R"]),
        layer("Light_Key", &["R"]),
    ];
    let lights = layers_in_group(&layers, "lights", &config).unwrap();
    let names: Vec<&str> = lights.iter().map(|l| l.name.as_str()).collect();
    assert_eq!(names, vec!["LightMix", "Light_Key"]);
    let objects = layers_in_group(&layers, "objects", &config).unwrap();
    assert_eq!(objects.len(), 1);
    assert_eq!(objects[0].name, "ID001");
    assert_eq!(layers_in_group(&layers, "cryptomatte", &config).unwrap_err(), ExportError::NoLayersInGroup);
    assert_eq!(layers_in_group(&layers, "unknown", &config).unwrap_err(), ExportError::UnknownGroup);
}

#[test]
fn base_layer_lookup() {
    let layers = vec![layer("depth", &["Z"]), layer("Beauty", &["R", "G", "B", "A"])];
    let base = find_base_layer(&layers).unwrap();
    assert_eq!(base.name, "Beauty");
    assert_eq!(base.channels.len(), 4);
    assert_eq!(find_base_layer(&[]).unwrap_err(), ExportError::BaseLayerNotFound);
}
