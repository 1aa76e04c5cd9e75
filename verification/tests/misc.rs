use exruster::cuda_context::{CudaContext, CudaError};
use exruster::exr_layers::{read_layers, ExrLayersError, PsdLayer};
use exruster::gpu_mip::{cpu_mip_chain_sizes, mip_chain_sizes, mip_level_size, plan_mip_level, MipConfig, MipError, MipFilterMode};
use exruster::io::file_operations::file_name_text;
use exruster::io::selective_layer_reader::layer_matches;
use exruster::io::thumbnails::has_image_extension;
use exruster::psd_writer::{write_psd, PsdError};

#[test]
fn cuda_context_needs_a_device() {
    assert_eq!(CudaContext::new().err(), Some(CudaError::NoDevices));
    assert_eq!(CudaContext::with_device_count(0).err(), Some(CudaError::NoDevices));
    let ctx = CudaContext::with_device_count(2).ok().unwrap();
    assert!(!ctx.is_available());
    let info = ctx.get_device_info();
    assert_eq!(info.name, "CUDA Device (placeholder)");
    assert_eq!(info.compute_capability, (0, 0));
    assert_eq!(info.memory_mb, 0);
}

fn empty_layer() -> PsdLayer {
    PsdLayer { name: "c".to_string(), width: 0, height: 0, r: Vec::new(), g: Vec::new(), b: Vec::new(), a: None }
}

#[test]
fn psd_export_is_not_implemented() {
    assert_eq!(read_layers("x.exr").err(), Some(ExrLayersError::NotImplemented));
    let mut out: Vec<u8> = Vec::new();
    assert_eq!(write_psd(&mut out, &[], &empty_layer()), Err(PsdError::NotImplemented));
    assert!(out.is_empty());
}

#[test]
fn mip_sizes() {
    assert_eq!(mip_level_size(5, 1), (2, 1));
    assert_eq!(mip_level_size(0, 3), (1, 1));
    let chain = mip_chain_sizes(8, 3, &MipConfig::default());
    assert_eq!(chain, vec![(8, 3), (4, 1), (2, 1), (1, 1)]);
    let limited = MipConfig { filter_mode: MipFilterMode::Average, preserve_alpha: false, max_levels: Some(2) };
    assert_eq!(mip_chain_sizes(8, 3, &limited), vec![(8, 3), (4, 1)]);
    let none = MipConfig { filter_mode: MipFilterMode::Average, preserve_alpha: false, max_levels: Some(0) };
    assert_eq!(mip_chain_sizes(8, 3, &none), vec![(8, 3)]);
    assert_eq!(mip_chain_sizes(1, 1, &MipConfig::default()), vec![(1, 1)]);
}

#[test]
fn mip_level_plan() {
    let config = MipConfig::default();
    let p = plan_mip_level(64, 4, 4, 1, &config, 1 << 20).unwrap();
    assert_eq!((p.dst_width, p.dst_height, p.mip_level, p.filter_mode, p.preserve_alpha), (2, 2, 1, 0, 1));
    assert_eq!(plan_mip_level(63, 4, 4, 1, &config, 1 << 20).unwrap_err(), MipError::InputTooSmall);
    assert_eq!(plan_mip_level(64, 4, 4, 1, &config, 255).unwrap_err(), MipError::InputTooLarge);
}

#[test]
fn file_names_for_display() {
    assert_eq!(file_name_text(Some("a.exr")), "a.exr");
    assert_eq!(file_name_text(None), "Nieznany plik");
}

#[test]
fn thumbnail_extensions() {
    assert!(has_image_extension(Some("EXR")));
    assert!(has_image_extension(Some("hdr")));
    assert!(!has_image_extension(Some("png")));
    assert!(!has_image_extension(None));
}

#[test]
fn header_layer_selection() {
    assert!(layer_matches("Beauty", None));
    assert!(layer_matches("Beauty", Some("")));
    assert!(layer_matches("beauty", Some("BEAUTY")));
    assert!(!layer_matches("diffuse", None));
    assert!(!layer_matches("diffuse", Some("")));
    assert!(layer_matches("Diffuse", Some("diffuse")));
}

#[test]
fn cpu_mip_chain_stops_at_small_levels() {
    assert_eq!(cpu_mip_chain_sizes(256, 64, 10), vec![(128, 32), (64, 16), (32, 8)]);
    assert_eq!(cpu_mip_chain_sizes(4, 4, 10), vec![(2, 2)]);
    assert_eq!(cpu_mip_chain_sizes(1, 1, 5), Vec::<(u32, u32)>::new());
    assert_eq!(cpu_mip_chain_sizes(512, 512, 2), vec![(256, 256), (128, 128)]);
    assert_eq!(cpu_mip_chain_sizes(512, 512, 0), Vec::<(u32, u32)>::new());
}

#[test]
fn channel_names_split_at_last_dot() {
    let s = |full: &str, base: Option<&str>| exruster::utils::split_layer_and_short(full, base);
    assert_eq!(s("ViewLayer.Diffuse.R", None), ("ViewLayer.Diffuse".to_string(), "R".to_string()));
    assert_eq!(s("R", Some("beauty")), ("beauty".to_string(), "R".to_string()));
    assert_eq!(s("Z", None), (String::new(), "Z".to_string()));
    assert_eq!(s("light.", None), ("light".to_string(), String::new()));
    assert_eq!(s(".A", Some("x")), (String::new(), "A".to_string()));
}
