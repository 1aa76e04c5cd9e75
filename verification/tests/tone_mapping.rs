use exruster::processing::tone_mapping::ToneMapMode;
use exruster::tone_mapping::ToneMapMode as TopMode;

#[test]
fn test_tonemap_mode_conversion() {
    assert!(matches!(TopMode::from(0), TopMode::ACES));
    assert!(matches!(TopMode::from(1), TopMode::Reinhard));
    assert!(matches!(TopMode::from(2), TopMode::Linear));
    assert!(matches!(TopMode::from(3), TopMode::Filmic));
    assert!(matches!(TopMode::from(4), TopMode::Hable));
    assert!(matches!(TopMode::from(5), TopMode::Local));
    assert!(matches!(TopMode::from(999), TopMode::ACES));
}

#[test]
fn tone_mapping_test_tonemap_mode_conversion() {
    assert!(matches!(ToneMapMode::from(0), ToneMapMode::ACES));
    assert!(matches!(ToneMapMode::from(1), ToneMapMode::Reinhard));
    assert!(matches!(ToneMapMode::from(2), ToneMapMode::Linear));
    assert!(matches!(ToneMapMode::from(3), ToneMapMode::Filmic));
    assert!(matches!(ToneMapMode::from(4), ToneMapMode::Hable));
    assert!(matches!(ToneMapMode::from(5), ToneMapMode::Local));
    assert!(matches!(ToneMapMode::from(999), ToneMapMode::Linear));
}

#[test]
fn negative_numbers_select_the_default_mode() {
    assert_eq!(ToneMapMode::from(-1), ToneMapMode::Linear);
    assert_eq!(TopMode::from(-1), TopMode::ACES);
}

#[test]
fn mode_numbers_select_distinct_modes() {
    let modes: Vec<ToneMapMode> = (0..6).map(ToneMapMode::from).collect();
    for a in 0..6 {
        for b in 0..6 {
            assert_eq!(a == b, modes[a] == modes[b]);
        }
    }
}
