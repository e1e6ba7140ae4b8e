use survival_realms::settings::{settings_from_document, GameSettings, SettingsDocument};

#[test]
fn invalid_values_are_clamped_to_supported_ranges() {
    let mut settings = GameSettings {
        fov: u16::MAX,
        mouse_sensitivity: u8::MAX,
        render_distance: 0,
        brightness: 0,
    };
    settings.clamp();
    assert_eq!(settings.fov, 200);
    assert_eq!(settings.mouse_sensitivity, 100);
    assert_eq!(settings.render_distance, 2);
    assert_eq!(settings.brightness, 1);
}

#[test]
fn defaults_keep_the_shipped_values() {
    let settings = GameSettings::default();
    assert_eq!(settings.fov, 100);
    assert_eq!(settings.mouse_sensitivity, 60);
    assert_eq!(settings.render_distance, 8);
    assert_eq!(settings.brightness, 75);
}

#[test]
fn clamping_twice_changes_nothing_more() {
    let mut settings = GameSettings {
        fov: 150,
        mouse_sensitivity: 250,
        render_distance: 40,
        brightness: 0,
    };
    settings.clamp();
    let once = settings;
    settings.clamp();
    assert_eq!(settings, once);
    assert_eq!(once.render_distance, 12);
    assert_eq!(once.fov, 150);
}

#[test]
fn stored_document_falls_back_to_defaults() {
    let mut settings = settings_from_document(SettingsDocument {
        fov: Some(70_000),
        mouse_sensitivity: None,
        render_distance: Some(1),
        brightness: Some(300),
    });
    assert_eq!(settings.fov, 100);
    assert_eq!(settings.mouse_sensitivity, 60);
    assert_eq!(settings.render_distance, 1);
    assert_eq!(settings.brightness, 75);
    settings.clamp();
    assert_eq!(settings.render_distance, 2);
}
