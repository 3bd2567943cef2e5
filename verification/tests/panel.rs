use termpaper::panel::{PanelColors, PanelModel};

#[test]
fn waveshare_3in_g_profile_matches_product_spec() {
    let profile = PanelModel::Waveshare3InG.profile();

    assert_eq!(profile.width_px, 400);
    assert_eq!(profile.height_px, 168);
    assert_eq!(profile.full_refresh_seconds, 12);
    assert!(!profile.partial_refresh);
    assert_eq!(profile.terminal_columns(8), 50);
    assert_eq!(profile.terminal_rows(12), 14);
}

#[test]
fn profile_names_panel_and_interface() {
    let profile = PanelModel::Waveshare3InG.profile();
    assert_eq!(profile.name, "Waveshare 3inch e-Paper (G)");
    assert_eq!(profile.interface, "SPI");
    assert_eq!(profile.colors, PanelColors::BlackWhiteRedYellow);
    assert_eq!(profile.terminal_columns(6), 66);
    assert_eq!(profile.terminal_rows(10), 16);
}
