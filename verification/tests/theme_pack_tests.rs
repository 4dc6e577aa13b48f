use osdockx::shelf::ShelfRenderResult;
use osdockx::theme_pack::{normalized_theme_id, resolve_asset, ThemeAssetsToml};

#[test]
fn theme_ids_migrate_and_trim() {
    assert_eq!(normalized_theme_id("osx-glass"), "leopard");
    assert_eq!(normalized_theme_id("  "), "leopard");
    assert_eq!(normalized_theme_id(" crystal "), "crystal");
}

#[test]
fn assets_resolve_below_the_theme_directory() {
    assert_eq!(
        resolve_asset(Some("/themes/cairo"), Some("assets/shelf.png")),
        Some("/themes/cairo/assets/shelf.png".to_string())
    );
    assert_eq!(
        resolve_asset(Some("/themes/cairo"), Some(" /abs/shelf.png ")),
        Some("/abs/shelf.png".to_string())
    );
    assert_eq!(resolve_asset(None, Some("assets/shelf.png")), None);
    assert_eq!(resolve_asset(Some("/themes"), Some("  ")), None);
    let toml = ThemeAssetsToml {
        shelf_texture: None,
        shelf_overlay: Some("overlay.png".to_string()),
        noise_texture: None,
        normal_map: None,
        fallback_texture: Some("assets/shelf.png".to_string()),
    };
    let resolved = toml.resolve(Some("/themes/cairo/"));
    assert_eq!(resolved.shelf_overlay.as_deref(), Some("/themes/cairo/overlay.png"));
    assert_eq!(resolved.fallback_texture.as_deref(), Some("/themes/cairo/assets/shelf.png"));
    assert_eq!(resolved.shelf_texture, None);
}

#[test]
fn shelf_render_results_record_fallback_reason() {
    let result = ShelfRenderResult::fallback("missing texture".to_string());
    assert!(!result.rendered);
    assert_eq!(result.fallback_reason.as_deref(), Some("missing texture"));
    assert!(ShelfRenderResult::rendered().rendered);
}

use osdockx::config::{RenderMode, ShelfStyle, ThemeConfig};
use osdockx::theme_pack::{
    apply_user_theme_overrides, builtin_identity, pack_identity, watch_directories, ThemeAssets,
};

#[test]
fn builtin_identity_migrates_and_names_leopard() {
    let (id, name, renderer) = builtin_identity("osx-glass", None);
    assert_eq!(id, "leopard");
    assert_eq!(name, "Leopard");
    assert_eq!(renderer, RenderMode::Procedural2d);
    let (id, name, renderer) = builtin_identity(" crystal ", Some(RenderMode::Texture2d));
    assert_eq!(id, "crystal");
    assert_eq!(name, "OSDockX Theme");
    assert_eq!(renderer, RenderMode::Texture2d);
}

#[test]
fn pack_identity_falls_back_to_directory_name() {
    assert_eq!(
        pack_identity("", "", "/home/u/.config/osdockx/themes/aqua/theme.toml"),
        ("aqua".to_string(), "aqua".to_string())
    );
    assert_eq!(
        pack_identity("crystal", "Crystal Shelf", "/x/theme.toml"),
        ("crystal".to_string(), "Crystal Shelf".to_string())
    );
    assert_eq!(
        pack_identity("osx-glass", " ", "/x/theme.toml"),
        ("leopard".to_string(), "osx-glass".to_string())
    );
    assert_eq!(pack_identity("  ", "", "theme.toml"), ("theme".to_string(), "theme".to_string()));
}

#[test]
fn user_overrides_replace_only_changed_colors() {
    let mut theme = ThemeConfig::default();
    theme.shelf_top = "#111111ff".to_string();
    theme.badge = "#222222ff".to_string();
    theme.shelf_style = ShelfStyle::default();
    let mut overrides = ThemeConfig::default();
    overrides.badge = "#333333ff".to_string();
    overrides.preset = "crystal".to_string();
    let preset_before = theme.preset.clone();
    apply_user_theme_overrides(&mut theme, &overrides);
    assert_eq!(theme.shelf_top, "#111111ff");
    assert_eq!(theme.badge, "#333333ff");
    assert_eq!(theme.preset, preset_before);
    assert_eq!(theme.indicator, "#6fd3ffff");
}

#[test]
fn watch_directories_list_root_and_asset_parents_once() {
    let assets = ThemeAssets {
        shelf_texture: Some("/themes/cairo/assets/shelf.png".to_string()),
        shelf_overlay: Some("/themes/cairo/overlay.png".to_string()),
        noise_texture: Some("/themes/cairo/assets/noise.png".to_string()),
        normal_map: None,
        fallback_texture: Some("/shared/fallback.png".to_string()),
    };
    assert_eq!(
        watch_directories(Some("/themes/cairo"), &assets),
        vec![
            "/themes/cairo".to_string(),
            "/themes/cairo/assets".to_string(),
            "/shared".to_string(),
        ]
    );
    assert_eq!(watch_directories(None, &ThemeAssets::default()), Vec::<String>::new());
}

use osdockx::shelf::{draws_shelf, shelf_layer_for, ShelfLayer};

#[test]
fn shelf_layer_follows_renderer_and_scene_fallback() {
    assert_eq!(shelf_layer_for(RenderMode::Scene3d, false), ShelfLayer::NoShelf);
    assert_eq!(shelf_layer_for(RenderMode::Scene3d, true), ShelfLayer::Procedural);
    assert_eq!(shelf_layer_for(RenderMode::Texture2d, false), ShelfLayer::Texture2d);
    assert_eq!(shelf_layer_for(RenderMode::Procedural2d, true), ShelfLayer::Procedural);
    assert!(!draws_shelf(ShelfLayer::NoShelf));
    assert!(draws_shelf(ShelfLayer::Texture2d));
}

use osdockx::theme_pack::{ParsedThemePack, ThemeAssetsToml as AssetsToml, ThemePackInfo};

#[test]
fn builtin_pack_info_takes_configured_settings() {
    let mut config = ThemeConfig::default();
    config.preset = "osx-glass".to_string();
    config.badge = "#010203ff".to_string();
    let pack = ThemePackInfo::builtin(&config.preset.clone(), &config);
    assert_eq!(pack.id, "leopard");
    assert_eq!(pack.name, "Leopard");
    assert_eq!(pack.renderer, RenderMode::Procedural2d);
    assert_eq!(pack.root, None);
    assert_eq!(pack.assets, ThemeAssets::default());
    assert_eq!(pack.theme.preset, "leopard");
    assert_eq!(pack.theme.renderer, Some(RenderMode::Procedural2d));
    assert_eq!(pack.theme.badge, "#010203ff");
}

#[test]
fn parsed_pack_info_resolves_against_its_directory() {
    let parsed = ParsedThemePack {
        id: String::new(),
        name: String::new(),
        renderer: RenderMode::Texture2d,
        theme: ThemeConfig::default(),
        assets: AssetsToml {
            shelf_texture: Some("assets/shelf.png".to_string()),
            shelf_overlay: None,
            noise_texture: Some("/abs/noise.png".to_string()),
            normal_map: None,
            fallback_texture: None,
        },
    };
    let mut overrides = ThemeConfig::default();
    overrides.indicator = "#00ff00ff".to_string();
    let pack = ThemePackInfo::from_parsed("/themes/aqua/theme.toml", parsed, &overrides);
    assert_eq!(pack.id, "aqua");
    assert_eq!(pack.name, "aqua");
    assert_eq!(pack.renderer, RenderMode::Texture2d);
    assert_eq!(pack.root.as_deref(), Some("/themes/aqua"));
    assert_eq!(pack.assets.shelf_texture.as_deref(), Some("/themes/aqua/assets/shelf.png"));
    assert_eq!(pack.assets.noise_texture.as_deref(), Some("/abs/noise.png"));
    assert_eq!(pack.theme.preset, "aqua");
    assert_eq!(pack.theme.renderer, Some(RenderMode::Texture2d));
    assert_eq!(pack.theme.indicator, "#00ff00ff");
    assert_eq!(pack.theme.shelf_top, "#cfd5dbff");
}
