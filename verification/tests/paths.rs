use unified_launcher::clock::{epoch_now, epoch_of};
use unified_launcher::paths::{
    cache_dir, copy_bytes, fontconfig_dir, join_path, launch_log_path, recent_path,
};
use unified_launcher::theme::Appearance;
use unified_launcher::zoom::TextSize;
use unified_launcher::{prefs, theme, zoom};

fn bytes(s: &str) -> Option<Vec<u8>> {
    Some(s.as_bytes().to_vec())
}

#[test]
fn joins_below_a_directory() {
    assert_eq!(join_path(&b"/a".to_vec(), "b"), b"/a/b".to_vec());
    assert_eq!(join_path(&b"/a/".to_vec(), "b"), b"/a/b".to_vec());
    assert_eq!(join_path(&b"/a".to_vec(), "/b"), b"/b".to_vec());
    assert_eq!(join_path(&Vec::new(), "b"), b"b".to_vec());
    assert_eq!(join_path(&b"/a".to_vec(), ""), b"/a/".to_vec());
}

#[test]
fn keeps_its_files_below_home() {
    let home = bytes("/home/u");
    assert_eq!(cache_dir(&home), bytes("/home/u/.cache/unified_launcher"));
    assert_eq!(recent_path(&home), bytes("/home/u/.cache/unified_launcher/recent.toml"));
    assert_eq!(fontconfig_dir(&home), bytes("/home/u/.cache/fontconfig"));
    assert_eq!(cache_dir(&None), None);
    assert_eq!(recent_path(&None), None);
    assert_eq!(fontconfig_dir(&None), None);
    assert_eq!(launch_log_path(&None, "A"), None);
    assert_eq!(copy_bytes(&home), home);
}

#[test]
fn a_log_name_is_one_component() {
    assert_eq!(
        launch_log_path(&bytes("/h"), "../CT (3D) \u{e9}"),
        bytes("/h/.cache/unified_launcher/logs/___CT__3D___.log")
    );
}

#[test]
fn preferences_live_in_the_settings_directory() {
    let home = bytes("/h");
    assert_eq!(zoom::pref_path(&None, &home), bytes("/h/.config/venus_rust_tools/zoom"));
    assert_eq!(theme::pref_path(&bytes("/x"), &home), bytes("/x/venus_rust_tools/theme"));
    assert_eq!(prefs::pref_path(&bytes(""), &home, "p"), bytes("/h/.config/venus_rust_tools/p"));
    assert_eq!(zoom::pref_path(&None, &None), None);
    assert_eq!(zoom::pref_path(&bytes(""), &None), None);
}

#[test]
fn a_saved_size_is_loaded() {
    assert_eq!(zoom::save(TextSize::Large), "large\n");
    assert_eq!(zoom::save(TextSize::Normal), "normal\n");
    for size in [TextSize::Large, TextSize::Normal] {
        assert_eq!(zoom::load(&Some(zoom::save(size))), size);
    }
    assert_eq!(zoom::load(&Some("  LARGE ".to_owned())), TextSize::Large);
    assert_eq!(zoom::load(&Some("larger".to_owned())), TextSize::Normal);
    assert_eq!(zoom::load(&None), TextSize::Normal);
    assert_eq!(zoom::percent(TextSize::Normal), 100);
    assert_eq!(zoom::percent(TextSize::Large), 125);
}

#[test]
fn the_size_button_switches() {
    let grow = zoom::toggle_button(TextSize::Normal);
    assert_eq!(grow.label, "🔍+");
    assert_eq!(grow.tip, "Make all the text larger (applies to all the VENUS rust tools)");
    assert_eq!(grow.next, TextSize::Large);
    let shrink = zoom::toggle_button(grow.next);
    assert_eq!(shrink.label, "🔍−");
    assert_eq!(
        shrink.tip,
        "Switch back to the normal text size (applies to all the VENUS rust tools)"
    );
    assert_eq!(shrink.next, TextSize::Normal);
}

#[test]
fn the_color_button_switches() {
    let light = theme::toggle_button(Appearance::Dark);
    assert_eq!(light.label, "☀");
    assert_eq!(light.tip, "Switch to light colors (applies to all the VENUS rust tools)");
    assert_eq!(light.next, Appearance::Light);
    let dark = theme::toggle_button(light.next);
    assert_eq!(dark.label, "🌙");
    assert_eq!(dark.tip, "Switch to dark colors (applies to all the VENUS rust tools)");
    assert_eq!(dark.next, Appearance::Dark);
}

#[test]
fn saved_colors_are_loaded() {
    for colors in [Appearance::Dark, Appearance::Light] {
        assert_eq!(theme::load(&Some(theme::save(colors))), colors);
    }
    assert_eq!(theme::save(Appearance::Dark), "dark\n");
    assert_eq!(theme::load(&Some("Light".to_owned())), Appearance::Light);
    assert_eq!(theme::load(&Some("pale".to_owned())), Appearance::Dark);
    assert_eq!(theme::load(&None), Appearance::Dark);
}

#[test]
fn the_clock_runs() {
    assert!(epoch_now() > 1_600_000_000);
    assert_eq!(epoch_of(None), 0);
    assert_eq!(epoch_of(Some(7)), 7);
}
