use markdown_viewer::config::{
    add_recent_file, apply_dark_theme, apply_light_theme, reset_colors, MAX_RECENT_FILES,
};
use markdown_viewer::{ColorConfig, ContentWidth, ThemeMode};

#[test]
fn test_default_config_has_dark_theme() {
    let theme = ThemeMode::default();
    assert_eq!(theme, ThemeMode::Dark);
}

#[test]
fn test_add_recent_files_deduplicates() {
    let mut recent: Vec<String> = Vec::new();
    let path = String::from("/tmp/test.md");
    add_recent_file(&mut recent, path.clone());
    add_recent_file(&mut recent, path.clone());
    assert_eq!(recent.len(), 1);
}

#[test]
fn test_add_recent_files_limits_to_ten() {
    let mut recent: Vec<String> = Vec::new();
    for i in 0..15 {
        add_recent_file(&mut recent, format!("/tmp/file{}.md", i));
    }
    assert_eq!(recent.len(), 10);
}

#[test]
fn test_add_recent_file_moves_to_front() {
    let mut recent: Vec<String> = Vec::new();
    add_recent_file(&mut recent, String::from("/tmp/a.md"));
    add_recent_file(&mut recent, String::from("/tmp/b.md"));
    add_recent_file(&mut recent, String::from("/tmp/a.md")); // re-add
    assert_eq!(recent[0], "/tmp/a.md");
    assert_eq!(recent.len(), 2);
}

#[test]
fn test_apply_light_theme_changes_colors() {
    let mut theme = ThemeMode::default();
    let mut colors = ColorConfig::default();
    apply_light_theme(&mut theme, &mut colors);
    assert_eq!(theme, ThemeMode::Light);
    // Light background should be bright
    let bg = colors.background;
    assert!(bg[0] > 200 && bg[1] > 200 && bg[2] > 200);
}

#[test]
fn recent_files_keep_newest_first_and_drop_oldest() {
    let mut recent: Vec<String> = Vec::new();
    for i in 0..12 {
        add_recent_file(&mut recent, format!("/docs/n{}.md", i));
    }
    assert_eq!(recent.len(), MAX_RECENT_FILES);
    assert_eq!(recent[0], "/docs/n11.md");
    assert_eq!(recent[9], "/docs/n2.md");
    assert!(!recent.iter().any(|p| p == "/docs/n0.md" || p == "/docs/n1.md"));
}

#[test]
fn recent_files_treat_equivalent_paths_as_one() {
    // `Path` equality compares components, so a doubled slash names the same file.
    let mut recent: Vec<String> = vec![String::from("/tmp//a.md"), String::from("/tmp/b.md")];
    add_recent_file(&mut recent, String::from("/tmp/a.md"));
    assert_eq!(recent, vec![String::from("/tmp/a.md"), String::from("/tmp/b.md")]);
}

#[test]
fn recent_files_keep_no_path_twice() {
    let mut recent: Vec<String> = Vec::new();
    for p in ["/x/a.md", "/x/b.md", "/x/a.md", "/x/c.md", "/x/b.md"] {
        add_recent_file(&mut recent, String::from(p));
    }
    assert_eq!(recent, vec!["/x/b.md", "/x/c.md", "/x/a.md"]);
}

#[test]
fn dark_palette_is_the_default() {
    let c = ColorConfig::default();
    assert_eq!(c.background, [30, 30, 46]);
    assert_eq!(c.surface, [49, 50, 68]);
    assert_eq!(c.text, [205, 214, 244]);
    assert_eq!(c.heading, [137, 180, 250]);
    assert_eq!(c.link, [137, 220, 235]);
    assert_eq!(c.code_bg, [49, 50, 68]);
    assert_eq!(c.code_text, [166, 227, 161]);
    assert_eq!(c.blockquote_border, [108, 112, 134]);
    assert_eq!(c.blockquote_bg, [40, 41, 56]);
    assert_eq!(c.hr_color, [108, 112, 134]);
}

#[test]
fn light_palette_values() {
    let c = ColorConfig::light_defaults();
    assert_eq!(c.background, [250, 249, 247]);
    assert_eq!(c.text, [40, 36, 32]);
    assert_eq!(c.heading, [20, 100, 180]);
    assert_eq!(c.link, [0, 120, 180]);
    assert_eq!(c.hr_color, [200, 190, 180]);
}

#[test]
fn dark_theme_restores_default_palette() {
    let mut theme = ThemeMode::Custom;
    let mut colors = ColorConfig::light_defaults();
    apply_dark_theme(&mut theme, &mut colors);
    assert_eq!(theme, ThemeMode::Dark);
    assert_eq!(colors.background, ColorConfig::default().background);
    assert_eq!(colors.text, ColorConfig::default().text);
}

#[test]
fn content_width_defaults_to_medium() {
    assert_eq!(ContentWidth::default(), ContentWidth::Medium);
}

#[test]
fn content_width_limits_grow_and_full_is_unbounded() {
    assert_eq!(ContentWidth::Narrow.max_width_px(), Some(600));
    assert_eq!(ContentWidth::Medium.max_width_px(), Some(800));
    assert_eq!(ContentWidth::Wide.max_width_px(), Some(1100));
    assert_eq!(ContentWidth::Full.max_width_px(), None);
    assert_eq!(ContentWidth::Narrow.label(), "Narrow (600px)");
    assert_eq!(ContentWidth::Full.label(), "Full Width");
}

#[test]
fn reset_colors_follows_the_theme() {
    let mut theme = ThemeMode::Light;
    let mut colors = ColorConfig::default();
    colors.text = [1, 2, 3];
    reset_colors(&mut theme, &mut colors);
    assert_eq!(theme, ThemeMode::Light);
    assert_eq!(colors.background, [250, 249, 247]);
    assert_eq!(colors.text, [40, 36, 32]);

    let mut theme = ThemeMode::Custom;
    let mut colors = ColorConfig::light_defaults();
    reset_colors(&mut theme, &mut colors);
    assert_eq!(theme, ThemeMode::Dark);
    assert_eq!(colors.background, [30, 30, 46]);
}

#[test]
fn test_content_width_pixels() {
    let px = |w: ContentWidth| w.max_width_px().unwrap();
    assert!(px(ContentWidth::Narrow) < px(ContentWidth::Medium));
    assert!(px(ContentWidth::Medium) < px(ContentWidth::Wide));
    // Full width has no limit.
    assert_eq!(ContentWidth::Full.max_width_px(), None);
}

#[test]
fn test_content_width_constrains_rendering() {
    let narrow = ContentWidth::Narrow.max_width_px().unwrap();
    let wide = ContentWidth::Wide.max_width_px().unwrap();
    assert!(narrow < wide);
}

#[test]
fn reopening_the_latest_file_changes_nothing() {
    let mut recent: Vec<String> = Vec::new();
    for p in ["/r/a.md", "/r/b.md", "/r/c.md"] {
        add_recent_file(&mut recent, String::from(p));
    }
    let before = recent.clone();
    add_recent_file(&mut recent, String::from("/r/c.md"));
    assert_eq!(recent, before);
}
