use markdown_viewer::render::{
    bullet_glyph, column_alignment, heading_scale_index, link_anchor, table_column_count,
    InlineFmt,
};
use markdown_viewer::ColumnAlign;

#[test]
fn test_inline_fmt_merge() {
    let a = InlineFmt { bold: true, ..InlineFmt::default() };
    let b = InlineFmt { italic: true, ..InlineFmt::default() };
    let merged = a.merge(b);
    assert!(merged.bold);
    assert!(merged.italic);
    assert!(!merged.strikethrough);
}

#[test]
fn test_handle_anchor_link() {
    assert_eq!(link_anchor("#introduction"), Some("introduction".to_string()));
}

#[test]
fn test_handle_external_link_no_anchor_click() {
    assert!(link_anchor("https://example.com").is_none());
}

#[test]
fn merge_composes_in_any_order() {
    let a = InlineFmt { bold: true, ..InlineFmt::default() };
    let b = InlineFmt { strikethrough: true, is_link: true, ..InlineFmt::default() };
    let c = InlineFmt { italic: true, ..InlineFmt::default() };
    assert_eq!(a.merge(b), b.merge(a));
    assert_eq!(a.merge(b).merge(c), a.merge(b.merge(c)));
    assert_eq!(a.merge(a), a);
    assert_eq!(a.merge(InlineFmt::default()), a);
    let all = a.merge(b).merge(c);
    assert!(all.bold && all.italic && all.strikethrough && all.is_link);
}

#[test]
fn anchor_of_bare_hash_and_unicode() {
    assert_eq!(link_anchor("#"), Some(String::new()));
    assert_eq!(link_anchor("#über-uns"), Some("über-uns".to_string()));
    assert_eq!(link_anchor(""), None);
    assert_eq!(link_anchor("page.md#part"), None);
}

#[test]
fn heading_scale_index_per_level() {
    assert_eq!(heading_scale_index(0), 0);
    assert_eq!(heading_scale_index(1), 0);
    assert_eq!(heading_scale_index(2), 1);
    assert_eq!(heading_scale_index(6), 5);
    assert_eq!(heading_scale_index(7), 5);
    assert_eq!(heading_scale_index(255), 5);
}

#[test]
fn bullet_glyph_cycles_by_depth() {
    assert_eq!(bullet_glyph(0), "•");
    assert_eq!(bullet_glyph(1), "◦");
    assert_eq!(bullet_glyph(2), "▸");
    assert_eq!(bullet_glyph(3), "•");
    assert_eq!(bullet_glyph(7), "◦");
}

#[test]
fn table_column_count_takes_widest_row() {
    let headers = vec![1, 2];
    let rows: Vec<Vec<u8>> = vec![vec![1], vec![1, 2, 3], vec![]];
    assert_eq!(table_column_count(&headers, &rows), 3);
    let no_headers: Vec<u8> = vec![];
    let no_rows: Vec<Vec<u8>> = vec![];
    assert_eq!(table_column_count(&no_headers, &no_rows), 0);
    assert_eq!(table_column_count(&vec![1, 2, 3, 4], &vec![vec![0u8]]), 4);
}

#[test]
fn column_alignment_past_declared_is_unaligned() {
    let aligns = vec![ColumnAlign::Left, ColumnAlign::Center];
    assert_eq!(column_alignment(&aligns, 0), ColumnAlign::Left);
    assert_eq!(column_alignment(&aligns, 1), ColumnAlign::Center);
    assert_eq!(column_alignment(&aligns, 2), ColumnAlign::Unaligned);
}
