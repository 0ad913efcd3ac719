use rsaver::layout::{
    format_help_row, header_button_bounds, help_desc_width, list_window, recommended_min_size,
    selected_position, ButtonRect,
};

#[test]
fn test_recommended_min_size() {
    assert_eq!(recommended_min_size(96), (60, 25));
    assert_eq!(recommended_min_size(144), (90, 38));
    assert_eq!(recommended_min_size(192), (120, 50));
}

#[test]
fn recommended_min_size_small_and_huge_dpi() {
    assert_eq!(recommended_min_size(0), (0, 0));
    assert_eq!(recommended_min_size(120), (75, 31));
    assert_eq!(recommended_min_size(u32::MAX), (u16::MAX, u16::MAX));
}

#[test]
fn test_button_rect_new() {
    let br = ButtonRect::new(5, 10, 20);
    assert_eq!(br.y, 5);
    assert_eq!(br.x_start, 10);
    assert_eq!(br.x_end, 20);
}

#[test]
fn test_button_rect_contains_inside() {
    let br = ButtonRect::new(5, 10, 20);
    assert!(br.contains(5, 10));
    assert!(br.contains(5, 15));
    assert!(br.contains(5, 19));
}

#[test]
fn test_button_rect_contains_outside_x() {
    let br = ButtonRect::new(5, 10, 20);
    assert!(!br.contains(5, 9));
    assert!(!br.contains(5, 20));
    assert!(!br.contains(5, 25));
}

#[test]
fn test_button_rect_contains_outside_y() {
    let br = ButtonRect::new(5, 10, 20);
    assert!(!br.contains(4, 15));
    assert!(!br.contains(6, 15));
}

#[test]
fn test_format_help_row_empty_desc() {
    let rows = format_help_row("Ctrl-Q", "", 20);
    assert_eq!(rows.len(), 1);
    let row = &rows[0];
    assert!(row.key.contains("Ctrl-Q"));
    assert_eq!(row.desc, "");
}

#[test]
fn test_format_help_row_single_line() {
    let rows = format_help_row("Tab", "Cycle focus", 20);
    assert_eq!(rows.len(), 1);
    assert_eq!(rows[0].desc, "Cycle focus");
}

#[test]
fn test_format_help_row_multi_line() {
    let rows = format_help_row("Enter", "Select screensaver action from the list", 10);
    assert!(rows.len() > 1);
}

#[test]
fn format_help_row_layout() {
    let rows = format_help_row("Enter", "Select screensaver action", 10);
    assert_eq!(rows[0].key, format!("{:<18}", "Enter"));
    assert_eq!(rows[0].sep, ": ");
    assert_eq!(rows[0].desc, "Select");
    assert_eq!(rows[1].key, " ".repeat(18));
    assert_eq!(rows[1].sep, "  ");
    assert_eq!(rows[1].desc, "screensave");
    assert_eq!(rows[2].desc, "r");
    assert_eq!(rows[3].desc, "action");
}

#[test]
fn help_desc_width_values() {
    assert_eq!(help_desc_width(100), 78);
    assert_eq!(help_desc_width(22), 0);
    assert_eq!(help_desc_width(5), 0);
}

#[test]
fn list_window_keeps_selection_visible() {
    assert_eq!(list_window(0, 0, 5, 10), (0, 0, 5));
    assert_eq!(list_window(7, 0, 5, 10), (3, 3, 8));
    assert_eq!(list_window(2, 4, 5, 10), (2, 2, 7));
    assert_eq!(list_window(9, 8, 5, 10), (5, 5, 10));
    assert_eq!(list_window(1, 3, 5, 3), (0, 0, 3));
}

#[test]
fn list_window_every_selection_is_shown() {
    for total in 1..12usize {
        for visible in 1..6usize {
            for offset in 0..12usize {
                for sel in 0..total {
                    let (o, start, end) = list_window(sel, offset, visible, total);
                    assert_eq!(o, start);
                    assert!(start <= sel && sel < end && end <= total && end - start <= visible);
                }
            }
        }
    }
}

#[test]
fn selected_position_finds_or_defaults() {
    assert_eq!(selected_position(&[3, 5, 8], 5), 1);
    assert_eq!(selected_position(&[3, 5, 8], 4), 0);
    assert_eq!(selected_position(&[], 4), 0);
}

#[test]
fn header_buttons_right_aligned_or_following() {
    let (help, quit) = header_button_bounds(0, 0, 120, 40);
    assert_eq!(help, ButtonRect::new(1, 104, 110));
    assert_eq!(quit, ButtonRect::new(1, 113, 119));
    let (help, quit) = header_button_bounds(2, 3, 50, 40);
    assert_eq!(help, ButtonRect::new(4, 46, 52));
    assert_eq!(quit, ButtonRect::new(4, 55, 61));
}

#[test]
fn test_centered_rect_basic() {
    let area = rsaver::layout::Rect { x: 0, y: 0, width: 100, height: 100 };
    let centered = rsaver::layout::centered_rect(50, 50, area);
    assert_eq!(centered.x, 25);
    assert_eq!(centered.y, 25);
    assert_eq!(centered.width, 50);
    assert_eq!(centered.height, 50);
}

#[test]
fn centered_rect_offset_area() {
    let area = rsaver::layout::Rect { x: 10, y: 4, width: 80, height: 40 };
    let c = rsaver::layout::centered_rect(100, 100, area);
    assert_eq!(c, area);
}
