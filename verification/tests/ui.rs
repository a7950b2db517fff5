use ajemi::conf::Color;
use ajemi::ui::candidate_list::{
    can_layout, font_height, index_font_height, index_suffix, layout, list_position, normal_position, paint, Draw, Size,
};

fn sizes(v: &[(i32, i32)]) -> Vec<Size> {
    v.iter().map(|&(cx, cy)| Size { cx, cy }).collect()
}

fn colors() -> Color {
    Color { candidate: 1, index: 2, background: 3, clip: 4, highlight: 5, highlighted: 6 }
}

#[test]
fn font_heights() {
    assert_eq!(font_height(20, 96), 26);
    assert_eq!(font_height(-20, 96), -26);
    assert_eq!(index_font_height(26), 18);
}

#[test]
fn index_suffixes() {
    assert_eq!(index_suffix("sitelen seli kiwen juniko"), ". ");
    assert_eq!(index_suffix("Fairfax HD"), ".");
    assert_eq!(index_suffix("Noto Sans MONO"), ".");
    assert_eq!(index_suffix("mon"), ". ");
}

#[test]
fn horizontal_layout() {
    let a = layout(&sizes(&[(10, 8), (12, 9)]), &sizes(&[(20, 16), (30, 14)]), false);
    assert_eq!(a.index_width, 12);
    assert_eq!(a.index_height, 9);
    assert_eq!(a.candi_height, 16);
    assert_eq!(a.row_height, 16);
    assert_eq!(a.label_height, 20);
    assert_eq!(a.wnd_height, 20);
    // clip 3, then two labels of 3 + 12 + width + 4
    assert_eq!(a.wnd_width, 3 + (3 + 12 + 20 + 4) + (3 + 12 + 30 + 4));
    assert_eq!(a.highlight_width, 3 + 12 + 20 + 4);
    assert_eq!(a.candi_widths, vec![20, 30]);
}

#[test]
fn vertical_layout() {
    let a = layout(&sizes(&[(10, 8), (12, 9)]), &sizes(&[(20, 16), (30, 14)]), true);
    assert_eq!(a.wnd_height, 40);
    assert_eq!(a.wnd_width, 3 + 3 + 12 + 30 + 4);
    assert_eq!(a.highlight_width, a.wnd_width - 3);
    let tall = layout(&sizes(&[(1, 100); 5]), &sizes(&[(1, 100); 5]), true);
    // the list is kept at least four fifths as wide as it is tall
    assert_eq!(tall.wnd_height, 5 * 104);
    assert_eq!(tall.wnd_width, 5 * 104 * 4 / 5);
}

#[test]
fn painting_a_row() {
    let a = layout(&sizes(&[(10, 8), (12, 9)]), &sizes(&[(20, 16), (30, 14)]), false);
    let plan = paint(&a, &colors(), false);
    assert_eq!(plan.len(), 3 + 4);
    match &plan[0] {
        Draw::Fill { x, y, width, height, color } => {
            assert_eq!((*x, *y, *width, *height, *color), (0, 0, a.wnd_width, 20, 3))
        },
        _ => panic!(),
    }
    match &plan[2] {
        Draw::Fill { x, width, color, .. } => assert_eq!((*x, *width, *color), (3, a.highlight_width, 5)),
        _ => panic!(),
    }
    match &plan[3] {
        Draw::Text { x, y, item, index, color } => assert_eq!((*x, *y, *item, *index, *color), (6, 2 + 3, 0, true, 2)),
        _ => panic!(),
    }
    match &plan[4] {
        Draw::Text { x, y, item, index, color } => assert_eq!((*x, *y, *item, *index, *color), (18, 2, 0, false, 6)),
        _ => panic!(),
    }
    match &plan[6] {
        Draw::Text { x, y, item, index, color } => {
            assert_eq!((*x, *y, *item, *index, *color), (18 + 12 + 20 + 7, 2, 1, false, 1))
        },
        _ => panic!(),
    }
}

#[test]
fn painting_a_column() {
    let a = layout(&sizes(&[(10, 8), (12, 9)]), &sizes(&[(20, 16), (30, 14)]), true);
    let plan = paint(&a, &colors(), true);
    match &plan[5] {
        Draw::Text { x, y, item, .. } => assert_eq!((*x, *y, *item), (6, 2 + 3 + 20, 1)),
        _ => panic!(),
    }
}

#[test]
fn positions() {
    assert_eq!(list_position(100, 200), (102, 202));
    assert_eq!(normal_position(0, 0), None);
    assert_eq!(normal_position(-5, 0), None);
    assert_eq!(normal_position(0, 7), Some((0, 7)));
}

#[test]
fn layouts_that_fit() {
    let i = sizes(&[(10, 8), (12, 9)]);
    let c = sizes(&[(20, 16), (30, 14)]);
    assert!(can_layout(&i, &c, false));
    assert!(can_layout(&i, &c, true));
    assert!(!can_layout(&sizes(&[]), &sizes(&[]), false));
    assert!(!can_layout(&sizes(&[(10, 8)]), &c, false));
    assert!(!can_layout(&sizes(&[(10, -1), (12, 9)]), &c, false));
    // a row as wide as the coordinates go
    let wide = sizes(&[(0, 1), (0, 1)]);
    assert!(!can_layout(&wide, &sizes(&[(i32::MAX / 2, 1), (i32::MAX / 2, 1)]), false));
    assert!(can_layout(&wide, &sizes(&[(i32::MAX / 2, 1), (i32::MAX / 2, 1)]), true));
    // a column too tall for the coordinates
    assert!(!can_layout(&wide, &sizes(&[(1, i32::MAX / 4), (1, 1)]), true));
    assert!(can_layout(&wide, &sizes(&[(1, i32::MAX / 4), (1, 1)]), false));
    assert!(!can_layout(&wide, &sizes(&[(1, i32::MAX), (1, 1)]), false));
    assert!(can_layout(&wide, &sizes(&[(1, 100), (1, 1)]), true));
}
