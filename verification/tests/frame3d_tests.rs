use ploot::frame3d::{draw_frame3d, frame3d_canvas_size};
use ploot::text::TextGrid;

#[test]
fn canvas_size_of_3d_plot() {
    assert_eq!(frame3d_canvas_size(60, 20, true, true), (58, 16));
    assert_eq!(frame3d_canvas_size(60, 20, false, false), (58, 18));
    assert_eq!(frame3d_canvas_size(1, 2, true, false), (1, 1));
}

#[test]
fn border_around_canvas() {
    let mut g = TextGrid::new(6, 5);
    draw_frame3d(&mut g, 1, 4, 2);
    let expected = ["      ", "┌────┐", "│    │", "│    │", "└────┘"].join("\n");
    assert_eq!(g.render_plain(), expected);
}

#[test]
fn border_clamped_to_grid() {
    let mut g = TextGrid::new(4, 3);
    draw_frame3d(&mut g, 0, 6, 5);
    // the clamped right column and bottom row are drawn over by the edges that follow
    let expected = ["┌───", "│  │", "│──│"].join("\n");
    assert_eq!(g.render_plain(), expected);
}
