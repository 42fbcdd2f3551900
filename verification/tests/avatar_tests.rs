use cortana::avatar::{AvatarFrame, AvatarRenderer, Rgba};

#[test]
fn new_frame_is_transparent() {
    let f = AvatarFrame::new(2, 2);
    assert_eq!(f.width(), 2);
    assert_eq!(f.height(), 2);
    assert_eq!(f.get(1, 1), Rgba::transparent());
}

#[test]
fn set_then_get_gives_the_pixel() {
    let mut f = AvatarFrame::new(3, 2);
    f.set(2, 1, Rgba::rgb(1, 2, 3));
    assert_eq!(f.get(2, 1), Rgba { r: 1, g: 2, b: 3, a: 255 });
    assert_eq!(f.get(1, 1), Rgba::transparent());
}

#[test]
fn layout_clamps_the_terminal_area() {
    assert_eq!(AvatarRenderer::frame_layout(10, 5), (24, 20, true));
    assert_eq!(AvatarRenderer::frame_layout(200, 100), (128, 84, false));
    assert_eq!(AvatarRenderer::frame_layout(80, 30), (80, 60, false));
    assert_eq!(AvatarRenderer::frame_layout(80, 20), (80, 40, true));
}

#[test]
fn halfblocks_pair_rows() {
    let mut f = AvatarFrame::new(1, 3);
    f.set(0, 0, Rgba::rgb(1, 0, 0));
    f.set(0, 1, Rgba::rgb(2, 0, 0));
    f.set(0, 2, Rgba::rgb(3, 0, 0));
    let cells = AvatarRenderer::halfblock_cells(&f);
    assert_eq!(cells.len(), 2);
    assert_eq!(cells[0][0], (Rgba::rgb(1, 0, 0), Rgba::rgb(2, 0, 0)));
    assert_eq!(cells[1][0], (Rgba::rgb(3, 0, 0), Rgba::rgb(3, 0, 0)));
}

#[test]
fn detail_sums_cover_the_neighbourhood() {
    let mut f = AvatarFrame::new(3, 3);
    f.set(1, 1, Rgba::rgb(9, 8, 7));
    f.set(0, 0, Rgba::rgb(1, 1, 1));
    let sums = AvatarRenderer::detail_sums(&f);
    assert_eq!(sums, vec![vec![(10, 9, 8)]]);
    assert!(AvatarRenderer::detail_sums(&AvatarFrame::new(2, 5)).is_empty());
}
