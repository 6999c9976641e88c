use native_terminal::cursor::{batch_by_color, CursorRect};

fn rect(x: u32, width: u32, color: (u8, u8, u8)) -> CursorRect {
    CursorRect { x, y: 0, width, height: 10, color }
}

#[test]
fn batches_by_color() {
    let red = (255, 0, 0);
    let blue = (0, 0, 255);
    let mut rects = vec![rect(0, 1, red), rect(1, 1, blue), rect(2, 1, red), rect(3, 0, blue)];
    let batches = batch_by_color(&mut rects);
    assert_eq!(batches.len(), 2);
    assert_eq!(batches[0].color, blue);
    assert_eq!(batches[0].rects.len(), 1);
    assert_eq!(batches[0].rects[0].x, 1);
    assert_eq!(batches[1].color, red);
    let mut xs: Vec<u32> = batches[1].rects.iter().map(|r| r.x).collect();
    xs.sort();
    assert_eq!(xs, [0, 2]);
    let colors: Vec<_> = rects.iter().map(|r| r.color).collect();
    assert_eq!(colors, [blue, blue, red, red]);
}

#[test]
fn colors_are_ordered_by_red_green_blue() {
    let mut rects = vec![rect(0, 1, (1, 0, 0)), rect(1, 1, (0, 1, 9)), rect(2, 1, (0, 1, 8))];
    let batches = batch_by_color(&mut rects);
    let colors: Vec<_> = batches.iter().map(|b| b.color).collect();
    assert_eq!(colors, [(0, 1, 8), (0, 1, 9), (1, 0, 0)]);
}

#[test]
fn color_order_is_that_of_the_float_bits() {
    for a in 0..=255u8 {
        for b in 0..=255u8 {
            let bits = |v: u8| (v as f32 / 255.0).to_bits();
            assert_eq!(a.cmp(&b), bits(a).cmp(&bits(b)));
        }
    }
}

#[test]
fn nothing_to_draw_leaves_the_order() {
    let mut rects = vec![rect(0, 0, (9, 9, 9)), rect(1, 0, (1, 1, 1))];
    rects[1].height = 0;
    assert!(batch_by_color(&mut rects).is_empty());
    assert_eq!(rects[0].color, (9, 9, 9));
    assert!(batch_by_color(&mut Vec::new()).is_empty());
}
