use hypr_island::{palette, FrameInput, Overlay, PixelRect, Point, Rgba, GRADIENT_STEPS};

fn screen() -> PixelRect {
    PixelRect { min_x: 0, min_y: 0, max_x: 1280, max_y: 800 }
}

fn idle() -> FrameInput {
    FrameInput { container: screen(), split_pressed: false, pointer_pressed: false, pointer: None }
}

#[test]
fn first_frame_draws_the_initial_box() {
    let mut o = Overlay::new();
    let boxes = o.update(idle());
    assert_eq!(boxes.len(), 1);
    assert_eq!(boxes[0].rect, PixelRect { min_x: 10, min_y: 10, max_x: 1270, max_y: 790 });
    assert!(boxes[0].selected);
    assert_eq!(boxes[0].label, "Initial Box");
    assert_eq!(boxes[0].top, Rgba::from_rgb(255, 0, 255));
    assert_eq!(boxes[0].bottom, Rgba::from_rgb(0, 255, 255));
    assert_eq!(boxes[0].gradient.len(), GRADIENT_STEPS);
}

#[test]
fn split_then_press_selects_the_right_half() {
    let mut o = Overlay::new();
    let boxes = o.update(FrameInput { split_pressed: true, ..idle() });
    assert_eq!(boxes.len(), 2);
    assert_eq!(boxes[0].rect, PixelRect { min_x: 10, min_y: 10, max_x: 630, max_y: 790 });
    assert_eq!(boxes[1].rect, PixelRect { min_x: 650, min_y: 10, max_x: 1270, max_y: 790 });
    assert_eq!(boxes[0].label, "Box 1");
    assert_eq!(boxes[1].label, "Box 2");
    assert!(boxes[0].selected && !boxes[1].selected);
    // Hovering alone changes nothing.
    let boxes = o.update(FrameInput { pointer: Some(Point { x: 900, y: 400 }), ..idle() });
    assert!(boxes[0].selected);
    let boxes = o.update(FrameInput {
        pointer_pressed: true,
        pointer: Some(Point { x: 900, y: 400 }),
        ..idle()
    });
    assert!(!boxes[0].selected && boxes[1].selected);
    assert_eq!(boxes[0].top, Rgba::from_rgb(64, 0, 64));
    assert_eq!(boxes[1].top, Rgba::from_rgb(255, 0, 255));
    assert_eq!(o.tree().selected_index(), 1);
}

#[test]
fn press_in_the_margin_keeps_selection() {
    let mut o = Overlay::new();
    o.update(FrameInput { split_pressed: true, ..idle() });
    let boxes = o.update(FrameInput {
        pointer_pressed: true,
        pointer: Some(Point { x: 640, y: 400 }),
        ..idle()
    });
    assert!(boxes[0].selected);
}

#[test]
fn palettes() {
    assert_eq!(palette(true), (Rgba::from_rgb(255, 0, 255), Rgba::from_rgb(0, 255, 255)));
    assert_eq!(palette(false), (Rgba::from_rgb(64, 0, 64), Rgba::from_rgb(0, 64, 64)));
}
