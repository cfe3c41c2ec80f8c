use maple_timer::frame::{Bgra, Frame, Rect, RegularizedEqPixel};
use maple_timer::view_ext::{view_bounds_like, view_eq, view_regularized_eq};

fn gradient(w: u32, h: u32) -> Frame {
    let mut f = Frame::filled(w, h, Bgra { b: 0, g: 0, r: 0, a: 255 });
    for y in 0..h {
        for x in 0..w {
            f.put_pixel(x, y, Bgra { b: x as u8, g: y as u8, r: (x + y) as u8, a: 255 });
        }
    }
    f
}

#[test]
fn check_sanity() {
    let img = gradient(30, 30);
    let view = Rect { x: 0, y: 0, w: 30, h: 30 }.view(2, 2, 10, 10);
    let view = view.view(1, 1, 6, 6);
    let bounds = (view.x, view.y, view.w, view.h);
    let view2 = Rect { x: 0, y: 0, w: 30, h: 30 }.view(bounds.0, bounds.1, bounds.2, bounds.3);
    assert!(view_eq(&img, view, &img, view2));
}

#[test]
fn nested_view_is_absolute() {
    let v = Rect { x: 0, y: 0, w: 30, h: 30 }.view(2, 2, 10, 10).view(1, 1, 6, 6);
    assert_eq!(v, Rect { x: 3, y: 3, w: 6, h: 6 });
}

#[test]
fn view_eq_finds_difference() {
    let img = gradient(30, 30);
    let a = Rect { x: 0, y: 0, w: 5, h: 5 };
    let b = Rect { x: 1, y: 0, w: 5, h: 5 };
    assert!(!view_eq(&img, a, &img, b));
    assert!(view_eq(&img, a, &img, a));
}

#[test]
fn regularized_eq_skips_pixels_that_are_not_good() {
    let black = Frame::filled(4, 4, Bgra { b: 0, g: 0, r: 0, a: 255 });
    let all = Rect { x: 0, y: 0, w: 4, h: 4 };
    assert!(view_regularized_eq(&black, all, &black, all));
    // a black pixel of the first region is not compared with the second
    let img = gradient(30, 30);
    let a = Rect { x: 0, y: 0, w: 3, h: 3 };
    let mut other = img.clone();
    other.put_pixel(0, 0, Bgra { b: 9, g: 9, r: 9, a: 255 });
    assert!(view_regularized_eq(&img, a, &other, a));
    assert!(!view_eq(&img, a, &other, a));
    // a good pixel still has to match
    other.put_pixel(1, 1, Bgra { b: 9, g: 9, r: 9, a: 255 });
    assert!(!view_regularized_eq(&img, a, &other, a));
}

#[test]
fn good_pixel_rules() {
    assert!(Bgra { b: 1, g: 2, r: 3, a: 255 }.good_pixel());
    assert!(!Bgra { b: 1, g: 2, r: 3, a: 254 }.good_pixel());
    assert!(!Bgra { b: 0, g: 0, r: 0, a: 255 }.good_pixel());
    assert!(!Bgra { b: 255, g: 255, r: 255, a: 255 }.good_pixel());
    assert!(Bgra { b: 255, g: 255, r: 0, a: 255 }.good_pixel());
}

#[test]
fn grid_columns_outer_rows_inner() {
    let v = view_bounds_like(Rect { x: 5, y: 7, w: 10, h: 6 }, (4, 3), 3);
    // x in {5, 8, 11}, y in {7, 10}
    let coords: Vec<(u32, u32)> = v.iter().map(|r| (r.x, r.y)).collect();
    assert_eq!(coords, vec![(5, 7), (5, 10), (8, 7), (8, 10), (11, 7), (11, 10)]);
    assert!(v.iter().all(|r| r.w == 4 && r.h == 3));
}

#[test]
fn grid_of_exact_fit_has_one_window() {
    let v = view_bounds_like(Rect { x: 0, y: 0, w: 32, h: 32 }, (32, 32), 32);
    assert_eq!(v, vec![Rect { x: 0, y: 0, w: 32, h: 32 }]);
}

#[test]
fn frame_from_raw_checks_length() {
    assert!(Frame::from_raw(2, 2, vec![0u8; 16]).is_some());
    assert!(Frame::from_raw(2, 2, vec![0u8; 15]).is_none());
    assert!(Frame::from_raw(2, 2, vec![0u8; 20]).is_none());
    let f = Frame::from_raw(2, 1, vec![1, 2, 3, 4, 5, 6, 7, 8]).unwrap();
    assert_eq!(f.get_pixel(1, 0), Bgra { b: 5, g: 6, r: 7, a: 8 });
}
