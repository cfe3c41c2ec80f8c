use maple_timer::agent::find_first_match;
use maple_timer::buff::{buff_edges, BuffMatcher};
use maple_timer::frame::{Bgra, Frame, Rect};
use maple_timer::jinhillah::{
    find_color, reap_template, JinHillahHpMatchResult, JinHillahHpMatcher, JinHillahReapMatcher,
    MAX_PIXELS,
};
use maple_timer::matcher::{BoundsCachedMatcher, Matcher};

const BG: Bgra = Bgra { b: 1, g: 1, r: 1, a: 255 };
const PHASE0: (Bgra, Bgra) = (Bgra { b: 102, g: 68, r: 204, a: 255 }, Bgra { b: 102, g: 68, r: 187, a: 255 });
const PHASE1: (Bgra, Bgra) = (Bgra { b: 153, g: 102, r: 238, a: 255 }, Bgra { b: 153, g: 102, r: 221, a: 255 });
const PHASE2: (Bgra, Bgra) = (Bgra { b: 34, g: 170, r: 170, a: 255 }, Bgra { b: 17, g: 153, r: 136, a: 255 });

fn paint_bar(f: &mut Frame, from: u32, to: u32, pair: (Bgra, Bgra)) {
    for x in from..to {
        f.put_pixel(x, 9, pair.0);
        f.put_pixel(x, 10, pair.1);
    }
}

fn paint_end(f: &mut Frame, pair: (Bgra, Bgra)) {
    f.put_pixel(796, 8, pair.0);
    f.put_pixel(796, 9, pair.1);
}

fn small_icon() -> Frame {
    let mut icon = Frame::filled(4, 2, BG);
    for x in 0..4 {
        icon.put_pixel(x, 0, Bgra { b: 10 * x as u8, g: 20, r: 30, a: 255 });
    }
    icon
}

#[test]
fn hp_single_transition_reads_level_and_offset() {
    let mut f = Frame::filled(800, 37, BG);
    paint_bar(&mut f, 40, 400, PHASE0);
    paint_bar(&mut f, 400, 796, PHASE1);
    paint_end(&mut f, PHASE1);
    let m = JinHillahHpMatcher::new(small_icon());
    let r = m.match_image(&f, Rect { x: 0, y: 0, w: 800, h: 37 });
    assert_eq!(r, Some(JinHillahHpMatchResult { level: 1, remaining_pixels: 360 }));
}

#[test]
fn hp_two_transitions_rejected() {
    let mut f = Frame::filled(800, 37, BG);
    paint_bar(&mut f, 40, 400, PHASE0);
    paint_bar(&mut f, 400, 600, PHASE1);
    paint_bar(&mut f, 600, 796, PHASE2);
    paint_end(&mut f, PHASE2);
    let m = JinHillahHpMatcher::new(small_icon());
    assert_eq!(m.match_image(&f, Rect { x: 0, y: 0, w: 800, h: 37 }), None);
}

#[test]
fn hp_uniform_bar_is_full() {
    let mut f = Frame::filled(800, 37, BG);
    paint_bar(&mut f, 40, 796, PHASE2);
    paint_end(&mut f, PHASE2);
    let m = JinHillahHpMatcher::new(small_icon());
    let r = m.match_image(&f, Rect { x: 0, y: 0, w: 800, h: 37 }).unwrap();
    assert_eq!(r, JinHillahHpMatchResult { level: 2, remaining_pixels: MAX_PIXELS });
    assert_eq!(MAX_PIXELS, 757);
    assert_eq!(r.phase(), 2);
}

#[test]
fn hp_phase_of_level_zero_is_one() {
    assert_eq!(JinHillahHpMatchResult { level: 0, remaining_pixels: 5 }.phase(), 1);
    assert_eq!(JinHillahHpMatchResult { level: 4, remaining_pixels: 5 }.phase(), 4);
}

#[test]
fn hp_find_color_indices() {
    assert_eq!(find_color(PHASE0), 0);
    assert_eq!(find_color(PHASE1), 1);
    assert_eq!(find_color(PHASE2), 2);
    assert_eq!(find_color((PHASE0.1, PHASE0.0)), 4);
    assert_eq!(find_color((BG, BG)), 4);
}

#[test]
fn hp_check_anchors_on_icon() {
    let icon = small_icon();
    let mut f = Frame::filled(810, 37, BG);
    for y in 0..2 {
        for x in 0..4 {
            f.put_pixel(7 + 3 + x, 3 + y, icon.get_pixel(x, y));
        }
    }
    let mut m = JinHillahHpMatcher::new(icon);
    assert!(m.fits_frame(&f));
    let c = m.candidates_iter(&f);
    assert_eq!(c.len(), 11);
    assert_eq!(c[7], Rect { x: 7, y: 0, w: 800, h: 37 });
    assert!(c.iter().enumerate().all(|(k, r)| *r == Rect { x: k as u32, y: 0, w: 800, h: 37 }));
    assert!(m.check(&f, c[7]));
    assert!(!m.check(&f, c[6]));
    assert_eq!(m.view_dimensions(), (800, 37));
}

#[test]
fn candidates_are_restartable() {
    let f = Frame::filled(810, 40, BG);
    let m = JinHillahHpMatcher::new(small_icon());
    assert_eq!(m.candidates_iter(&f), m.candidates_iter(&f));
    let b = BuffMatcher::new(buff_icon(), vec![(0, 0)], 800, (1280, 720));
    let g = Frame::filled(200, 150, BG);
    assert_eq!(b.candidates_iter(&g), b.candidates_iter(&g));
}

#[test]
fn bounds_cached_yields_single_candidate_after_check() {
    let icon = small_icon();
    let mut f = Frame::filled(810, 37, BG);
    for y in 0..2 {
        for x in 0..4 {
            f.put_pixel(4 + 3 + x, 3 + y, icon.get_pixel(x, y));
        }
    }
    let mut m = BoundsCachedMatcher::new(JinHillahHpMatcher::new(icon));
    assert_eq!(m.candidates_iter(&f).len(), 11);
    let found = find_first_match(&mut m, &f);
    assert!(found.is_some());
    assert_eq!(m.cache, Some(Rect { x: 4, y: 0, w: 800, h: 37 }));
    let g = Frame::filled(900, 40, BG);
    assert!(m.fits_frame(&g));
    assert_eq!(m.candidates_iter(&g), vec![Rect { x: 4, y: 0, w: 800, h: 37 }]);
}

#[test]
fn bounds_cached_keeps_scanning_without_success() {
    let f = Frame::filled(810, 37, BG);
    let mut m = BoundsCachedMatcher::new(JinHillahHpMatcher::new(small_icon()));
    assert_eq!(find_first_match(&mut m, &f), None);
    assert_eq!(m.cache, None);
    assert_eq!(m.candidates_iter(&f).len(), 11);
}

fn buff_icon() -> Frame {
    let mut icon = Frame::filled(32, 32, BG);
    for y in 0..32u32 {
        for x in 0..32u32 {
            let a = if (x + y) % 7 == 0 { 0 } else { 255 };
            icon.put_pixel(
                x,
                y,
                Bgra { b: (x * 7 + y) as u8, g: (x * 3 + 2 * y) as u8, r: (255 - x * 5) as u8, a },
            );
        }
    }
    icon
}

fn place(f: &mut Frame, icon: &Frame, at: Rect) {
    for y in 0..icon.height {
        for x in 0..icon.width {
            f.put_pixel(at.x + x, at.y + y, icon.get_pixel(x, y));
        }
    }
}

#[test]
fn buff_accepts_its_own_icon_at_full_threshold() {
    let icon = buff_icon();
    let m = BuffMatcher::new(icon.clone(), vec![], 1000, (200, 150));
    let mut f = Frame::filled(200, 150, BG);
    let cands = m.candidates_iter(&f);
    let at = cands[3];
    place(&mut f, &icon, at);
    assert_eq!(m.match_image(&f, at), Some(()));
    // pixels where the icon is transparent are not compared
    f.put_pixel(at.x, at.y, Bgra { b: 200, g: 9, r: 40, a: 255 });
    assert_eq!(icon.get_pixel(0, 0).a, 0);
    assert_eq!(m.match_image(&f, at), Some(()));
}

#[test]
fn buff_rejects_other_content() {
    let icon = buff_icon();
    let m = BuffMatcher::new(icon.clone(), vec![], 800, (200, 150));
    let mut f = Frame::filled(200, 150, BG);
    let at = m.candidates_iter(&f)[0];
    for y in 0..32 {
        for x in 0..32 {
            f.put_pixel(at.x + x, at.y + y, icon.get_pixel(31 - x, y));
        }
    }
    assert_eq!(m.match_image(&f, at), None);
}

#[test]
fn buff_constant_region_counts_as_no_correlation() {
    let icon = buff_icon();
    let f = Frame::filled(200, 150, BG);
    let at = Rect { x: 0, y: 0, w: 32, h: 32 };
    assert_eq!(BuffMatcher::new(icon.clone(), vec![], 1, (200, 150)).match_image(&f, at), None);
    assert_eq!(BuffMatcher::new(icon, vec![], 0, (200, 150)).match_image(&f, at), Some(()));
}

#[test]
fn buff_candidates_tile_two_bands() {
    let m = BuffMatcher::new(buff_icon(), vec![], 800, (1280, 720));
    let f = Frame::filled(100, 150, BG);
    let c = m.candidates_iter(&f);
    // x0 = 97 % 32 = 1: columns 1, 33, 65; band at 3 of height 147: rows 3, 35, 67, 99;
    // band at 81 of height 69: rows 81, 113
    assert_eq!(c.len(), 3 * 4 + 3 * 2);
    assert_eq!(c[0], Rect { x: 1, y: 3, w: 32, h: 32 });
    assert_eq!(c[1], Rect { x: 1, y: 35, w: 32, h: 32 });
    assert_eq!(c[4], Rect { x: 33, y: 3, w: 32, h: 32 });
    assert_eq!(c[12], Rect { x: 1, y: 81, w: 32, h: 32 });
    assert_eq!(c[17], Rect { x: 65, y: 113, w: 32, h: 32 });
    assert_eq!(m.view_dimensions(), (1280, 720));
}

#[test]
fn buff_edges_are_opaque_positions_in_row_order() {
    let mut e = Frame::filled(3, 2, Bgra { b: 0, g: 0, r: 0, a: 0 });
    e.put_pixel(2, 0, Bgra { b: 0, g: 0, r: 0, a: 255 });
    e.put_pixel(0, 1, Bgra { b: 9, g: 9, r: 9, a: 255 });
    e.put_pixel(1, 1, Bgra { b: 9, g: 9, r: 9, a: 254 });
    assert_eq!(buff_edges(&e), vec![(2, 0), (0, 1)]);
}

#[test]
fn buff_check_counts_outline_failures() {
    let edges = vec![(0, 0), (1, 0), (2, 0)];
    let mut m = BuffMatcher::new(buff_icon(), edges, 800, (200, 150));
    let mut f = Frame::filled(200, 150, Bgra { b: 10, g: 20, r: 50, a: 255 });
    let at = Rect { x: 10, y: 10, w: 32, h: 32 };
    assert!(m.check(&f, at));
    // one failure of three is not more than a third
    f.put_pixel(11, 10, Bgra { b: 51, g: 0, r: 0, a: 255 });
    assert!(m.check(&f, at));
    // two of three are
    f.put_pixel(12, 10, Bgra { b: 0, g: 0, r: 0, a: 200 });
    assert!(!m.check(&f, at));
}

fn motion_picture(seed: u8) -> Frame {
    let mut p = Frame::filled(20, 16, BG);
    for y in 0..16u32 {
        for x in 0..20u32 {
            p.put_pixel(x, y, Bgra { b: seed.wrapping_add((x * 11) as u8), g: (y * 13) as u8, r: 77, a: 255 });
        }
    }
    p
}

#[test]
fn reap_template_takes_the_centre_doubled() {
    let p = motion_picture(3);
    let t = reap_template(&p);
    assert_eq!((t.image.width, t.image.height), (20, 16));
    assert_eq!(t.image.get_pixel(0, 0), p.get_pixel(5, 4));
    assert_eq!(t.image.get_pixel(7, 9), p.get_pixel(3 + 5, 4 + 4));
    assert_eq!(t.image.get_pixel(19, 15), p.get_pixel(9 + 5, 7 + 4));
    assert_eq!(t.good_pixels, 20 * 16);
}

#[test]
fn reap_finds_its_own_motion_at_the_centre() {
    let t0 = reap_template(&motion_picture(3));
    let t1 = reap_template(&motion_picture(100));
    let img1 = t1.image.clone();
    let m = JinHillahReapMatcher::new(40, 32, vec![t0, t1]);
    let mut f = Frame::filled(40, 32, BG);
    place(&mut f, &img1, Rect { x: 10, y: 8, w: 20, h: 16 });
    let c = m.candidates_iter(&f);
    assert_eq!(c.len(), 25);
    assert_eq!(c[0], Rect { x: 8, y: 6, w: 20, h: 16 });
    assert_eq!(c[12], Rect { x: 10, y: 8, w: 20, h: 16 });
    assert_eq!(m.match_image(&f, c[12]), Some(1));
    assert_eq!(m.view_dimensions(), (20, 16));
}

#[test]
fn reap_tolerates_a_few_differences() {
    let t0 = reap_template(&motion_picture(3));
    let img0 = t0.image.clone();
    let mut m = JinHillahReapMatcher::new(40, 32, vec![t0]);
    let mut f = Frame::filled(40, 32, BG);
    place(&mut f, &img0, Rect { x: 10, y: 8, w: 20, h: 16 });
    // budget: 3 * 320 / 10 = 96 bad pixels exhaust it; 95 do not
    for k in 0..95u32 {
        f.put_pixel(10 + k % 20, 8 + k / 20, Bgra { b: 0, g: 0, r: 0, a: 255 });
    }
    let r = Rect { x: 10, y: 8, w: 20, h: 16 };
    assert_eq!(m.match_image(&f, r), Some(0));
    assert!(m.check(&f, r));
    f.put_pixel(10 + 95 % 20, 8 + 95 / 20, Bgra { b: 0, g: 0, r: 0, a: 255 });
    assert_eq!(m.match_image(&f, r), None);
}

#[test]
fn reap_ignores_frames_of_other_sizes() {
    let m = JinHillahReapMatcher::new(40, 32, vec![reap_template(&motion_picture(3))]);
    let f = Frame::filled(41, 32, BG);
    assert!(m.candidates_iter(&f).is_empty());
}

#[test]
fn reap_first_motion_in_library_order_wins() {
    let t0 = reap_template(&motion_picture(3));
    let t0b = reap_template(&motion_picture(3));
    let img = t0.image.clone();
    let m = JinHillahReapMatcher::new(40, 32, vec![t0, t0b]);
    let mut f = Frame::filled(40, 32, BG);
    place(&mut f, &img, Rect { x: 10, y: 8, w: 20, h: 16 });
    assert_eq!(m.match_image(&f, Rect { x: 10, y: 8, w: 20, h: 16 }), Some(0));
}
