use simulator::{Frame, Ratio, Viewport};

#[test]
fn new_keeps_fields() {
    let v = Viewport::new(7, -3, 4, 10, 20);
    assert_eq!((v.conf, v.x, v.y, v.width, v.height), (7, -3, 4, 10, 20));
}

#[test]
fn frame_new_copies_traces() {
    let traces = vec![Viewport::new(1, 2, 3, 4, 5), Viewport::new(6, 7, 8, 9, 10)];
    let f = Frame::new(12, &traces);
    assert_eq!(f.index, 12);
    assert_eq!(f.traces.len(), 2);
    assert_eq!(f.traces[1].x, 7);
}

#[test]
fn resize_centres_and_keeps_conf() {
    let v = Viewport::new(42, 1000, 500, 1200, 800);
    let r = Viewport::create_new_with_size(&v, 1440, 1440);
    assert_eq!((r.conf, r.x, r.y, r.width, r.height), (42, 880, 180, 1440, 1440));
}

#[test]
fn resize_wraps_left_edge() {
    let v = Viewport::new(100, 100, 0, 1200, 1200);
    let r = Viewport::create_new_with_size(&v, 2000, 2000);
    assert_eq!(r.x, 3540);
    assert_eq!(r.y, -400);
}

#[test]
fn resize_rounds_odd_difference_toward_zero() {
    let v = Viewport::new(1, 100, 100, 10, 10);
    let r = Viewport::create_new_with_size(&v, 13, 7);
    // (10 - 13) / 2 == -1 and (10 - 7) / 2 == 1 in Rust's integer division
    assert_eq!((r.x, r.y), (99, 101));
}

#[test]
fn resize_overflow_is_refused() {
    let v = Viewport::new(1, i32::MAX - 1, 0, 100, 10);
    assert!(Viewport::checked_create_new_with_size(&v, 10, 10).is_none());
    let w = Viewport::new(1, 0, 0, 100, 10);
    assert!(Viewport::checked_create_new_with_size(&w, 10, 10).is_some());
}

#[test]
fn resize_round_trip_restores() {
    let v = Viewport::new(5, 1000, 600, 1200, 800);
    let r = Viewport::create_new_with_size(&v, 1600, 1000);
    let back = Viewport::create_new_with_size(&r, 1200, 800);
    assert_eq!((back.conf, back.x, back.y, back.width, back.height), (5, 1000, 600, 1200, 800));
}

#[test]
fn resize_same_size_is_identity() {
    let v = Viewport::new(5, 20, -30, 640, 480);
    let r = Viewport::create_new_with_size(&v, 640, 480);
    assert_eq!((r.x, r.y, r.width, r.height), (20, -30, 640, 480));
}

fn ratio_of(s: &Viewport, u: &Viewport) -> Option<(i64, u64)> {
    s.checked_cover_ratio(u).map(|r| (r.num, r.den))
}

#[test]
fn cover_inside_panorama_is_overlap_area() {
    let s = Viewport::new(100, 100, 100, 200, 200);
    let u = Viewport::new(100, 105, 150, 200, 200);
    // overlap 195 wide, 150 high
    assert_eq!(ratio_of(&s, &u), Some((195 * 150, 40000)));
}

#[test]
fn cover_of_disjoint_spans_is_zero_width() {
    let s = Viewport::new(100, 100, 100, 200, 200);
    let u = Viewport::new(100, 1000, 100, 200, 200);
    assert_eq!(ratio_of(&s, &u), Some((0, 40000)));
}

#[test]
fn self_cover_is_full() {
    let v = Viewport::new(100, 300, 200, 640, 480);
    let r = v.get_cover_result(&v);
    assert_eq!((r.num, r.den), (640 * 480, 640 * 480));
}

#[test]
fn cover_both_wrapping() {
    let s = Viewport::new(100, 3000, 0, 1000, 100);
    let u = Viewport::new(100, 3500, 0, 600, 100);
    // [3000, 3840) + [0, 160) against [3500, 3840) + [0, 260): 340 + 160
    assert_eq!(ratio_of(&s, &u), Some((500 * 100, 60000)));
}

#[test]
fn cover_self_wrapping_user_not() {
    let s = Viewport::new(100, 3000, 0, 1000, 100);
    let u = Viewport::new(100, 100, 0, 200, 100);
    assert_eq!(ratio_of(&s, &u), Some((60 * 100, 20000)));
}

#[test]
fn cover_user_wrapping_self_not() {
    let s = Viewport::new(100, 0, 0, 200, 100);
    let u = Viewport::new(100, 3700, 0, 300, 100);
    // u spans [3700, 3840) and [0, 160); s = [0, 200): left part 160
    assert_eq!(ratio_of(&s, &u), Some((160 * 100, 30000)));
}

#[test]
fn cover_height_is_capped_by_user_height() {
    let s = Viewport::new(100, 0, 0, 100, 1000);
    let u = Viewport::new(100, 0, 2000, 100, 50);
    // vertical spans are 1000 apart; the distance is capped at 50
    assert_eq!(ratio_of(&s, &u), Some((100 * 50, 5000)));
}

#[test]
fn cover_more_than_whole_is_refused() {
    let s = Viewport::new(100, 5000, 0, 100, 100);
    let u = Viewport::new(100, 3900, 0, 100, 100);
    assert_eq!(ratio_of(&s, &u), None);
}

#[test]
fn cover_negative_right_edge_is_refused() {
    let s = Viewport::new(100, -500, 0, 100, 100);
    let u = Viewport::new(100, 0, 0, 100, 100);
    assert_eq!(ratio_of(&s, &u), None);
}

#[test]
fn cover_overflow_is_refused() {
    let s = Viewport::new(100, i32::MAX - 5, 0, 10, 100);
    let u = Viewport::new(100, 0, 0, 100, 100);
    assert_eq!(ratio_of(&s, &u), None);
}

#[test]
fn empty_user_viewport_gives_not_a_number() {
    let s = Viewport::new(100, 0, 0, 100, 100);
    let u = Viewport::new(100, 0, 0, 0, 0);
    let r = s.get_cover_result(&u);
    assert_eq!((r.num, r.den), (0, 0));
    assert!(r.is_not_a_number());
}

#[test]
fn ratio_comparisons() {
    let half = Ratio { num: 1, den: 2 };
    let two_quarters = Ratio { num: 2, den: 4 };
    let nine_tenths = Ratio { num: 9, den: 10 };
    let nan = Ratio { num: 0, den: 0 };
    let neg_inf = Ratio::neg_infinity();
    assert!(half.lt(&nine_tenths));
    assert!(!nine_tenths.lt(&half));
    assert!(half.ge(&two_quarters) && two_quarters.ge(&half));
    assert!(!half.lt(&two_quarters));
    assert!(neg_inf.lt(&half));
    assert!(!neg_inf.lt(&neg_inf));
    assert!(!nan.lt(&half) && !half.lt(&nan) && !nan.ge(&half) && !half.ge(&nan));
    assert!(!neg_inf.lt(&nan));
    assert!(Ratio::from_int(1).ge(&nine_tenths));
}

#[test]
fn resize_round_trip_with_odd_change() {
    let v = Viewport::new(5, 1000, 600, 1201, 800);
    let r = Viewport::create_new_with_size(&v, 1600, 1001);
    let back = Viewport::create_new_with_size(&r, 1201, 800);
    assert_eq!((back.x, back.y, back.width, back.height), (1000, 600, 1201, 800));
}

#[test]
fn covered_area_is_the_same_both_ways() {
    let s = Viewport::new(1, 100, 0, 300, 50);
    let u = Viewport::new(1, 250, 20, 400, 100);
    let a = s.get_cover_result(&u);
    let b = u.get_cover_result(&s);
    assert_eq!(a.num, b.num);
    assert_eq!((a.num, a.den, b.den), (150 * 30, 40000, 15000));
    let w1 = Viewport::new(1, 3000, 0, 1000, 100);
    let w2 = Viewport::new(1, 3500, 0, 600, 100);
    assert_eq!(w1.get_cover_result(&w2).num, w2.get_cover_result(&w1).num);
}

#[test]
fn covered_area_symmetric_with_height_read_past_i32() {
    // a height of 2^32 + 60 is read by the code as 60
    let s = Viewport::new(1, 100, 0, 300, (1usize << 32) + 60);
    let u = Viewport::new(1, 250, 0, 400, 50);
    assert_eq!(s.get_cover_result(&u).num, u.get_cover_result(&s).num);
}
