use simulator::Viewport;

#[test]
fn test_trace() {
    let t_1 = Viewport::new(100, 700, 700, 1200, 1200);
    let t_2 = Viewport::create_new_with_size(&t_1, 2000, 2000);
    assert_eq!(t_2.x, 300);
    assert_eq!(t_2.y, 300);
}

#[test]
fn ds_test_trace() {
    let t_1 = Viewport::new(100, 1, 100, 1200, 1200);
    let t_2 = Viewport::create_new_with_size(&t_1, 1400, 1400);
    println!("{:?}", t_2);
    assert_eq!(t_2.x, 3741);
    assert_eq!(t_2.y, 0);
}
