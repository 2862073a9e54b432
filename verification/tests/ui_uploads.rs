use arca::ui::uploads::{premultiplied, UploadOrder, MAX_UPLOADS};

#[test]
fn premultiply_scales_colour_by_alpha() {
    let px = [200u8, 100, 50, 128, 255, 255, 255, 255, 10, 20];
    let out = premultiplied(&px);
    assert_eq!(out, vec![100, 50, 25, 128, 255, 255, 255, 255, 10, 20]);
    assert_eq!(premultiplied(&[9, 9, 9, 0]), vec![0, 0, 0, 0]);
}

#[test]
fn uploads_release_the_oldest() {
    let mut order = UploadOrder::new();
    for i in 0..MAX_UPLOADS {
        assert!(order.insert(format!("/p/{i}")).is_empty());
    }
    assert!(order.insert("/p/0".to_string()).is_empty());
    let released = order.insert("/p/new".to_string());
    assert_eq!(released, vec!["/p/1".to_string()]);
}
