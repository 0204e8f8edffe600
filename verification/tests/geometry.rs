use fldemos::geometry::{size_params, stored_or_default, window_size};

#[test]
fn sizes_round_trip() {
    for (w, h) in [(0, 0), (640, 360), (960, 540), (65279, 1)] {
        let p = size_params(w, h);
        assert_eq!(window_size(&p), (w, h));
    }
}

#[test]
fn known_encoding() {
    assert_eq!(size_params(960, 540), [3, 195, 2, 30]);
    assert_eq!(window_size(&[3, 195, 2, 30]), (960, 540));
}

#[test]
fn stored_settings_need_the_right_length() {
    let d = [3u8, 195, 2, 30];
    assert_eq!(stored_or_default(Some(vec![1, 2, 3, 4]), &d), (vec![1, 2, 3, 4], false));
    assert_eq!(stored_or_default(Some(vec![1, 2]), &d), (d.to_vec(), true));
    assert_eq!(stored_or_default(None, &d), (d.to_vec(), false));
}

#[test]
fn large_and_negative_sizes_wrap_like_casts() {
    assert_eq!(size_params(65280, 0), [0, 0, 0, 0]);
    assert_eq!(size_params(-1, 0), [0, 255, 0, 0]);
}
