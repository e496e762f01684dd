use rtweekend::stream::{png_path, ImageStream, StreamError};

#[test]
fn png_suffix_added_once() {
    assert_eq!(png_path("image"), "image.png");
    assert_eq!(png_path("image.png"), "image.png");
    assert_eq!(png_path("out.png.bak"), "out.png.bak");
    assert_eq!(png_path(""), ".png");
    assert_eq!(png_path("a.pn"), "a.pn.png");
}

#[test]
fn stream_fills_row_by_row() {
    let mut s = ImageStream::new(2, 1, 10);
    assert_eq!(s.samples_per_pixel(), 10);
    assert_eq!(s.expected_len(), 6);
    assert_eq!(s.push_rgb([1, 2, 3]), Ok(()));
    assert!(!s.is_complete());
    assert_eq!(
        s.finished_bytes(),
        Err(StreamError::Incomplete { written: 3, expected: 6 })
    );
    assert_eq!(s.push_rgb([4, 5, 6]), Ok(()));
    assert!(s.is_complete());
    assert_eq!(s.finished_bytes(), Ok(&vec![1u8, 2, 3, 4, 5, 6]));
}

#[test]
fn stream_refuses_pixels_past_the_end() {
    let mut s = ImageStream::new(1, 1, 1);
    assert_eq!(s.push_rgb([9, 9, 9]), Ok(()));
    assert_eq!(s.push_rgb([1, 1, 1]), Err(StreamError::Full));
    assert_eq!(s.finished_bytes(), Ok(&vec![9u8, 9, 9]));
}
