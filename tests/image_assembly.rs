use rtweekend::assembly::{pixel_jobs, AssemblyError, ImageAssembly};

fn filled(order: &[(u32, u32)]) -> Vec<u8> {
    let mut frame = ImageAssembly::new(3, 2);
    for &(x, y) in order {
        let c = [(10 * x + y) as u8, x as u8, y as u8];
        assert_eq!(frame.receive(x, y, c), Ok(()));
    }
    frame.finish().unwrap()
}

#[test]
fn pixels_land_at_their_coordinates() {
    let bytes = filled(&[(0, 0), (1, 0), (2, 0), (0, 1), (1, 1), (2, 1)]);
    assert_eq!(
        bytes,
        vec![0, 0, 0, 10, 1, 0, 20, 2, 0, 1, 0, 1, 11, 1, 1, 21, 2, 1]
    );
}

#[test]
fn arrival_order_does_not_matter() {
    let a = filled(&[(0, 0), (1, 0), (2, 0), (0, 1), (1, 1), (2, 1)]);
    let b = filled(&[(2, 1), (0, 1), (1, 0), (2, 0), (1, 1), (0, 0)]);
    assert_eq!(a, b);
}

#[test]
fn counts_and_completion() {
    let mut frame = ImageAssembly::new(2, 2);
    assert_eq!(frame.expected(), 4);
    assert!(!frame.is_complete());
    for (x, y) in [(0, 0), (1, 0), (0, 1)] {
        frame.receive(x, y, [1, 2, 3]).unwrap();
    }
    assert_eq!(frame.received_count(), 3);
    assert!(!frame.is_complete());
    frame.receive(1, 1, [4, 5, 6]).unwrap();
    assert!(frame.is_complete());
}

#[test]
fn pixel_outside_image_refused() {
    let mut frame = ImageAssembly::new(2, 2);
    assert_eq!(frame.receive(2, 0, [1, 1, 1]), Err(AssemblyError::OutOfBounds { x: 2, y: 0 }));
    assert_eq!(frame.receive(0, 5, [1, 1, 1]), Err(AssemblyError::OutOfBounds { x: 0, y: 5 }));
    assert_eq!(frame.received_count(), 0);
}

#[test]
fn pixel_past_the_count_refused() {
    let mut frame = ImageAssembly::new(1, 1);
    assert_eq!(frame.receive(0, 0, [9, 9, 9]), Ok(()));
    assert_eq!(frame.receive(0, 0, [1, 1, 1]), Err(AssemblyError::TooManyPixels));
    assert_eq!(frame.finish(), Ok(vec![9, 9, 9]));
}

#[test]
fn unfinished_image_refused() {
    let mut frame = ImageAssembly::new(2, 3);
    frame.receive(1, 2, [7, 7, 7]).unwrap();
    assert_eq!(frame.finish(), Err(AssemblyError::Incomplete { received: 1, expected: 6 }));
}

#[test]
fn black_pixels_make_a_black_image() {
    let mut frame = ImageAssembly::new(4, 3);
    for y in 0..3 {
        for x in 0..4 {
            frame.receive(x, y, [0, 0, 0]).unwrap();
        }
    }
    assert_eq!(frame.finish().unwrap(), vec![0u8; 36]);
}

#[test]
fn empty_image_is_complete_at_once() {
    let frame = ImageAssembly::new(0, 5);
    assert!(frame.is_complete());
    assert_eq!(frame.finish(), Ok(vec![]));
}

#[test]
fn jobs_run_bottom_row_first() {
    assert_eq!(
        pixel_jobs(3, 2),
        vec![(0, 1), (1, 1), (2, 1), (0, 0), (1, 0), (2, 0)]
    );
    assert_eq!(pixel_jobs(0, 4), vec![]);
    assert_eq!(pixel_jobs(4, 0), vec![]);
}

#[test]
fn one_message_per_job_completes_the_image() {
    let mut frame = ImageAssembly::new(5, 4);
    for (x, y) in pixel_jobs(5, 4) {
        assert_eq!(frame.receive(x, y, [x as u8, y as u8, 7]), Ok(()));
    }
    assert!(frame.is_complete());
    let bytes = frame.finish().unwrap();
    assert_eq!(&bytes[3 * (2 * 5 + 3)..3 * (2 * 5 + 3) + 3], &[3, 2, 7]);
}
