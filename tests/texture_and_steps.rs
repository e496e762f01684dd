use rtweekend::integrator::{next_step, BounceStep};
use rtweekend::texture::ImageTexture;

fn checker_bytes() -> Vec<u8> {
    // 2 by 2: red, green / blue, white
    vec![255, 0, 0, 0, 255, 0, 0, 0, 255, 255, 255, 255]
}

#[test]
fn texture_needs_enough_bytes() {
    assert!(ImageTexture::from_raw(2, 2, vec![0u8; 11]).is_none());
    let t = ImageTexture::from_raw(2, 2, checker_bytes()).unwrap();
    assert_eq!((t.width(), t.height()), (2, 2));
}

#[test]
fn texel_reads_row_major() {
    let t = ImageTexture::from_raw(2, 2, checker_bytes()).unwrap();
    assert_eq!(t.texel(0, 0), [255, 0, 0]);
    assert_eq!(t.texel(1, 0), [0, 255, 0]);
    assert_eq!(t.texel(0, 1), [0, 0, 255]);
    assert_eq!(t.texel(1, 1), [255, 255, 255]);
}

#[test]
fn texel_clamps_past_the_edge() {
    let t = ImageTexture::from_raw(2, 2, checker_bytes()).unwrap();
    assert_eq!(t.texel(2, 0), [0, 255, 0]);
    assert_eq!(t.texel(0, 9), [0, 0, 255]);
    assert_eq!(t.texel(u32::MAX, u32::MAX), [255, 255, 255]);
}

#[test]
fn spent_budget_is_black_whatever_the_scene() {
    for hit in [false, true] {
        for scatters in [false, true] {
            for specular in [false, true] {
                assert_eq!(next_step(0, hit, scatters, specular), BounceStep::Black);
            }
        }
    }
}

#[test]
fn steps_with_budget_left() {
    assert_eq!(next_step(5, false, true, true), BounceStep::Background);
    assert_eq!(next_step(5, true, false, false), BounceStep::EmissionOnly);
    assert_eq!(next_step(5, true, true, true), BounceStep::FollowSpecular { next_depth: 4 });
    assert_eq!(next_step(1, true, true, false), BounceStep::SampleMixture { next_depth: 0 });
}
