use gemmkit::adapter::{bias_overlaps_c, c_byte_range, lower_bias, requant_bias, requant_scale, Run};
use gemmkit::api::{extent, overlaps, overlaps_bytes, self_aliases};
use gemmkit::{BiasDim, GemmError, Operand, RequantScale, Scale};

#[test]
fn byte_ranges_of_strided_views() {
    // Three rows 10 apart, four columns 2 apart, of 4 bytes each.
    assert_eq!(c_byte_range(1000, 4, &[(3, 10), (4, 2)]), (1000, 1000 + 4 * 27));
    // A reversed axis reaches below the base.
    assert_eq!(
        c_byte_range(1000, 4, &[(3, -10), (4, 2)]),
        (1000 - 80, 1000 + 4 * 7)
    );
    // An axis of length 1 has no extent, whatever its stride.
    assert_eq!(c_byte_range(1000, 8, &[(1, -99), (2, 1)]), (1000, 1016));
    assert_eq!(c_byte_range(1000, 8, &[(0, 5), (2, 1)]), (1000, 1000));
    assert_eq!(c_byte_range(1000, 8, &[]), (1000, 1008));
}

#[test]
fn overlaps_of_a_bias_and_an_output() {
    let dims = [(2usize, 4isize), (3usize, 1isize)];
    // C touches 100..128.
    assert!(bias_overlaps_c(100, 4, &dims, 124, 4, 1));
    assert!(!bias_overlaps_c(100, 4, &dims, 128, 4, 1));
    assert!(bias_overlaps_c(100, 4, &dims, 92, 4, 3));
    assert!(!bias_overlaps_c(100, 4, &dims, 92, 4, 2));
    assert!(!bias_overlaps_c(100, 4, &dims, 100, 4, 0));
    assert!(!bias_overlaps_c(100, 4, &[(0, 1)], 100, 4, 4));
}

#[test]
fn lowering_a_bias() {
    let dims = [(2usize, 3isize), (3usize, 1isize)];
    let run = |len: usize| Run { addr: 1000, len };
    assert_eq!(
        lower_bias(None, 4, 2, 3, 100, &dims),
        Ok((BiasDim::PerRow, false))
    );
    assert_eq!(
        lower_bias(Some((BiasDim::PerRow, run(2))), 4, 2, 3, 100, &dims),
        Ok((BiasDim::PerRow, true))
    );
    assert_eq!(
        lower_bias(Some((BiasDim::PerCol, run(3))), 4, 2, 3, 100, &dims),
        Ok((BiasDim::PerCol, true))
    );
    assert_eq!(
        lower_bias(Some((BiasDim::PerCol, run(2))), 4, 2, 3, 100, &dims),
        Err(GemmError::LengthMismatch { view: Operand::Bias, want: 3, len: 2 })
    );
    assert_eq!(
        lower_bias(Some((BiasDim::PerRow, run(2))), 4, 2, 3, 996, &dims),
        Err(GemmError::Aliasing { with: Operand::Bias })
    );
}

#[test]
fn checking_requantization_vectors() {
    let dims = [(2usize, 2isize), (2usize, 1isize)];
    assert_eq!(requant_bias(2, 100, 1, &dims, None), Ok(false));
    assert_eq!(
        requant_bias(2, 100, 1, &dims, Some(Run { addr: 0, len: 2 })),
        Ok(true)
    );
    assert_eq!(
        requant_bias(2, 100, 1, &dims, Some(Run { addr: 97, len: 2 })),
        Err(GemmError::Aliasing { with: Operand::Bias })
    );
    assert_eq!(
        requant_bias(2, 100, 1, &dims, Some(Run { addr: 0, len: 3 })),
        Err(GemmError::LengthMismatch { view: Operand::Bias, want: 2, len: 3 })
    );
    let good = Scale { bits: 0x3f80_0000 };
    let bad = Scale { bits: 0 };
    assert_eq!(
        requant_scale(2, 100, 1, &dims, RequantScale::PerTensor(good), 0),
        Ok(false)
    );
    assert_eq!(
        requant_scale(2, 100, 1, &dims, RequantScale::PerTensor(bad), 0),
        Err(GemmError::BadScale { index: 0 })
    );
    assert_eq!(
        requant_scale(2, 100, 1, &dims, RequantScale::PerRow(&[good, good]), 0),
        Ok(true)
    );
    // The overlap is found before a bad scale is.
    assert_eq!(
        requant_scale(2, 100, 1, &dims, RequantScale::PerRow(&[bad, bad]), 100),
        Err(GemmError::Aliasing { with: Operand::Scales })
    );
    assert_eq!(
        requant_scale(2, 100, 1, &dims, RequantScale::PerRow(&[good, bad]), 0),
        Err(GemmError::BadScale { index: 1 })
    );
}

#[test]
fn extents() {
    assert_eq!(extent(0, 5, 1, 1), Some(0));
    assert_eq!(extent(3, 4, 4, 1), Some(12));
    assert_eq!(extent(3, 4, 10, 2), Some(27));
    assert_eq!(extent(1, 4, -9, 1), Some(4));
    assert_eq!(extent(2, 4, -1, 1), None);
    assert_eq!(extent(usize::MAX, 1, 1, 1), None);
    assert_eq!(extent(2, 2, isize::MAX, 1), None);
    assert_eq!(extent(3, 1, isize::MAX, 0), None);
}

#[test]
fn self_aliasing() {
    assert!(!self_aliases(3, 4, 4, 1));
    assert!(!self_aliases(3, 4, 1, 3));
    assert!(self_aliases(3, 4, 3, 1));
    assert!(self_aliases(3, 4, 0, 1));
    assert!(self_aliases(2, 1, 0, 5));
    assert!(!self_aliases(1, 1, 0, 0));
    assert!(!self_aliases(0, 9, 0, 0));
    assert!(!self_aliases(2, 2, -2, 1));
    assert!(self_aliases(2, 2, isize::MIN, isize::MIN));
}

#[test]
fn overlapping_runs() {
    assert!(overlaps(100, 4, 112, 4, 4));
    assert!(!overlaps(100, 3, 112, 4, 4));
    assert!(overlaps_bytes(100, 3, 4, 108, 1, 1));
    assert!(!overlaps_bytes(100, 2, 4, 108, 1, 1));
}
