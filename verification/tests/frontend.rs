use hodu::frontend::{bin_plan, broadcast_shape, coerce_plan, dropout_seed, flatten_shape, matmul_axes, promote, Coerce, DType};
use hodu::rng::RngReg;

#[test]
fn broadcast_follows_numpy() {
    assert_eq!(broadcast_shape(&[2, 1, 3], &[4, 1]), Some(vec![2, 4, 3]));
    assert_eq!(broadcast_shape(&[4, 1], &[2, 1, 3]), Some(vec![2, 4, 3]));
    assert_eq!(broadcast_shape(&[], &[5]), Some(vec![5]));
    assert_eq!(broadcast_shape(&[2, 3], &[2, 3]), Some(vec![2, 3]));
    assert_eq!(broadcast_shape(&[2, 3], &[4, 3]), None);
    assert_eq!(broadcast_shape(&[3], &[2]), None);
}

#[test]
fn promotion_prefers_wider_floats() {
    assert_eq!(promote(DType::F32, DType::F32), DType::F32);
    assert_eq!(promote(DType::F32, DType::F64), DType::F64);
    assert_eq!(promote(DType::I64, DType::F32), DType::F32);
    assert_eq!(promote(DType::F16, DType::F32), DType::F32);
    assert_eq!(promote(DType::I32, DType::I64), DType::I32);
    assert_eq!(promote(DType::I64, DType::I32), DType::I64);
}

#[test]
fn flatten_keeps_leading_dims() {
    assert_eq!(flatten_shape(&[2, 3, 4, 5], 1), Some(vec![2, 60]));
    assert_eq!(flatten_shape(&[2, 3], 2), Some(vec![2, 3, 1]));
    assert_eq!(flatten_shape(&[7], 0), Some(vec![7]));
    assert_eq!(flatten_shape(&[usize::MAX, 2], 0), None);
}

#[test]
fn dropout_seeds_wrap() {
    assert_eq!(dropout_seed(1, 0), 1_000_003);
    assert_eq!(dropout_seed(2, 3), 2_000_009);
    assert_eq!(dropout_seed(u64::MAX, 0), (u64::MAX.wrapping_mul(1_000_003)) as i64);
}

#[test]
fn rng_registry_ticks_and_switches() {
    let mut r: RngReg<u32> = RngReg::new();
    assert!(r.is_training());
    assert_eq!(r.set_training(false), None);
    assert!(r.set_flag(5) == false);
    assert_eq!(r.new_dropout_seed(7), 0);
    assert_eq!(r.new_dropout_seed(8), 1);
    assert_eq!(r.set_training(true), Some((5, true)));
    assert_eq!(r.flag(), Some(5));
    assert_eq!(r.tick_rng(), vec![(7, 1_000_003), (8, 1_000_004)]);
    assert_eq!(r.tick_rng(), vec![(7, 2_000_006), (8, 2_000_007)]);
}

#[test]
fn bin_plan_coerces_each_side() {
    let p = bin_plan(&[2, 3], DType::F32, &[3], DType::I64).unwrap();
    assert_eq!(p.shape, vec![2, 3]);
    assert_eq!(p.dtype, DType::F32);
    assert_eq!(p.lhs, Coerce { cast: false, broadcast: false });
    assert_eq!(p.rhs, Coerce { cast: true, broadcast: true });
    assert!(bin_plan(&[2], DType::F32, &[3], DType::F32).is_none());
    assert_eq!(coerce_plan(&[1], DType::F64, &[1], DType::F64), Coerce { cast: false, broadcast: false });
    assert_eq!(matmul_axes(3, 2), (2, 0));
    assert_eq!(matmul_axes(0, 1), (0, 0));
    assert_eq!(matmul_axes(2, 4), (1, 2));
}

#[test]
fn broadcast_result_absorbs_its_operands() {
    let a = [3, 1];
    let b = [2, 1, 4];
    let c = broadcast_shape(&a, &b).unwrap();
    assert_eq!(c, vec![2, 3, 4]);
    assert_eq!(broadcast_shape(&a, &c), Some(c.clone()));
    assert_eq!(broadcast_shape(&b, &c), Some(c.clone()));
}
