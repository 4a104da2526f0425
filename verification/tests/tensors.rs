use var_store::tensor::{element_count, ONE_BITS, ZERO_BITS};
use var_store::{CopyError, Device, Tensor, TensorId};

#[test]
fn the_fill_patterns_are_those_of_zero_and_one() {
    assert_eq!(ZERO_BITS, 0.0f32.to_bits());
    assert_eq!(ONE_BITS, 1.0f32.to_bits());
}

#[test]
fn element_count_is_the_product_of_the_dimensions() {
    assert_eq!(element_count(&[2, 2]), Some(4));
    assert_eq!(element_count(&[2]), Some(2));
    assert_eq!(element_count(&[3, 4, 5]), Some(60));
    assert_eq!(element_count(&[1, 1, 1, 7]), Some(7));
}

#[test]
fn a_scalar_has_one_element() {
    assert_eq!(element_count(&[]), Some(1));
}

#[test]
fn a_zero_dimension_leaves_no_element() {
    assert_eq!(element_count(&[0]), Some(0));
    assert_eq!(element_count(&[5, 0, 3]), Some(0));
    assert_eq!(element_count(&[i64::MAX, i64::MAX, 0]), Some(0));
    assert_eq!(element_count(&[0, i64::MAX, i64::MAX]), Some(0));
}

#[test]
fn a_negative_dimension_is_no_shape() {
    assert_eq!(element_count(&[-1]), None);
    assert_eq!(element_count(&[2, -3]), None);
    assert_eq!(element_count(&[0, -1]), None);
    assert_eq!(element_count(&[-1, 0]), None);
}

#[test]
fn a_count_beyond_usize_is_refused() {
    assert_eq!(element_count(&[i64::MAX, i64::MAX]), None);
    assert_eq!(element_count(&[i64::MAX, 4]), None);
    assert_eq!(element_count(&[1 << 40, 1 << 40]), None);
}

#[test]
fn zeros_fills_with_zero() {
    let t = Tensor::zeros(&[2, 3], Device::Cpu);
    assert_eq!(t.size(), vec![2, 3]);
    assert_eq!(t.values(), &[0u32; 6]);
    assert_eq!(t.device(), Device::Cpu);
    assert!(!t.requires_grad());
}

#[test]
fn ones_fills_with_one() {
    let t = Tensor::ones(&[4], Device::Cuda(1));
    assert_eq!(t.size(), vec![4]);
    assert_eq!(t.values(), &[1.0f32.to_bits(); 4]);
    assert_eq!(t.device(), Device::Cuda(1));
    assert!(!t.requires_grad());
}

#[test]
fn full_fills_with_the_given_pattern() {
    let bits = 2.5f32.to_bits();
    let t = Tensor::full(&[2, 2], Device::Cpu, bits);
    assert_eq!(t.values(), &[bits, bits, bits, bits]);
    let scalar = Tensor::full(&[], Device::Cpu, bits);
    assert_eq!(scalar.size(), Vec::<i64>::new());
    assert_eq!(scalar.values(), &[bits]);
    let empty = Tensor::full(&[3, 0], Device::Cpu, bits);
    assert_eq!(empty.size(), vec![3, 0]);
    assert!(empty.values().is_empty());
}

#[test]
fn from_values_takes_one_element_per_position() {
    let t = Tensor::from_values(&[2, 2], Device::Cpu, vec![1, 2, 3, 4]).unwrap();
    assert_eq!(t.size(), vec![2, 2]);
    assert_eq!(t.values(), &[1, 2, 3, 4]);
    assert_eq!(t.device(), Device::Cpu);
    assert!(!t.requires_grad());
}

#[test]
fn from_values_refuses_a_wrong_length_or_shape() {
    assert!(Tensor::from_values(&[2, 2], Device::Cpu, vec![1, 2, 3]).is_none());
    assert!(Tensor::from_values(&[2, 2], Device::Cpu, vec![1, 2, 3, 4, 5]).is_none());
    assert!(Tensor::from_values(&[], Device::Cpu, vec![]).is_none());
    assert!(Tensor::from_values(&[-1], Device::Cpu, vec![]).is_none());
    assert!(Tensor::from_values(&[i64::MAX, i64::MAX], Device::Cpu, vec![]).is_none());
    assert!(Tensor::from_values(&[0], Device::Cpu, vec![]).is_some());
}

#[test]
fn set_requires_grad_changes_the_flag_only() {
    let mut t = Tensor::from_values(&[3], Device::Cpu, vec![7, 8, 9]).unwrap();
    t.set_requires_grad(true);
    assert!(t.requires_grad());
    assert_eq!(t.values(), &[7, 8, 9]);
    assert_eq!(t.size(), vec![3]);
    t.set_requires_grad(true);
    assert!(t.requires_grad());
    t.set_requires_grad(false);
    assert!(!t.requires_grad());
    assert_eq!(t.values(), &[7, 8, 9]);
}

#[test]
fn copy_takes_the_values_and_nothing_else() {
    let mut dst = Tensor::zeros(&[2, 2], Device::Cpu);
    dst.set_requires_grad(true);
    let src = Tensor::from_values(&[2, 2], Device::Cpu, vec![5, 6, 7, 8]).unwrap();
    assert_eq!(dst.f_copy_(&src), Ok(()));
    assert_eq!(dst.values(), &[5, 6, 7, 8]);
    assert_eq!(dst.size(), vec![2, 2]);
    assert!(dst.requires_grad());
    assert!(!src.requires_grad());
    assert_eq!(src.values(), &[5, 6, 7, 8]);
}

#[test]
fn copy_refuses_another_shape() {
    let mut dst = Tensor::zeros(&[2, 2], Device::Cpu);
    let src = Tensor::ones(&[4], Device::Cpu);
    assert_eq!(dst.f_copy_(&src), Err(CopyError::ShapeMismatch));
    assert_eq!(dst.values(), &[0, 0, 0, 0]);
    assert_eq!(dst.size(), vec![2, 2]);
    let scalar = Tensor::ones(&[], Device::Cpu);
    assert_eq!(dst.f_copy_(&scalar), Err(CopyError::ShapeMismatch));
}

#[test]
fn copy_refuses_another_device() {
    let mut dst = Tensor::zeros(&[2], Device::Cpu);
    let src = Tensor::ones(&[2], Device::Cuda(0));
    assert_eq!(dst.f_copy_(&src), Err(CopyError::DeviceMismatch));
    assert_eq!(dst.values(), &[0, 0]);
    let mut on_one = Tensor::zeros(&[2], Device::Cuda(1));
    assert_eq!(on_one.f_copy_(&src), Err(CopyError::DeviceMismatch));
}

#[test]
fn copy_reports_the_shape_before_the_device() {
    let mut dst = Tensor::zeros(&[2], Device::Cpu);
    let src = Tensor::ones(&[3], Device::Cuda(0));
    assert_eq!(dst.f_copy_(&src), Err(CopyError::ShapeMismatch));
}

#[test]
fn clone_is_a_tensor_of_its_own() {
    let mut t = Tensor::from_values(&[2], Device::Cuda(3), vec![1, 2]).unwrap();
    t.set_requires_grad(true);
    let mut c = t.clone();
    assert_eq!(c.size(), vec![2]);
    assert_eq!(c.values(), &[1, 2]);
    assert_eq!(c.device(), Device::Cuda(3));
    assert!(c.requires_grad());
    let src = Tensor::from_values(&[2], Device::Cuda(3), vec![9, 9]).unwrap();
    assert_eq!(c.f_copy_(&src), Ok(()));
    assert_eq!(t.values(), &[1, 2]);
}

#[test]
fn devices_compare_by_kind_and_ordinal() {
    assert_eq!(Device::Cpu, Device::Cpu);
    assert_ne!(Device::Cpu, Device::Cuda(0));
    assert_ne!(Device::Cuda(0), Device::Cuda(1));
    assert_eq!(Device::Cuda(1), Device::Cuda(1));
}

#[test]
fn handles_compare_by_slot() {
    let a = TensorId { slot: 3 };
    let b = a;
    assert_eq!(a, b);
    assert_ne!(a, TensorId { slot: 4 });
}
