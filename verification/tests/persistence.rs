use var_store::{CopyError, Device, LoadError, Tensor, VarStore};

fn bundle_of(vs: &VarStore) -> Vec<(String, Tensor)> {
    vs.save().iter().map(|(n, t)| (n.to_string(), (*t).clone())).collect()
}

fn named(name: &str, dims: &[i64], device: Device, data: Vec<u32>) -> (String, Tensor) {
    (name.to_string(), Tensor::from_values(dims, device, data).unwrap())
}

#[test]
fn save_lists_every_variable_with_its_tensor() {
    let mut vs = VarStore::new(Device::Cpu);
    let root = vs.root();
    let w = root.var(&mut vs, "w", Tensor::from_values(&[2], Device::Cpu, vec![4, 5]).unwrap());
    root.sub("l").ones_no_train(&mut vs, "b", &[1]);
    let saved = vs.save();
    assert_eq!(saved.len(), 2);
    assert_eq!(saved[0].0, "w");
    assert_eq!(saved[0].1.values(), &[4, 5]);
    assert!(saved[0].1.requires_grad());
    assert_eq!(saved[1].0, "l|b");
    assert_eq!(saved[1].1.values(), &[1.0f32.to_bits()]);
    assert_eq!(vs.get(w).unwrap().values(), saved[0].1.values());
}

#[test]
fn save_then_load_restores_the_zero_tensors() {
    let mut vs = VarStore::new(Device::Cpu);
    let root = vs.root();
    let w = root.var(&mut vs, "w", Tensor::full(&[2, 2], Device::Cpu, 0.0f32.to_bits()));
    root.zeros_no_train(&mut vs, "b", &[2]);
    assert_eq!(vs.trainable_variables(), vec![w]);
    assert_eq!(vs.get(w).unwrap().size(), vec![2, 2]);
    let bundle = bundle_of(&vs);

    let mut fresh = VarStore::new(Device::Cpu);
    let fresh_root = fresh.root();
    let fw = fresh_root.var(&mut fresh, "w", Tensor::full(&[2, 2], Device::Cpu, 1.0f32.to_bits()));
    let fb = fresh_root.ones_no_train(&mut fresh, "b", &[2]);
    assert_eq!(fresh.load(&bundle), Ok(()));
    assert_eq!(fresh.get(fw).unwrap().values(), &[0.0f32.to_bits(); 4]);
    assert_eq!(fresh.get(fw).unwrap().size(), vec![2, 2]);
    assert_eq!(fresh.get(fb).unwrap().values(), &[0.0f32.to_bits(); 2]);
    assert_eq!(fresh.get(fb).unwrap().size(), vec![2]);
}

#[test]
fn save_then_load_restores_every_value() {
    let mut vs = VarStore::new(Device::Cpu);
    let root = vs.root();
    let a = vec![1.5f32.to_bits(), (-2.0f32).to_bits(), f32::NAN.to_bits(), 7];
    let b = vec![u32::MAX, 0, 1];
    root.sub("enc").var(&mut vs, "w", Tensor::from_values(&[2, 2], Device::Cpu, a.clone()).unwrap());
    root.add(&mut vs, "b", Tensor::from_values(&[3], Device::Cpu, b.clone()).unwrap(), false);
    let bundle = bundle_of(&vs);

    let mut fresh = VarStore::new(Device::Cpu);
    let fresh_root = fresh.root();
    let fb = fresh_root.zeros_no_train(&mut fresh, "b", &[3]);
    let fa = fresh_root.sub("enc").zeros(&mut fresh, "w", &[2, 2]);
    assert_eq!(fresh.load(&bundle), Ok(()));
    assert_eq!(fresh.get(fa).unwrap().values(), a.as_slice());
    assert_eq!(fresh.get(fb).unwrap().values(), b.as_slice());
}

#[test]
fn load_changes_values_only() {
    let mut vs = VarStore::new(Device::Cpu);
    let root = vs.root();
    let w = root.zeros(&mut vs, "w", &[2]);
    let b = root.zeros_no_train(&mut vs, "b", &[1]);
    vs.freeze();
    let mut flagged = Tensor::from_values(&[1], Device::Cpu, vec![9]).unwrap();
    flagged.set_requires_grad(true);
    let bundle = vec![named("w", &[2], Device::Cpu, vec![3, 4]), ("b".to_string(), flagged)];
    assert_eq!(vs.load(&bundle), Ok(()));
    assert_eq!(vs.get(w).unwrap().values(), &[3, 4]);
    assert!(!vs.get(w).unwrap().requires_grad());
    assert_eq!(vs.get(b).unwrap().values(), &[9]);
    assert!(!vs.get(b).unwrap().requires_grad());
    assert_eq!(vs.trainable_variables(), vec![w]);
    assert_eq!(vs.save().len(), 2);
}

#[test]
fn load_is_seen_through_the_handles_given_out_before() {
    let mut vs = VarStore::new(Device::Cpu);
    let w = vs.root().zeros(&mut vs, "w", &[2]);
    let held = vs.trainable_variables()[0];
    assert_eq!(vs.load(&[named("w", &[2], Device::Cpu, vec![11, 12])]), Ok(()));
    assert_eq!(vs.get(w).unwrap().values(), &[11, 12]);
    assert_eq!(vs.get(held).unwrap().values(), &[11, 12]);
}

#[test]
fn load_passes_over_names_that_the_registry_lacks() {
    let mut vs = VarStore::new(Device::Cpu);
    let w = vs.root().zeros(&mut vs, "w", &[1]);
    let bundle = vec![
        named("other", &[5], Device::Cuda(3), vec![0; 5]),
        named("w", &[1], Device::Cpu, vec![6]),
        named("w__1", &[1], Device::Cpu, vec![7]),
    ];
    assert_eq!(vs.load(&bundle), Ok(()));
    assert_eq!(vs.get(w).unwrap().values(), &[6]);
    assert_eq!(vs.save().len(), 1);
}

#[test]
fn load_into_an_empty_registry_succeeds() {
    let mut vs = VarStore::new(Device::Cpu);
    assert_eq!(vs.load(&[]), Ok(()));
    assert_eq!(vs.load(&[named("w", &[1], Device::Cpu, vec![6])]), Ok(()));
    assert!(vs.save().is_empty());
}

#[test]
fn load_takes_the_last_tensor_of_a_repeated_name() {
    let mut vs = VarStore::new(Device::Cpu);
    let w = vs.root().zeros(&mut vs, "w", &[1]);
    let bundle = vec![
        named("w", &[1], Device::Cpu, vec![1]),
        named("w", &[1], Device::Cpu, vec![2]),
        named("x", &[1], Device::Cpu, vec![3]),
    ];
    assert_eq!(vs.load(&bundle), Ok(()));
    assert_eq!(vs.get(w).unwrap().values(), &[2]);
    let clash = vec![named("w", &[1], Device::Cpu, vec![1]), named("w", &[2], Device::Cpu, vec![2, 2])];
    assert_eq!(
        vs.load(&clash),
        Err(LoadError::Copy { name: "w".to_string(), error: CopyError::ShapeMismatch })
    );
}

#[test]
fn load_reports_the_first_missing_name() {
    let mut vs = VarStore::new(Device::Cpu);
    let root = vs.root();
    let a = root.zeros(&mut vs, "a", &[1]);
    let b = root.zeros(&mut vs, "b", &[1]);
    let c = root.zeros(&mut vs, "c", &[1]);
    let d = root.zeros(&mut vs, "d", &[1]);
    let bundle = vec![named("a", &[1], Device::Cpu, vec![5]), named("c", &[1], Device::Cpu, vec![6])];
    assert_eq!(vs.load(&bundle), Err(LoadError::NotFound { name: "b".to_string() }));
    assert_eq!(vs.get(a).unwrap().values(), &[5]);
    assert_eq!(vs.get(b).unwrap().values(), &[0]);
    assert_eq!(vs.get(c).unwrap().values(), &[0]);
    assert_eq!(vs.get(d).unwrap().values(), &[0]);
}

#[test]
fn load_from_nothing_names_the_first_variable() {
    let mut vs = VarStore::new(Device::Cpu);
    let root = vs.root().sub("m");
    root.zeros(&mut vs, "w", &[1]);
    root.zeros(&mut vs, "b", &[1]);
    assert_eq!(vs.load(&[]), Err(LoadError::NotFound { name: "m|w".to_string() }));
}

#[test]
fn load_stops_at_a_shape_that_does_not_fit() {
    let mut vs = VarStore::new(Device::Cpu);
    let root = vs.root();
    let a = root.zeros(&mut vs, "a", &[2]);
    let b = root.zeros(&mut vs, "b", &[2]);
    let c = root.zeros(&mut vs, "c", &[2]);
    let bundle = vec![
        named("c", &[2], Device::Cpu, vec![5, 5]),
        named("b", &[1, 2], Device::Cpu, vec![4, 4]),
        named("a", &[2], Device::Cpu, vec![3, 3]),
    ];
    assert_eq!(
        vs.load(&bundle),
        Err(LoadError::Copy { name: "b".to_string(), error: CopyError::ShapeMismatch })
    );
    assert_eq!(vs.get(a).unwrap().values(), &[3, 3]);
    assert_eq!(vs.get(b).unwrap().values(), &[0, 0]);
    assert_eq!(vs.get(b).unwrap().size(), vec![2]);
    assert_eq!(vs.get(c).unwrap().values(), &[0, 0]);
}

#[test]
fn load_stops_at_a_tensor_of_another_device() {
    let mut vs = VarStore::new(Device::Cuda(0));
    let root = vs.root();
    let a = root.zeros(&mut vs, "a", &[1]);
    let bundle = vec![named("a", &[1], Device::Cpu, vec![3])];
    assert_eq!(
        vs.load(&bundle),
        Err(LoadError::Copy { name: "a".to_string(), error: CopyError::DeviceMismatch })
    );
    assert_eq!(vs.get(a).unwrap().values(), &[0]);
}

#[test]
fn a_shape_that_does_not_fit_comes_before_a_later_missing_name() {
    let mut vs = VarStore::new(Device::Cpu);
    let root = vs.root();
    root.zeros(&mut vs, "a", &[2]);
    root.zeros(&mut vs, "b", &[3]);
    let bundle = vec![named("a", &[5], Device::Cpu, vec![0; 5])];
    assert_eq!(
        vs.load(&bundle),
        Err(LoadError::Copy { name: "a".to_string(), error: CopyError::ShapeMismatch })
    );
}

#[test]
fn both_variables_of_a_collision_are_saved() {
    let mut vs = VarStore::new(Device::Cpu);
    let root = vs.root();
    root.var(&mut vs, "w", Tensor::from_values(&[1], Device::Cpu, vec![1]).unwrap());
    root.var(&mut vs, "w", Tensor::from_values(&[1], Device::Cpu, vec![2]).unwrap());
    let saved = vs.save();
    assert_eq!(saved.len(), 2);
    assert_eq!(saved[0].0, "w");
    assert_eq!(saved[0].1.values(), &[1]);
    assert_eq!(saved[1].0, "w__1");
    assert_eq!(saved[1].1.values(), &[2]);
}

#[test]
fn a_saved_registry_loads_into_one_with_fewer_variables() {
    let mut vs = VarStore::new(Device::Cpu);
    let root = vs.root();
    root.var(&mut vs, "a", Tensor::from_values(&[1], Device::Cpu, vec![1]).unwrap());
    root.var(&mut vs, "b", Tensor::from_values(&[1], Device::Cpu, vec![2]).unwrap());
    let bundle = bundle_of(&vs);
    let mut fresh = VarStore::new(Device::Cpu);
    let fb = fresh.root().zeros(&mut fresh, "b", &[1]);
    assert_eq!(fresh.load(&bundle), Ok(()));
    assert_eq!(fresh.get(fb).unwrap().values(), &[2]);
}

#[test]
fn a_saved_registry_does_not_load_into_one_with_more_variables() {
    let mut vs = VarStore::new(Device::Cpu);
    vs.root().var(&mut vs, "a", Tensor::from_values(&[1], Device::Cpu, vec![1]).unwrap());
    let bundle = bundle_of(&vs);
    let mut fresh = VarStore::new(Device::Cpu);
    let root = fresh.root();
    let fa = root.zeros(&mut fresh, "a", &[1]);
    let fextra = root.ones(&mut fresh, "extra", &[1]);
    assert_eq!(fresh.load(&bundle), Err(LoadError::NotFound { name: "extra".to_string() }));
    assert_eq!(fresh.get(fa).unwrap().values(), &[1]);
    assert_eq!(fresh.get(fextra).unwrap().values(), &[1.0f32.to_bits()]);
}
