use gpu_sched_sim::gpu_spec::{GpuModel, GpuSpec, ALL_MODELS};

const MODELS: [GpuModel; 7] = [
    GpuModel::A10,
    GpuModel::G2,
    GpuModel::G3,
    GpuModel::P100,
    GpuModel::T4,
    GpuModel::V100M16,
    GpuModel::V100M32,
];

#[test]
fn each_model_has_its_own_bit() {
    let bits: Vec<u64> = MODELS.iter().map(|m| m.bit()).collect();
    assert_eq!(bits, vec![1, 2, 4, 8, 16, 32, 64]);
    assert_eq!(bits.iter().sum::<u64>(), ALL_MODELS);
}

#[test]
fn empty_set_holds_no_model() {
    let none = GpuSpec::empty();
    assert!(none.is_empty());
    assert_eq!(none.bits(), 0);
    for m in MODELS {
        assert!(!none.contains(m));
    }
    assert_eq!(GpuSpec::default(), none);
}

#[test]
fn single_holds_one_model() {
    for m in MODELS {
        let one = GpuSpec::single(m);
        assert!(!one.is_empty());
        assert_eq!(one.bits(), m.bit());
        for other in MODELS {
            assert_eq!(one.contains(other), other == m);
        }
    }
}

#[test]
fn union_holds_the_models_of_both() {
    let a = GpuSpec::single(GpuModel::A10).union(GpuSpec::single(GpuModel::T4));
    let b = GpuSpec::single(GpuModel::T4).union(GpuSpec::single(GpuModel::V100M32));
    let both = a.union(b);
    assert_eq!(both.bits(), 1 | 16 | 64);
    assert!(both.contains(GpuModel::A10));
    assert!(both.contains(GpuModel::T4));
    assert!(both.contains(GpuModel::V100M32));
    assert!(!both.contains(GpuModel::G2));
    assert_eq!(a.union(GpuSpec::empty()), a);
    assert_eq!(a.union(a), a);
}

#[test]
fn intersects_needs_a_shared_model() {
    let a10_t4 = GpuSpec::single(GpuModel::A10).union(GpuSpec::single(GpuModel::T4));
    let t4_g3 = GpuSpec::single(GpuModel::T4).union(GpuSpec::single(GpuModel::G3));
    let p100 = GpuSpec::single(GpuModel::P100);
    assert!(a10_t4.intersects(t4_g3));
    assert!(t4_g3.intersects(a10_t4));
    assert!(!a10_t4.intersects(p100));
    assert!(!p100.intersects(GpuSpec::single(GpuModel::T4)));
    assert!(!GpuSpec::empty().intersects(a10_t4));
    assert!(!a10_t4.intersects(GpuSpec::empty()));
    assert!(!GpuSpec::empty().intersects(GpuSpec::empty()));
}

#[test]
fn from_bits_takes_known_bits_only() {
    assert_eq!(GpuSpec::from_bits(0), Some(GpuSpec::empty()));
    assert_eq!(GpuSpec::from_bits(8), Some(GpuSpec::single(GpuModel::P100)));
    assert_eq!(GpuSpec::from_bits(0x7f).map(|s| s.bits()), Some(0x7f));
    assert_eq!(GpuSpec::from_bits(0x80), None);
    assert_eq!(GpuSpec::from_bits(0x81), None);
    assert_eq!(GpuSpec::from_bits(u64::MAX), None);
}
