use gpu_sched_sim::gpu_spec::{GpuModel, GpuSpec};
use gpu_sched_sim::records::{parse_multi_spec, NodeSpec, PodSpec, SEPARATOR};

fn unknown(text: &str) -> String {
    let err = parse_multi_spec(text).unwrap_err();
    String::from_utf8(err.name).unwrap()
}

#[test]
fn separator_is_the_bar() {
    assert_eq!(SEPARATOR, b'|');
}

#[test]
fn empty_column_is_the_empty_set() {
    let spec = parse_multi_spec("").unwrap();
    assert!(spec.is_empty());
    assert_eq!(spec, GpuSpec::empty());
}

#[test]
fn every_name_is_known() {
    let names = ["A10", "G2", "G3", "P100", "T4", "V100M16", "V100M32"];
    let models = [
        GpuModel::A10,
        GpuModel::G2,
        GpuModel::G3,
        GpuModel::P100,
        GpuModel::T4,
        GpuModel::V100M16,
        GpuModel::V100M32,
    ];
    for (name, model) in names.iter().zip(models) {
        assert_eq!(parse_multi_spec(name).unwrap(), GpuSpec::single(model));
    }
}

#[test]
fn names_joined_by_bars_are_united() {
    let spec = parse_multi_spec("A10|G2|T4|V100M16|V100M32").unwrap();
    assert_eq!(spec.bits(), 1 | 2 | 16 | 32 | 64);
    let spec = parse_multi_spec("V100M16|V100M32").unwrap();
    assert_eq!(spec.bits(), 32 | 64);
    let spec = parse_multi_spec("P100|T4|V100M16|V100M32").unwrap();
    assert_eq!(spec.bits(), 8 | 16 | 32 | 64);
    let spec = parse_multi_spec("A10|T4").unwrap();
    assert_eq!(spec.bits(), 17);
}

#[test]
fn a_name_may_come_twice() {
    assert_eq!(parse_multi_spec("T4|T4").unwrap(), GpuSpec::single(GpuModel::T4));
    assert_eq!(parse_multi_spec("G3|A10|G3").unwrap().bits(), 1 | 4);
}

#[test]
fn unknown_name_is_handed_back() {
    assert_eq!(unknown("H100"), "H100");
    assert_eq!(unknown("A10|H100|T4"), "H100");
    assert_eq!(unknown("A10|T4|K80"), "K80");
    assert_eq!(unknown("X|Y"), "X");
}

#[test]
fn names_are_matched_exactly() {
    assert_eq!(unknown("a10"), "a10");
    assert_eq!(unknown(" A10"), " A10");
    assert_eq!(unknown("A10 "), "A10 ");
    assert_eq!(unknown("A10 | T4"), "A10 ");
    assert_eq!(unknown("V100M1"), "V100M1");
    assert_eq!(unknown("V100M164"), "V100M164");
    assert_eq!(unknown("V100M36"), "V100M36");
    assert_eq!(unknown("P1000"), "P1000");
    assert_eq!(unknown("G4"), "G4");
    assert_eq!(unknown("T2"), "T2");
    assert_eq!(unknown("A11"), "A11");
}

#[test]
fn empty_name_in_a_list_is_unknown() {
    assert_eq!(unknown("|"), "");
    assert_eq!(unknown("A10|"), "");
    assert_eq!(unknown("|A10"), "");
    assert_eq!(unknown("A10||T4"), "");
}

#[test]
fn text_that_is_not_ascii_is_unknown() {
    let err = parse_multi_spec("A10|é").unwrap_err();
    assert_eq!(err.name, "é".as_bytes().to_vec());
}

#[test]
fn rows_compare_by_their_data() {
    let a = PodSpec { cpu_milli: 1, memory_mib: 2, num_gpu: 1, gpu_milli: 500, model: GpuSpec::empty() };
    let b = PodSpec { cpu_milli: 1, memory_mib: 2, num_gpu: 1, gpu_milli: 500, model: GpuSpec::empty() };
    let c = PodSpec { cpu_milli: 1, memory_mib: 2, num_gpu: 1, gpu_milli: 501, model: GpuSpec::empty() };
    assert_eq!(a, b);
    assert_ne!(a, c);
    let n = NodeSpec { cpu_milli: 1, memory_mib: 2, num_gpu: 8, model: GpuSpec::single(GpuModel::G3) };
    let m = NodeSpec { cpu_milli: 1, memory_mib: 2, num_gpu: 8, model: GpuSpec::single(GpuModel::G2) };
    assert_eq!(n, n);
    assert_ne!(n, m);
}

#[test]
fn a_row_is_valid_where_its_gpus_can_be_counted_in_thousandths() {
    let most = (u64::MAX / 1000) as usize;
    assert_eq!(most, 18_446_744_073_709_551);
    let node = |num_gpu| NodeSpec { cpu_milli: 1, memory_mib: 1, num_gpu, model: GpuSpec::empty() };
    assert!(node(0).is_valid());
    assert!(node(8).is_valid());
    assert!(node(most).is_valid());
    assert!(!node(most + 1).is_valid());
    assert!(!node(usize::MAX).is_valid());
    let pod = |num_gpu| PodSpec { cpu_milli: 1, memory_mib: 1, num_gpu, gpu_milli: u64::MAX, model: GpuSpec::empty() };
    assert!(pod(0).is_valid());
    assert!(pod(1).is_valid());
    assert!(pod(most).is_valid());
    assert!(!pod(most + 1).is_valid());
    assert!(!pod(usize::MAX).is_valid());
}
