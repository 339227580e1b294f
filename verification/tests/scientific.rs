use malleus::{shared_evaluations, KernelBlockId};
use std::collections::{BTreeMap, BTreeSet};

fn plan(deps: &BTreeMap<KernelBlockId, BTreeSet<String>>) -> Vec<(String, Vec<KernelBlockId>)> {
    let blocks = deps
        .iter()
        .map(|(block, dependencies)| (block.clone(), dependencies.iter().cloned().collect()))
        .collect();
    shared_evaluations(&blocks)
}

fn get<'a>(shared: &'a [(String, Vec<KernelBlockId>)], name: &str) -> Option<&'a Vec<KernelBlockId>> {
    shared.iter().find(|(dependency, _)| dependency == name).map(|(_, blocks)| blocks)
}

#[test]
fn cross_block_cse_only_reports_shared_values() {
    let thermal = KernelBlockId("thermal".into());
    let electrical = KernelBlockId("electrical".into());
    let deps = BTreeMap::from([
        (
            thermal.clone(),
            BTreeSet::from(["sigma(T)".into(), "k(T)".into()]),
        ),
        (electrical.clone(), BTreeSet::from(["sigma(T)".into()])),
    ]);
    let shared = plan(&deps);
    assert_eq!(get(&shared, "sigma(T)"), Some(&vec![electrical, thermal]));
    assert!(get(&shared, "k(T)").is_none());
}

#[test]
fn shared_values_come_in_name_order_with_every_user() {
    let blocks = vec![
        (KernelBlockId("a".into()), vec!["z".to_string(), "y".to_string(), "Z".to_string()]),
        (KernelBlockId("b".into()), vec!["y".to_string(), "z".to_string(), "x".to_string(), "Z".to_string()]),
        (KernelBlockId("c".into()), vec!["x".to_string(), "x".to_string(), "w".to_string()]),
    ];
    let shared = shared_evaluations(&blocks);
    let names: Vec<&str> = shared.iter().map(|(name, _)| name.as_str()).collect();
    assert_eq!(names, vec!["Z", "x", "y", "z"]);
    assert_eq!(shared[0].1, vec![KernelBlockId("a".into()), KernelBlockId("b".into())]);
    assert_eq!(shared[1].1, vec![KernelBlockId("b".into()), KernelBlockId("c".into())]);
    assert_eq!(shared[2].1, vec![KernelBlockId("a".into()), KernelBlockId("b".into())]);
    assert_eq!(shared[3].1, vec![KernelBlockId("a".into()), KernelBlockId("b".into())]);
    assert!(shared_evaluations(&vec![]).is_empty());
}
