use bytejack_rs::names::{get_alias, get_index, IndexCatalog, RangeTable};
use bytejack_rs::plan::{
    compute_node_signature, compute_plan_signature, plan_signature, PlanKind, PlanNode,
    ScalarNode, SignatureError,
};
use bytejack_rs::settings::{compute_settings_signature, EngineSettings};

fn leaf(kind: PlanKind) -> PlanNode {
    PlanNode { kind, left: None, right: None }
}

fn join(kind: PlanKind, l: PlanNode, r: PlanNode) -> PlanNode {
    PlanNode { kind, left: Some(Box::new(l)), right: Some(Box::new(r)) }
}

fn tables(names: &[&str]) -> RangeTable {
    RangeTable { aliases: names.iter().map(|s| s.to_string()).collect() }
}

fn no_indexes() -> IndexCatalog {
    IndexCatalog { hook: vec![], catalog: vec![] }
}

fn sig(rt: &RangeTable, names: &IndexCatalog, n: &PlanNode) -> String {
    plan_signature(rt, names, n).unwrap()
}

#[test]
fn seq_scan_on_orders() {
    let rt = tables(&["orders"]);
    let n = leaf(PlanKind::SeqScan { scan_target_ref: 1 });
    assert_eq!(sig(&rt, &no_indexes(), &n), "SeqScan orders");
}

#[test]
fn hash_join_over_two_scans() {
    let rt = tables(&["a", "b"]);
    let n = join(
        PlanKind::HashJoin { join_type: 0, key_count: 2 },
        leaf(PlanKind::SeqScan { scan_target_ref: 1 }),
        leaf(PlanKind::SeqScan { scan_target_ref: 2 }),
    );
    assert_eq!(sig(&rt, &no_indexes(), &n), "HashJoin 0 2 (SeqScan a,SeqScan b)");
}

#[test]
fn signature_is_deterministic() {
    let rt = tables(&["a", "b"]);
    let n = join(
        PlanKind::NestLoop { join_type: 1 },
        leaf(PlanKind::SeqScan { scan_target_ref: 1 }),
        leaf(PlanKind::Material),
    );
    let first = sig(&rt, &no_indexes(), &n);
    let second = sig(&rt, &no_indexes(), &n);
    assert_eq!(first, second);
    assert_eq!(first, "NestLoop 1 (SeqScan a,Material)");
}

#[test]
fn join_type_and_key_count_change_signature() {
    let rt = tables(&["a", "b"]);
    let build = |jt: u32, keys: i32| {
        join(
            PlanKind::MergeJoin { join_type: jt, clause_count: keys },
            leaf(PlanKind::SeqScan { scan_target_ref: 1 }),
            leaf(PlanKind::SeqScan { scan_target_ref: 2 }),
        )
    };
    let base = sig(&rt, &no_indexes(), &build(0, 1));
    assert_ne!(base, sig(&rt, &no_indexes(), &build(1, 1)));
    assert_ne!(base, sig(&rt, &no_indexes(), &build(0, 2)));
}

#[test]
fn child_order_changes_signature() {
    let rt = tables(&["a", "b"]);
    let ab = join(
        PlanKind::NestLoop { join_type: 0 },
        leaf(PlanKind::SeqScan { scan_target_ref: 1 }),
        leaf(PlanKind::SeqScan { scan_target_ref: 2 }),
    );
    let ba = join(
        PlanKind::NestLoop { join_type: 0 },
        leaf(PlanKind::SeqScan { scan_target_ref: 2 }),
        leaf(PlanKind::SeqScan { scan_target_ref: 1 }),
    );
    assert_ne!(sig(&rt, &no_indexes(), &ab), sig(&rt, &no_indexes(), &ba));
}

#[test]
fn unknown_range_table_entry_gives_sentinel() {
    let rt = tables(&["orders"]);
    let n = leaf(PlanKind::SeqScan { scan_target_ref: 5 });
    assert_eq!(sig(&rt, &no_indexes(), &n), "SeqScan UNKNOWN");
    let zero = leaf(PlanKind::BitmapHeapScan { scan_target_ref: 0 });
    assert_eq!(sig(&rt, &no_indexes(), &zero), "BitmapHeapScan UNKNOWN");
    assert_eq!(get_alias(2, &rt), "UNKNOWN");
    assert_eq!(get_alias(1, &rt), "orders");
}

#[test]
fn append_list_order_is_kept() {
    let rt = tables(&["a", "b"]);
    let a = || leaf(PlanKind::SeqScan { scan_target_ref: 1 });
    let b = || leaf(PlanKind::SeqScan { scan_target_ref: 2 });
    let ab = leaf(PlanKind::Append { plans: vec![a(), b()] });
    let ba = leaf(PlanKind::Append { plans: vec![b(), a()] });
    let s_ab = sig(&rt, &no_indexes(), &ab);
    assert_eq!(s_ab, "Append [SeqScan a,SeqScan b]");
    assert_ne!(s_ab, sig(&rt, &no_indexes(), &ba));
}

#[test]
fn empty_append_list() {
    let rt = tables(&[]);
    let n = leaf(PlanKind::Append { plans: vec![] });
    assert_eq!(sig(&rt, &no_indexes(), &n), "Append []");
}

#[test]
fn limit_without_offset_or_count() {
    let rt = tables(&[]);
    let n = leaf(PlanKind::Limit { offset: None, count: None, limit_option: 1 });
    assert_eq!(sig(&rt, &no_indexes(), &n), "Limit1");
}

#[test]
fn limit_with_offset_and_count() {
    let rt = tables(&["t"]);
    let n = PlanNode {
        kind: PlanKind::Limit {
            offset: Some(ScalarNode::Integer { value: 10 }),
            count: Some(ScalarNode::Integer { value: -5 }),
            limit_option: 0,
        },
        left: Some(Box::new(leaf(PlanKind::SeqScan { scan_target_ref: 1 }))),
        right: None,
    };
    assert_eq!(sig(&rt, &no_indexes(), &n), "Limit 10  -5 0 (SeqScan t)");
}

#[test]
fn unrecognized_kind_aborts() {
    let rt = tables(&["a"]);
    let bad = leaf(PlanKind::Unrecognized { tag: 999 });
    let n = join(PlanKind::NestLoop { join_type: 0 }, leaf(PlanKind::SeqScan { scan_target_ref: 1 }), bad);
    assert_eq!(
        plan_signature(&rt, &no_indexes(), &n).unwrap_err(),
        SignatureError::UnrecognizedPlanNodeKind { tag: 999 }
    );
    let nested = leaf(PlanKind::Append {
        plans: vec![leaf(PlanKind::Result), leaf(PlanKind::Unrecognized { tag: 7 })],
    });
    assert_eq!(
        plan_signature(&rt, &no_indexes(), &nested).unwrap_err(),
        SignatureError::UnrecognizedPlanNodeKind { tag: 7 }
    );
}

#[test]
fn unrecognized_scalar_aborts() {
    let rt = tables(&[]);
    let n = leaf(PlanKind::Limit {
        offset: Some(ScalarNode::Other { tag: 3 }),
        count: None,
        limit_option: 0,
    });
    assert_eq!(
        plan_signature(&rt, &no_indexes(), &n).unwrap_err(),
        SignatureError::UnrecognizedScalarKind { tag: 3 }
    );
    let mut out = String::new();
    assert_eq!(
        compute_node_signature(&Some(ScalarNode::Other { tag: 4 }), &mut out),
        Err(SignatureError::UnrecognizedScalarKind { tag: 4 })
    );
}

#[test]
fn scalar_rendering() {
    let mut out = String::from("x");
    compute_node_signature(&None, &mut out).unwrap();
    assert_eq!(out, "x");
    compute_node_signature(&Some(ScalarNode::Integer { value: 42 }), &mut out).unwrap();
    assert_eq!(out, "x 42 ");
    compute_node_signature(&Some(ScalarNode::Integer { value: i32::MIN }), &mut out).unwrap();
    assert_eq!(out, "x 42  -2147483648 ");
}

#[test]
fn index_name_prefers_hook() {
    let names = IndexCatalog {
        hook: vec![(7, "hooked_idx".to_string())],
        catalog: vec![(7, "orders_pkey".to_string()), (8, "orders_date_idx".to_string())],
    };
    assert_eq!(get_index(7, &names), "hooked_idx");
    assert_eq!(get_index(8, &names), "orders_date_idx");
    assert_eq!(get_index(9, &names), "UNKNOWN");
}

#[test]
fn index_scans_render_table_and_index() {
    let rt = tables(&["orders"]);
    let names = IndexCatalog { hook: vec![], catalog: vec![(16384, "orders_pkey".to_string())] };
    let s = |kind| sig(&rt, &names, &leaf(kind));
    assert_eq!(s(PlanKind::IndexScan { scan_target_ref: 1, index_ref: 16384 }), "IndexScan orders orders_pkey");
    assert_eq!(
        s(PlanKind::IndexOnlyScan { scan_target_ref: 1, index_ref: 16384 }),
        "IndexOnlyScan orders orders_pkey"
    );
    let bitmap = PlanNode {
        kind: PlanKind::BitmapHeapScan { scan_target_ref: 1 },
        left: Some(Box::new(leaf(PlanKind::BitmapOr {
            plans: vec![
                leaf(PlanKind::BitmapIndexScan { scan_target_ref: 1, index_ref: 16384 }),
                leaf(PlanKind::BitmapIndexScan { scan_target_ref: 1, index_ref: 1 }),
            ],
        }))),
        right: None,
    };
    assert_eq!(
        sig(&rt, &names, &bitmap),
        "BitmapHeapScan orders (BitmapOr [BitmapIndexScan orders orders_pkey,BitmapIndexScan orders UNKNOWN])"
    );
}

#[test]
fn numeric_node_kinds() {
    let rt = tables(&[]);
    let names = no_indexes();
    let s = |kind| sig(&rt, &names, &leaf(kind));
    assert_eq!(s(PlanKind::Hash { key_count: 3 }), "Hash 3");
    assert_eq!(s(PlanKind::Memoize { key_count: 2 }), "Memoize 2");
    assert_eq!(s(PlanKind::Sort { sort_column_count: 4 }), "Sort 4");
    assert_eq!(
        s(PlanKind::IncrementalSort { sort_column_count: 3, presorted_column_count: 1 }),
        "IncrementalSort 3 1"
    );
    assert_eq!(s(PlanKind::Group { group_column_count: 2 }), "Group 2");
    assert_eq!(s(PlanKind::Agg { strategy: 2, split_mode: 0 }), "Agg 2 0");
    assert_eq!(s(PlanKind::Gather { worker_count: 4 }), "Gather 4");
    assert_eq!(s(PlanKind::GatherMerge { worker_count: 2, sort_column_count: 1 }), "GatherMerge 2 1");
    assert_eq!(s(PlanKind::Material), "Material");
    assert_eq!(s(PlanKind::Result), "Result");
}

#[test]
fn bitmap_and_and_subquery() {
    let rt = tables(&["t"]);
    let names = no_indexes();
    let and = leaf(PlanKind::BitmapAnd { plans: vec![leaf(PlanKind::Result)] });
    assert_eq!(sig(&rt, &names, &and), "BitmapAnd [Result]");
    let sub = leaf(PlanKind::SubqueryScan {
        subplan: Some(Box::new(leaf(PlanKind::SeqScan { scan_target_ref: 1 }))),
    });
    assert_eq!(sig(&rt, &names, &sub), "SubqueryScan [SeqScan t]");
    let empty = leaf(PlanKind::SubqueryScan { subplan: None });
    assert_eq!(sig(&rt, &names, &empty), "SubqueryScan []");
}

#[test]
fn single_child_has_no_comma() {
    let rt = tables(&["t"]);
    let right_only = PlanNode {
        kind: PlanKind::Sort { sort_column_count: 1 },
        left: None,
        right: Some(Box::new(leaf(PlanKind::SeqScan { scan_target_ref: 1 }))),
    };
    assert_eq!(sig(&rt, &no_indexes(), &right_only), "Sort 1 (SeqScan t)");
}

#[test]
fn compute_appends_to_output() {
    let rt = tables(&["t"]);
    let n = leaf(PlanKind::SeqScan { scan_target_ref: 1 });
    let mut out = String::from("key:");
    compute_plan_signature(&rt, &no_indexes(), Some(&n), &mut out).unwrap();
    assert_eq!(out, "key:SeqScan t");
    compute_plan_signature(&rt, &no_indexes(), None, &mut out).unwrap();
    assert_eq!(out, "key:SeqScan t");
}

#[test]
fn settings_signature_example() {
    let s = EngineSettings {
        buffers: 16384,
        temp_buffers: 1024,
        work_mem: 4096,
        hash_mem_multiplier: "2.0".to_string(),
        io_concurrency: 1,
    };
    assert_eq!(compute_settings_signature(&s), "16384 1024 4096 2.0 1");
}

#[test]
fn settings_signature_negative_and_zero() {
    let s = EngineSettings {
        buffers: 0,
        temp_buffers: -1,
        work_mem: 64,
        hash_mem_multiplier: "1.5".to_string(),
        io_concurrency: 0,
    };
    assert_eq!(compute_settings_signature(&s), "0 -1 64 1.5 0");
}

#[test]
fn node_kind_changes_signature() {
    let rt = tables(&["t"]);
    let names = no_indexes();
    let gather = sig(&rt, &names, &leaf(PlanKind::Gather { worker_count: 2 }));
    let gather_merge = sig(&rt, &names, &leaf(PlanKind::GatherMerge { worker_count: 2, sort_column_count: 0 }));
    assert_eq!(gather, "Gather 2");
    assert_ne!(gather, gather_merge);
    let hash = sig(&rt, &names, &leaf(PlanKind::Hash { key_count: 1 }));
    let hash_join = sig(&rt, &names, &leaf(PlanKind::HashJoin { join_type: 1, key_count: 1 }));
    assert_ne!(hash, hash_join);
}

#[test]
fn index_scan_on_unknown_table() {
    let rt = tables(&[]);
    let names = IndexCatalog { hook: vec![(5, "idx".to_string())], catalog: vec![] };
    let n = leaf(PlanKind::IndexScan { scan_target_ref: 1, index_ref: 5 });
    assert_eq!(sig(&rt, &names, &n), "IndexScan UNKNOWN idx");
}
