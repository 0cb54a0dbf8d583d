use vaultseed::export_build::{build_tree, DeviceEntry, DomainEntry, RestrictionEntry, StaticEntry};
use vaultseed::export_request::{parse_export_format, plan_export, frame_export, ExportFormat};
use vaultseed::export_tree::{
    set_all_selected, filter_by_device, flatten_tree, propagate_child_selection_up,
    toggle_by_flat_index, toggle_recursive, compute_summary, extract_selected_uuids, merge_selection, NodeKind,
    TreeNode, ExportSummary,
};

fn node(uuid: u128, label: &str, kind: NodeKind, children: Vec<TreeNode>) -> TreeNode {
    TreeNode { uuid, label: label.to_string(), node_type: kind, selected: false, children }
}

/// Device 1 (restriction 10 with domains 100, 101; folder 20 with static 200)
/// and device 2 (restriction 11 with domain 110).
fn sample() -> Vec<TreeNode> {
    vec![
        node(1, "PC", NodeKind::Device, vec![
            node(10, "Web", NodeKind::Restriction, vec![
                node(100, "a.pt", NodeKind::DerivedPassword, vec![]),
                node(101, "b.pt", NodeKind::DerivedPassword, vec![]),
            ]),
            node(20, "(estáticas - raiz)", NodeKind::Folder, vec![
                node(200, "wifi", NodeKind::StaticPassword, vec![]),
            ]),
        ]),
        node(2, "Tlm", NodeKind::Device, vec![
            node(11, "Pin", NodeKind::Restriction, vec![
                node(110, "c.pt", NodeKind::DerivedPassword, vec![]),
            ]),
        ]),
    ]
}

fn selected_uuids(tree: &Vec<TreeNode>) -> Vec<u128> {
    flatten_tree(tree).iter().filter(|f| f.selected).map(|f| f.uuid).collect()
}

#[test]
fn flattening_is_depth_first_with_indents() {
    let flat = flatten_tree(&sample());
    let rows: Vec<(u128, usize, bool)> = flat.iter().map(|f| (f.uuid, f.indent, f.has_children)).collect();
    assert_eq!(rows, vec![
        (1, 0, true), (10, 1, true), (100, 2, false), (101, 2, false), (20, 1, true), (200, 2, false),
        (2, 0, true), (11, 1, true), (110, 2, false),
    ]);
    assert_eq!(flat[4].label, "(estáticas - raiz)");
    assert_eq!(flat[4].node_type, NodeKind::Folder);
}

#[test]
fn select_and_deselect_all() {
    let mut t = sample();
    set_all_selected(&mut t, true);
    assert_eq!(selected_uuids(&t).len(), 9);
    set_all_selected(&mut t, false);
    assert!(selected_uuids(&t).is_empty());
}

#[test]
fn toggling_a_leaf_marks_its_groups() {
    let mut t = sample();
    toggle_by_flat_index(&mut t, 2);
    assert_eq!(selected_uuids(&t), vec![1, 10, 100]);
    toggle_by_flat_index(&mut t, 2);
    assert_eq!(selected_uuids(&t), vec![1, 10]);
}

#[test]
fn toggling_a_group_toggles_its_subtree() {
    let mut t = sample();
    toggle_by_flat_index(&mut t, 6);
    assert_eq!(selected_uuids(&t), vec![2, 11, 110]);
    toggle_by_flat_index(&mut t, 6);
    assert!(selected_uuids(&t).is_empty());
}

#[test]
fn toggling_beyond_the_rows_changes_nothing() {
    let mut t = sample();
    toggle_by_flat_index(&mut t, 4);
    let before = selected_uuids(&t);
    toggle_by_flat_index(&mut t, 99);
    assert_eq!(selected_uuids(&t), before);
}

#[test]
fn propagation_only_adds() {
    let mut t = sample();
    t[1].children[0].children[0].selected = true;
    propagate_child_selection_up(&mut t);
    assert_eq!(selected_uuids(&t), vec![2, 11, 110]);
}

#[test]
fn device_filter() {
    let mut t = sample();
    filter_by_device(&mut t, 1);
    assert_eq!(selected_uuids(&t), vec![2, 11, 110]);
    filter_by_device(&mut t, 0);
    assert_eq!(selected_uuids(&t), vec![1, 10, 100, 101, 20, 200]);
    filter_by_device(&mut t, -1);
    assert_eq!(selected_uuids(&t).len(), 9);
    filter_by_device(&mut t, 5);
    assert_eq!(selected_uuids(&t).len(), 9);
}

#[test]
fn summary_and_identifiers() {
    let mut t = sample();
    toggle_by_flat_index(&mut t, 3);
    toggle_by_flat_index(&mut t, 5);
    let s = compute_summary(&t);
    assert_eq!((s.device_count, s.restriction_count, s.domain_count, s.static_count), (1, 1, 1, 1));
    let (d, r, dm, st) = extract_selected_uuids(&t);
    assert_eq!(d, vec![1]);
    assert_eq!(r, vec![10]);
    assert_eq!(dm, vec![101]);
    assert_eq!(st, vec![200]);
}

#[test]
fn unselected_device_hides_its_entries() {
    let mut t = sample();
    t[0].children[0].children[0].selected = true;
    let (d, r, dm, st) = extract_selected_uuids(&t);
    assert!(d.is_empty() && r.is_empty() && dm.is_empty() && st.is_empty());
    assert_eq!(compute_summary(&t).domain_count, 1);
}

#[test]
fn merging_keeps_the_old_selection() {
    let mut old = sample();
    toggle_by_flat_index(&mut old, 2);
    let mut fresh = sample();
    fresh[0].children[0].children.push(node(102, "new.pt", NodeKind::DerivedPassword, vec![]));
    fresh.push(node(3, "Novo", NodeKind::Device, vec![]));
    let merged = merge_selection(&old, fresh);
    assert_eq!(selected_uuids(&merged), vec![1, 10, 100]);
    assert_eq!(flatten_tree(&merged).len(), 11);
}

#[test]
fn tree_from_the_vault() {
    let devices = vec![DeviceEntry {
        uuid: 1,
        name: "PC".to_string(),
        restrictions: vec![RestrictionEntry {
            uuid: 10,
            name: "Web".to_string(),
            domains: vec![DomainEntry { uuid: 100, identifier: "a.pt".to_string() }],
        }],
        statics: vec![
            StaticEntry { uuid: 200, label: "wifi".to_string(), folder_path: "".to_string(), compromised: false },
            StaticEntry { uuid: 201, label: "banco".to_string(), folder_path: "Casa".to_string(), compromised: true },
            StaticEntry { uuid: 202, label: "tv".to_string(), folder_path: "".to_string(), compromised: false },
        ],
    }];
    let t = build_tree(&devices).ok().unwrap();
    let flat = flatten_tree(&t);
    let labels: Vec<&str> = flat.iter().map(|f| f.label.as_str()).collect();
    assert_eq!(labels, vec![
        "PC", "Web", "a.pt", "(estáticas - raiz)", "wifi", "tv", "(estáticas - Casa)", "banco (comprometida)",
    ]);
    assert!(flat.iter().all(|f| !f.selected));
    assert_ne!(flat[3].uuid, flat[6].uuid);
    assert_eq!(flat[3].node_type, NodeKind::Folder);
    for f in [&flat[3], &flat[6]] {
        assert_eq!((f.uuid >> 76) & 0xF, 4);
        assert_eq!((f.uuid >> 62) & 0x3, 2);
    }
}

#[test]
fn export_formats_and_bytes() {
    assert_eq!(parse_export_format("json"), ExportFormat::Json);
    assert_eq!(parse_export_format("txt"), ExportFormat::Txt);
    assert_eq!(parse_export_format("csv"), ExportFormat::Csv);
    assert_eq!(parse_export_format("JSON"), ExportFormat::Csv);
    assert_eq!(frame_export(&b"a,b".to_vec(), ExportFormat::Csv), vec![0xEF, 0xBB, 0xBF, b'a', b',', b'b']);
    assert_eq!(frame_export(&b"{}".to_vec(), ExportFormat::Json), b"{}".to_vec());
    assert_eq!(frame_export(&Vec::new(), ExportFormat::Txt), vec![0xEF, 0xBB, 0xBF]);
}

#[test]
fn export_plans() {
    let some = ExportSummary { device_count: 1, restriction_count: 1, domain_count: 2, static_count: 0 };
    let none = ExportSummary { device_count: 1, restriction_count: 0, domain_count: 0, static_count: 0 };
    let p = plan_export(" senhas ", "/home/u//", "csv", "k1", "k2", &some).ok().unwrap();
    assert_eq!(p.path, "/home/u/senhas.csv");
    assert_eq!(p.format, ExportFormat::Csv);
    assert!(matches!(plan_export(" ", "/x", "csv", "a", "b", &some), Err(e) if e == "O nome do ficheiro não pode estar vazio."));
    assert!(matches!(plan_export("f", "  ", "csv", "a", "b", &some), Err(e) if e == "A pasta de destino não pode estar vazia."));
    assert!(matches!(plan_export("f", "/x", "csv", "", "b", &some), Err(e) if e == "K1 e K2 são obrigatórios para desencriptar as seeds dos dispositivos."));
    assert!(matches!(plan_export("f", "/x", "json", "a", "b", &none), Err(e) if e == "Selecione pelo menos um domínio ou senha estática."));
}

fn check_groups_marked(nodes: &Vec<TreeNode>) {
    for n in nodes {
        let group = matches!(n.node_type, NodeKind::Device | NodeKind::Restriction | NodeKind::Folder);
        if group && n.children.iter().any(|c| c.selected) {
            assert!(n.selected);
        }
        check_groups_marked(&n.children);
    }
}

#[test]
fn after_toggles_groups_with_a_selected_child_are_selected() {
    for rows in [vec![2usize], vec![3, 5], vec![9], vec![0, 2], vec![5, 6, 7]] {
        let mut t = sample();
        for r in rows {
            toggle_by_flat_index(&mut t, r);
        }
        check_groups_marked(&t);
        let s = compute_summary(&t);
        let (d, r, dm, st) = extract_selected_uuids(&t);
        assert_eq!(
            (s.device_count as usize, s.restriction_count as usize, s.domain_count as usize, s.static_count as usize),
            (d.len(), r.len(), dm.len(), st.len())
        );
    }
}

#[test]
fn a_toggle_keeps_the_selection_outside_its_subtree() {
    let mut t = sample();
    toggle_by_flat_index(&mut t, 6);
    toggle_by_flat_index(&mut t, 5);
    let before = flatten_tree(&t);
    toggle_by_flat_index(&mut t, 1);
    let after = flatten_tree(&t);
    assert_eq!(before.len(), after.len());
    for i in [0usize, 4, 5, 6, 7, 8] {
        if before[i].selected {
            assert!(after[i].selected);
        }
        assert_eq!(before[i].uuid, after[i].uuid);
    }
    assert!(after[6].selected && after[7].selected && after[8].selected);
    assert!(after[1].selected && after[2].selected && after[3].selected);
}

#[test]
fn devices_without_static_passwords_build_without_random_identifiers() {
    let devices = vec![DeviceEntry {
        uuid: 7,
        name: "Portátil".to_string(),
        restrictions: vec![RestrictionEntry { uuid: 70, name: "R".to_string(), domains: vec![] }],
        statics: vec![],
    }];
    let t = build_tree(&devices).ok().unwrap();
    let flat = flatten_tree(&t);
    assert_eq!(flat.iter().map(|f| f.uuid).collect::<Vec<u128>>(), vec![7, 70]);
    assert!(build_tree(&Vec::new()).ok().unwrap().is_empty());
}

#[test]
fn toggle_recursive_finds_the_row_or_counts_all_rows() {
    let mut t = sample();
    let mut counter = 0usize;
    assert!(toggle_recursive(&mut t, 1, &mut counter));
    let flat = flatten_tree(&t);
    let sel: Vec<bool> = flat.iter().map(|f| f.selected).collect();
    assert_eq!(sel, vec![false, true, true, true, false, false, false, false, false]);
    let mut u = sample();
    let mut counter = 0usize;
    assert!(!toggle_recursive(&mut u, 9, &mut counter));
    assert_eq!(counter, 9);
    assert!(flatten_tree(&u).iter().all(|f| !f.selected));
}
