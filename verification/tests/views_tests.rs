use vaultseed::ids::read_uuid;
use vaultseed::hex_view::hex_string;
use vaultseed::domain_view::frozen_hmac_text;
use vaultseed::domain_view::{
    restriction_has_format, check_add_domain, remove_domain_message, frozen_sequence_display,
    frozen_lists_display, version_index, newest_first_ranks,
};
use vaultseed::export_build::StaticEntry;
use vaultseed::local_settings::{
    check_calibration_window, parse_optional_u32, parse_optional_usize, benchmark_argon2_inputs,
    benchmark_export_inputs, build_local_state_item, LocalSettings,
};
use vaultseed::model::{CharacterList, MaskOrLiteral};
use vaultseed::selection::Selection;
use vaultseed::static_view::{
    folder_items, shown_passwords, selected_folder_index,
    check_add_static, check_rename_folder, check_remove_folder, check_create_folder,
};

fn entry(uuid: u128, folder: &str, compromised: bool) -> StaticEntry {
    StaticEntry { uuid, label: format!("s{}", uuid), folder_path: folder.to_string(), compromised }
}

#[test]
fn domain_forms() {
    assert!(!restriction_has_format(&None));
    assert!(!restriction_has_format(&Some(Vec::new())));
    assert!(restriction_has_format(&Some(vec![MaskOrLiteral::Mask(0)])));
    assert_eq!(check_add_domain("  ", true, true), Err("O identificador não pode estar vazio.".to_string()));
    assert_eq!(check_add_domain("a.pt", false, true), Err("Nenhuma restrição seleccionada.".to_string()));
    assert_eq!(
        check_add_domain("a.pt", true, false),
        Err("Esta restrição não tem formato definido. Defina-o (\"Gerar novo formato\") antes de criar domínios.".to_string())
    );
    assert_eq!(check_add_domain("a.pt", true, true), Ok(()));
    assert_eq!(remove_domain_message(0), "Remove o domínio permanentemente. Operação irreversível.");
    assert_eq!(remove_domain_message(2), "Remove o domínio e 2 versão(ões) comprometida(s). Operação irreversível.");
}

#[test]
fn frozen_configuration_text() {
    let seq = vec![MaskOrLiteral::Mask(7), MaskOrLiteral::Literal("-".to_string())];
    assert_eq!(frozen_sequence_display(&seq), "    1. máscara 7 (bits: 0,1,2)\n    2. literal '-'");
    let many: Vec<MaskOrLiteral> = (0..12).map(|_| MaskOrLiteral::Mask(1)).collect();
    let text = frozen_sequence_display(&many);
    assert_eq!(text.lines().last(), Some(format!("  {:>3}. máscara 1 (bits: 0)", 12).as_str()));
    assert_eq!(frozen_sequence_display(&Vec::new()), "");
    let lists = vec![
        CharacterList { uuid: 1, bit: 0, name: "Minúsculas".to_string(), elements: vec!["a".to_string(); 26] },
        CharacterList { uuid: 2, bit: 17, name: "Extra".to_string(), elements: Vec::new() },
    ];
    assert_eq!(frozen_lists_display(&lists), "  bit  0: Minúsculas (26 elementos)\n  bit 17: Extra (0 elementos)");
}

#[test]
fn versions_newest_first() {
    let ts = vec![(100i64, 0u32), (300, 0), (200, 5), (300, 0)];
    let ids = vec![10u128, 11, 12, 13];
    assert_eq!(version_index(&ts, &ids, 11), 0);
    assert_eq!(version_index(&ts, &ids, 13), 1);
    assert_eq!(version_index(&ts, &ids, 12), 2);
    assert_eq!(version_index(&ts, &ids, 10), 3);
    assert_eq!(version_index(&ts, &ids, 99), -1);
}

#[test]
fn version_ranks_newest_first() {
    let ts = vec![(100i64, 0u32), (300, 0), (200, 5), (300, 0), (200, 7)];
    assert_eq!(newest_first_ranks(&ts), vec![4, 0, 3, 1, 2]);
    assert_eq!(newest_first_ranks(&Vec::new()), Vec::<usize>::new());
}

#[test]
fn folders_and_their_passwords() {
    let all = vec![entry(1, "", false), entry(2, "Casa", true), entry(3, "", true), entry(4, "Casa", false), entry(5, "", false)];
    let folders = vec!["".to_string(), "Casa".to_string()];
    let items = folder_items(&folders, &all);
    assert_eq!((items[0].name.as_str(), items[0].display_name.as_str(), items[0].normal_count, items[0].compromised_count), ("", "(raiz)", 2, 1));
    assert_eq!((items[1].display_name.as_str(), items[1].normal_count, items[1].compromised_count), ("Casa", 1, 1));
    assert_eq!(shown_passwords(&all, "", false), vec![1, 5]);
    assert_eq!(shown_passwords(&all, "", true), vec![3]);
    assert_eq!(shown_passwords(&all, "Casa", true), vec![2]);
    assert_eq!(selected_folder_index(&folders, &Some("Casa".to_string())), 1);
    assert_eq!(selected_folder_index(&folders, &Some("Outra".to_string())), -1);
    assert_eq!(selected_folder_index(&folders, &None), -1);
}

#[test]
fn folder_selection_follows_renames_and_removals() {
    let mut s = Selection::new();
    s.select_folder("A".to_string(), false);
    s.select_static_password(Some(9));
    s.folder_renamed("A", "B");
    assert_eq!(s.folder.as_deref(), Some("B"));
    s.folder_renamed("X", "Y");
    assert_eq!(s.folder.as_deref(), Some("B"));
    s.folder_removed("C");
    assert_eq!((s.folder.as_deref(), s.static_password), (Some("B"), Some(9)));
    s.folder_removed("B");
    assert_eq!((s.folder.as_deref(), s.static_password), (Some(""), None));
    let mut n = Selection::new();
    n.folder_renamed("A", "B");
    assert_eq!(n.folder, None);
}

#[test]
fn static_password_forms() {
    assert_eq!(check_add_static(" ", "v", "a", "b", true), Err("A etiqueta não pode estar vazia.".to_string()));
    assert_eq!(check_add_static("l", " ", "a", "b", true), Err("O valor não pode estar vazio.".to_string()));
    assert_eq!(check_add_static("l", "v", "", "b", true), Err("K1 e K2 são obrigatórios.".to_string()));
    assert_eq!(check_add_static("l", "v", "a", "b", false), Err("Nenhum dispositivo seleccionado.".to_string()));
    assert_eq!(check_add_static("l", "v", "a", "b", true), Ok(()));
    assert_eq!(check_rename_folder("A", " ", true), Err("O novo nome não pode estar vazio.".to_string()));
    assert_eq!(check_rename_folder("A", "A", true), Err("O nome é igual ao actual.".to_string()));
    assert_eq!(check_rename_folder("A", "B", false), Err("Nenhum dispositivo seleccionado.".to_string()));
    assert_eq!(check_rename_folder("A", "B", true), Ok(()));
    assert_eq!(check_remove_folder(""), Err("Não é possível remover a pasta raiz.".to_string()));
    assert_eq!(check_remove_folder("A"), Ok(()));
    assert_eq!(check_create_folder("  Viagens ", true), Ok("Viagens".to_string()));
    assert_eq!(check_create_folder(" ", true), Err("O nome da pasta não pode estar vazio.".to_string()));
    assert_eq!(check_create_folder("x", false), Err("Nenhum dispositivo seleccionado.".to_string()));
}

#[test]
fn calibration_windows() {
    assert_eq!(check_calibration_window(" 1000 ", "1200"), Ok((1000, 1200)));
    assert_eq!(check_calibration_window("x", "1200"), Err("Mínimo inválido - introduza um número inteiro positivo.".to_string()));
    assert_eq!(check_calibration_window("1000", "-1"), Err("Máximo inválido - introduza um número inteiro positivo.".to_string()));
    assert_eq!(check_calibration_window("1200", "1200"), Err("O mínimo deve ser inferior ao máximo.".to_string()));
    assert_eq!(check_calibration_window("1000", "1199"), Err("A diferença entre mínimo e máximo deve ser de pelo menos 200 ms.".to_string()));
}

#[test]
fn optional_numbers_and_benchmark_inputs() {
    assert_eq!(parse_optional_u32("  "), None);
    assert_eq!(parse_optional_u32(" 12 "), Some(12));
    assert_eq!(parse_optional_u32("x"), None);
    assert_eq!(parse_optional_usize("7"), Some(7));
    assert_eq!(benchmark_argon2_inputs("1024", "", "9"), (Some(65536), None, Some(9)));
    assert_eq!(benchmark_argon2_inputs("70000", "2", "y"), (Some(70000), Some(3), None));
    assert_eq!(benchmark_export_inputs("0", "", "5", "x", "20"), (Some(1), None, Some(5), None, Some(20)));
}

#[test]
fn settings_page() {
    let ls = LocalSettings {
        calibration_min_target_ms: Some(800),
        calibration_max_target_ms: None,
        benchmark_m_cost_kib: None,
        benchmark_t_cost: Some(5),
        benchmark_p_cost: None,
        benchmark_device_count: None,
        benchmark_domains_per_device: Some(40),
        benchmark_static_per_device: None,
        benchmark_k1_len: None,
        benchmark_k2_len: Some(32),
        wasm_browser_storage: true,
    };
    let item = build_local_state_item(&ls);
    assert_eq!((item.calibration_min_ms.as_str(), item.calibration_max_ms.as_str()), ("800", ""));
    assert_eq!((item.benchmark_m_cost.as_str(), item.benchmark_t_cost.as_str(), item.benchmark_p_cost.as_str()), ("65536", "5", "4"));
    assert_eq!(
        (item.benchmark_device_count.as_str(), item.benchmark_domains_per_device.as_str(), item.benchmark_static_per_device.as_str()),
        ("3", "40", "5")
    );
    assert_eq!((item.benchmark_k1_len.as_str(), item.benchmark_k2_len.as_str()), ("16", "32"));
    assert!(item.wasm_browser_storage);
}

#[test]
fn identifiers_read_from_text() {
    assert_eq!(read_uuid("00000000-0000-0000-0000-00000000002a"), Some(42));
    assert_eq!(read_uuid("67e55044-10b1-426f-9247-bb680e5fe0c8"), Some(0x67e5504410b1426f9247bb680e5fe0c8));
    assert_eq!(read_uuid("não é um uuid"), None);
    assert_eq!(read_uuid(""), None);
}

#[test]
fn bytes_as_hex_text() {
    assert_eq!(hex_string(&[]), "");
    assert_eq!(hex_string(&[0x00, 0x0f, 0xa5, 0xff]), "000fa5ff");
    assert_eq!(frozen_hmac_text(Some(vec![0xde, 0xad, 0x01])), "dead01");
    assert_eq!(frozen_hmac_text(None), "(não disponível)");
}
