use vaultseed::device_forms::{
    seed_choice, salt_choice, check_add_device, check_remove_device, within_window, edit_argon2_action,
    parse_edit_argon2, edit_nonce_action, parse_edit_nonce, parse_regenerate_salt, regenerate_salt_action,
    SeedChoice, SaltChoice, device_counts, DeviceCounts,
};
use vaultseed::session_forms::{
    session_save_path, check_save_k1, parse_calibration_target, compare_to_window, calibration_action,
    parse_calibration_action, parse_manual_argon2, validate_rotate_keys, validate_create_xor,
    check_both_keys, parse_kext_source, Comparison, KextSource,
};
use vaultseed::tutorial::Argon2Costs;

const U: &str = "00000000-0000-0000-0000-0000000000ab";

#[test]
fn where_sessions_are_saved() {
    assert_eq!(session_save_path(true, "/x/s.vaultseed"), "vaultseed-browser-session");
    assert_eq!(session_save_path(false, "/x/s.vaultseed"), "/x/s.vaultseed");
    assert_eq!(check_save_k1(""), Err("K1 não pode estar vazio.".to_string()));
    assert_eq!(check_save_k1(" "), Ok(()));
}

#[test]
fn calibration_targets() {
    assert_eq!(parse_calibration_target(" 2 "), Ok((2000, 3000)));
    assert_eq!(parse_calibration_target("0"), Err("Tempo alvo inválido (mínimo: 1 segundo).".to_string()));
    assert_eq!(parse_calibration_target("1.5"), Err("Tempo alvo inválido (mínimo: 1 segundo).".to_string()));
    assert_eq!(compare_to_window(900, 1000, 2000), Comparison::Below);
    assert_eq!(compare_to_window(1000, 1000, 2000), Comparison::Within);
    assert_eq!(compare_to_window(2001, 1000, 2000), Comparison::Above);
}

#[test]
fn calibration_record_round_trip() {
    let a = calibration_action(262144, 5, 8);
    assert_eq!(a, "calibration-result:262144:5:8");
    assert_eq!(parse_calibration_action(Some(&a)), Ok((262144, 5, 8)));
    assert_eq!(parse_calibration_action(Some("calibration-result:1:2:3:extra")), Ok((1, 2, 3)));
}

#[test]
fn calibration_record_errors() {
    assert_eq!(parse_calibration_action(None), Err("Nenhum resultado de calibração disponível.".to_string()));
    assert_eq!(parse_calibration_action(Some("rotate-keys")), Err("Nenhum resultado de calibração disponível.".to_string()));
    assert_eq!(parse_calibration_action(Some("calibration-result:1:2")), Err("Erro ao ler resultado de calibração.".to_string()));
    assert_eq!(parse_calibration_action(Some("calibration-result:1:x:3")), Err("Resultado de calibração inválido.".to_string()));
}

#[test]
fn manual_costs() {
    assert_eq!(parse_manual_argon2("65536", "3", "4"), Ok(Argon2Costs { m: 65536, t: 3, p: 4 }));
    assert_eq!(parse_manual_argon2("1024", "1", "1"), Err("Valor mínimo: 65536".to_string()));
    assert_eq!(parse_manual_argon2("65536", "2", "1"), Err("Valor mínimo: 3".to_string()));
    assert_eq!(parse_manual_argon2("65536", "3", "x"), Err(format!("Valor inválido: {}", "x".parse::<u32>().unwrap_err())));
}

#[test]
fn key_rotation_checks() {
    assert_eq!(validate_rotate_keys("a", "b", "c", "d", "x", "d"), Err("K1 não corresponde".to_string()));
    assert_eq!(validate_rotate_keys("a", "b", "c", "d", "c", "x"), Err("K2 não corresponde".to_string()));
    assert_eq!(validate_rotate_keys("a", "b", "a", "b", "a", "b"), Err("As novas chaves são iguais às actuais.".to_string()));
    assert_eq!(validate_rotate_keys("a", "b", "a", "c", "a", "c"), Ok(()));
}

#[test]
fn xor_files_and_hardware_factor() {
    assert_eq!(validate_create_xor("/a", "/a", "k", ""), Err("Os caminhos dos ficheiros têm de ser diferentes.".to_string()));
    assert_eq!(validate_create_xor("/a", "/b", "", ""), Err("Introduza pelo menos uma chave.".to_string()));
    assert_eq!(validate_create_xor("/a", "/b", "", "k2"), Ok(()));
    assert_eq!(check_both_keys("a", ""), Err("K1 e K2 são obrigatórios.".to_string()));
    assert_eq!(check_both_keys("a", "b"), Ok(()));
    assert_eq!(parse_kext_source("file"), Ok(KextSource::Read));
    assert_eq!(parse_kext_source("hex"), Ok(KextSource::Read));
    assert_eq!(parse_kext_source("new"), Ok(KextSource::New));
    assert_eq!(parse_kext_source("usb"), Err("Fonte de K_ext inválida.".to_string()));
}

#[test]
fn device_forms() {
    assert!(matches!(seed_choice("random", "", None), Ok(SeedChoice::Random)));
    assert!(matches!(seed_choice("plaintext", &"01".repeat(32), None), Ok(SeedChoice::Given(b)) if b == vec![1; 32]));
    assert!(matches!(seed_choice("plaintext", "0102", None), Err(e) if e == "Seed inválida: Hex tem 2 bytes, esperado 32"));
    assert!(matches!(seed_choice("encrypted", "{\"nonce\":1}", None), Ok(SeedChoice::Envelope(t)) if t == "{\"nonce\":1}"));
    assert!(matches!(seed_choice("x", "", None), Err(e) if e == "Fonte de seed inválida."));
    assert!(matches!(salt_choice("", None), Ok(SaltChoice::Generate)));
    assert!(matches!(salt_choice("/salt.bin", Some(vec![3; 32])), Ok(SaltChoice::Given(b)) if b == vec![3; 32]));
    assert!(matches!(salt_choice("/salt.bin", Some(vec![3; 4])), Err(e) if e == "Salt inválido: Ficheiro tem 4 bytes, esperado 32"));
    assert_eq!(check_add_device("  ", "65536", "3", "4"), Err("O nome não pode estar vazio.".to_string()));
    assert_eq!(check_add_device("PC", " 70000 ", "3", "4"), Ok(Argon2Costs { m: 70000, t: 3, p: 4 }));
    assert_eq!(check_add_device("PC", "65536", "3", "2"), Err("Valor mínimo: 4".to_string()));
    assert_eq!(check_remove_device(0), Ok(()));
    assert_eq!(check_remove_device(2), Err("Remova todas as restrições deste dispositivo antes de o apagar.".to_string()));
    assert!(within_window(1500, 1000, 2000));
    assert!(!within_window(2500, 1000, 2000));
}

#[test]
fn argon2_edit_record_round_trip() {
    let a = edit_argon2_action(0xab, 131072, 4, 6);
    assert_eq!(a, format!("edit-argon2:{}:131072:4:6", U));
    assert_eq!(parse_edit_argon2(&a), Ok((0xab, 131072, 4, 6)));
}

#[test]
fn argon2_edit_record_defaults_and_errors() {
    assert_eq!(parse_edit_argon2(&format!("edit-argon2:{}:x:y:z", U)), Ok((0xab, 65536, 3, 4)));
    assert_eq!(parse_edit_argon2("edit-argon2:nope:1:2:3"), Err("UUID inválido.".to_string()));
    assert_eq!(parse_edit_argon2(&format!("edit-argon2:{}:1:2", U)), Err("Erro interno: parâmetros inválidos.".to_string()));
}

#[test]
fn nonce_and_salt_records() {
    let a = edit_nonce_action(0xab, "00ff");
    assert_eq!(a, format!("edit-nonce:{}:00ff", U));
    assert_eq!(parse_edit_nonce(&a), Ok(0xab));
    assert_eq!(parse_edit_nonce(&format!("edit-nonce:{}", U)), Err("Erro interno: parâmetros inválidos.".to_string()));
    assert_eq!(parse_edit_nonce("edit-nonce:zz:00"), Err("UUID inválido.".to_string()));
    assert_eq!(parse_regenerate_salt(&format!("regenerate-salt:{}", U)), Ok(0xab));
    assert_eq!(parse_regenerate_salt("regenerate-salt:"), Err("UUID inválido.".to_string()));
}

#[test]
fn salt_request_round_trip() {
    let a = regenerate_salt_action(0xab);
    assert_eq!(a, format!("regenerate-salt:{}", U));
    assert_eq!(parse_regenerate_salt(&a), Ok(0xab));
    assert_eq!(parse_edit_nonce(&edit_nonce_action(7, "a:b")), Ok(7));
}

#[test]
fn device_figures() {
    let counts = device_counts(&vec![3, 0, 5], &vec![false, true, false, false]);
    assert_eq!(counts, DeviceCounts { restriction_count: 3, domain_count: 8, static_count: 3 });
    let none = device_counts(&Vec::new(), &vec![true]);
    assert_eq!(none, DeviceCounts { restriction_count: 0, domain_count: 0, static_count: 0 });
}
