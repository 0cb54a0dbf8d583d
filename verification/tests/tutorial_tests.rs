use vaultseed::tutorial::{resolve_device_name, parse_cost, Argon2Costs, Tutorial, FinishAction};

const COSTS: Argon2Costs = Argon2Costs { m: 65536, t: 3, p: 4 };

fn through_step3() -> Tutorial {
    let mut t = Tutorial::new();
    t.step0_next();
    t.step1("/home/u/s.vaultseed", "PC", true, false);
    t.device_calibrate_next(COSTS, Ok(()));
    t.step2("exemplo.pt");
    t.session_calibrate_next(Argon2Costs { m: 131072, t: 4, p: 4 }, Ok(()));
    t.step3("k-one", "k-two");
    t
}

#[test]
fn device_names_and_costs() {
    assert_eq!(resolve_device_name("  Portátil ", "Meu_Pc"), "Portátil");
    assert_eq!(resolve_device_name("   ", "Meu_Pc"), "Meu_Pc");
    assert_eq!(parse_cost(" 65536 "), 65536);
    assert_eq!(parse_cost("abc"), 0);
    assert_eq!(parse_cost(""), 0);
}

#[test]
fn first_step_checks() {
    let mut t = Tutorial::new();
    t.step0_next();
    assert_eq!(t.step, 1);
    t.step1("", "PC", true, false);
    assert_eq!(t.error, "O caminho da sessão não pode estar vazio.");
    t.step1("/x/s", "", true, false);
    assert_eq!(t.error, "O nome do dispositivo não pode estar vazio.");
    t.step1("/x/s", "PC", false, false);
    assert_eq!(t.error, "A pasta de destino não existe.");
    assert_eq!(t.step, 1);
}

#[test]
fn replacing_a_file_needs_the_warning_read() {
    let mut t = Tutorial::new();
    t.step0_next();
    t.step1("/x/s", "PC", true, true);
    assert_eq!(t.file_warning, "O ficheiro '/x/s' já existe e será substituído.");
    assert_eq!(t.step, 1);
    t.acknowledge_warning();
    t.step1("/x/s", "PC", true, true);
    assert_eq!(t.step, 2);
    assert_eq!(t.file_warning, "");
    let mut u = Tutorial::new();
    u.step1("/x/s", "PC", true, true);
    u.step1_override();
    assert_eq!(u.step, 2);
}

#[test]
fn calibrations_and_domain() {
    let mut t = Tutorial::new();
    t.device_calibrate_next(COSTS, Err("Parâmetros inválidos.".to_string()));
    assert_eq!(t.error, "Parâmetros inválidos.");
    assert_eq!(t.device_argon2, None);
    t.device_calibrate_next(COSTS, Ok(()));
    assert_eq!((t.step, t.device_argon2), (3, Some(COSTS)));
    t.step2("   ");
    assert_eq!(t.error, "O identificador do domínio não pode estar vazio.");
    t.step2(" exemplo.pt ");
    assert_eq!((t.step, t.domain_name.as_str()), (4, " exemplo.pt "));
    t.session_calibrate_next(COSTS, Ok(()));
    assert_eq!(t.step, 5);
}

#[test]
fn keys_must_be_confirmed() {
    let mut t = Tutorial::new();
    t.step3("", "b");
    assert_eq!(t.error, "K1 não pode estar vazio.");
    t.step3("a", "");
    assert_eq!(t.error, "K2 não pode estar vazio.");
    let mut t = through_step3();
    assert_eq!(t.step, 6);
    assert!(t.step4("k-on", "k-two").is_none());
    assert_eq!(t.error, "K1 não coincide com o valor introduzido anteriormente.");
    assert!(t.step4("k-one", "k-tw").is_none());
    assert_eq!(t.error, "K2 não coincide com o valor introduzido anteriormente.");
    let c = t.step4("k-one", "k-two").unwrap();
    assert_eq!((c.k1.as_str(), c.k2.as_str()), ("k-one", "k-two"));
    assert_eq!((c.session_path.as_str(), c.device_name.as_str(), c.domain_name.as_str()), ("/home/u/s.vaultseed", "PC", "exemplo.pt"));
    assert_eq!(c.device_argon2, COSTS);
    assert_eq!(c.session_argon2, Argon2Costs { m: 131072, t: 4, p: 4 });
    assert_eq!((t.step, t.loading, t.k1_pending.as_str()), (7, true, ""));
}

#[test]
fn missing_calibration_is_reported() {
    let mut t = Tutorial::new();
    t.step3("a", "b");
    assert!(t.step4("a", "b").is_none());
    assert_eq!(t.error, "Erro interno: calibração do dispositivo em falta.");
}

#[test]
fn creation_verification_and_finish() {
    let mut t = through_step3();
    t.step4("k-one", "k-two").unwrap();
    t.creation_done(Err("disco cheio".to_string()));
    assert_eq!((t.step, t.error.as_str(), t.loading), (6, "disco cheio", false));
    t.creation_done(Ok(77));
    assert_eq!((t.step, t.domain_uuid), (8, Some(77)));
    assert_eq!(t.step7_verify("", "x"), None);
    assert_eq!(t.error, "Introduza K1 e K2 para verificar.");
    assert_eq!(t.step7_verify("k-one", "k-two"), Some(77));
    assert!(t.loading);
    t.verify_done(Err("HMAC".to_string()));
    assert_eq!(t.error, "Chaves incorretas ou sessão inválida: HMAC");
    t.verify_done(Ok("Xy7!".to_string()));
    assert_eq!((t.password.as_str(), t.error.as_str(), t.loading), ("Xy7!", "", false));
    assert!(matches!(t.finish("", ""), FinishAction::CloseAndUnlock));
    assert_eq!((t.step, t.session_path.as_str()), (0, ""));
}

#[test]
fn finishing_before_creation_saves() {
    let mut t = Tutorial::new();
    t.step1("/x/s", "PC", true, false);
    assert!(matches!(t.finish("a", ""), FinishAction::Nothing));
    assert_eq!(t.error, "Verifique as chaves antes de gravar.");
    assert!(matches!(t.finish("a", "b"), FinishAction::Save(p) if p == "/x/s"));
    t.finish_done(Err("sem espaço".to_string()));
    assert_eq!((t.step, t.error.as_str()), (8, "Erro ao gravar sessão: sem espaço"));
    t.finish_done(Ok(()));
    assert_eq!(t.step, 0);
}

#[test]
fn restart_and_cancel() {
    let mut t = through_step3();
    t.step4("k-one", "k-two");
    t.creation_done(Ok(5));
    t.step7_restart();
    assert_eq!((t.step, t.domain_uuid), (0, None));
    assert_eq!(t.session_path, "/home/u/s.vaultseed");
    t.cancel();
    assert_eq!((t.step, t.device_name.as_str()), (0, ""));
    assert_eq!(t.device_argon2, None);
}
