use vaultseed::login::{
    read_32_bytes, optional_k_ext, check_login_request, plan_login, failure_message, login_result,
    LoginRequest, LoginPlan, KeySource, LoginFailure, OpenOutcome, LoginResult, LoginScreen,
};
use vaultseed::search_view::{
    top_ranked, query_is_blank, search_results, parse_search_pick, pick_sub_view,
    pick_missing_message, DomainHit, StaticHit, SearchPick, MAX_RESULTS,
};

fn request(k1: &str, k_ext: &str, xa: &str, xb: &str) -> LoginRequest {
    LoginRequest {
        path: "/s.vaultseed".to_string(),
        k1: k1.to_string(),
        k2: "k2".to_string(),
        k_ext: k_ext.to_string(),
        xor_path_a: xa.to_string(),
        xor_path_b: xb.to_string(),
    }
}

fn hex_error(s: &str) -> String {
    hex::decode(s).unwrap_err().to_string()
}

#[test]
fn values_of_32_bytes() {
    let h = "0x".to_string() + &"7f".repeat(32);
    assert_eq!(read_32_bytes(&format!("  {}  ", h), None), Ok(vec![0x7f; 32]));
    assert_eq!(read_32_bytes("ignored", Some(vec![1; 32])), Ok(vec![1; 32]));
    assert_eq!(read_32_bytes("ignored", Some(vec![1; 3])), Err("Ficheiro tem 3 bytes, esperado 32".to_string()));
    assert_eq!(read_32_bytes("00ff", None), Err("Hex tem 2 bytes, esperado 32".to_string()));
    assert_eq!(read_32_bytes("zz", None), Err(format!("Hex inválido: {}", hex_error("zz"))));
    assert_eq!(read_32_bytes("0x123", None), Err(format!("Hex inválido: {}", hex_error("123"))));
}

#[test]
fn optional_hardware_factor() {
    assert_eq!(optional_k_ext("", None), Ok(None));
    assert_eq!(optional_k_ext(&"00".repeat(32), None), Ok(Some(vec![0; 32])));
    assert_eq!(optional_k_ext("abc", None), Err(format!("K_ext inválido: Hex inválido: {}", hex_error("abc"))));
}

#[test]
fn login_needs_some_key() {
    assert_eq!(check_login_request("  ", " ", false), Err("Introduza K1 ou os ficheiros XOR.".to_string()));
    assert_eq!(check_login_request("  ", " ", true), Ok(()));
    assert_eq!(check_login_request("k", "", false), Ok(()));
    assert_eq!(check_login_request("", "/a.xor", false), Ok(()));
}

#[test]
fn login_plans() {
    assert!(matches!(plan_login(&request("k", "", "", ""), true, false, false, None, false), LoginPlan::AskHmac));
    assert!(matches!(
        plan_login(&request("k", "", "", ""), false, false, false, None, false),
        LoginPlan::Open { k_ext: None, keys: KeySource::Typed }
    ));
    assert!(matches!(
        plan_login(&request("k", "", "", ""), true, true, true, None, false),
        LoginPlan::Fail(e) if e == "Esta sessão requer fator físico (K_ext). Introduza o ficheiro ou hex."
    ));
    assert!(matches!(
        plan_login(&request("k", "zz", "", ""), true, true, true, None, false),
        LoginPlan::Fail(e) if e == format!("K_ext inválido: Hex inválido: {}", hex_error("zz"))
    ));
    match plan_login(&request("", "/k.bin", "/a", "/b"), true, true, true, Some(vec![9; 32]), false) {
        LoginPlan::Open { k_ext: Some(b), keys: KeySource::XorFiles } => assert_eq!(b, vec![9; 32]),
        _ => panic!("expected an opening with the XOR files"),
    }
    assert!(matches!(
        plan_login(&request("", "", "/a", ""), true, true, false, None, false),
        LoginPlan::Fail(e) if e == "K1 não pode estar vazio."
    ));
    assert!(matches!(
        plan_login(&request("", "", "", ""), true, true, false, None, true),
        LoginPlan::Open { k_ext: None, keys: KeySource::LoadedXor }
    ));
}

#[test]
fn login_outcomes_and_messages() {
    assert_eq!(failure_message(LoginFailure::Load, "x"), "Erro ao carregar ficheiro: x");
    assert_eq!(failure_message(LoginFailure::XorFiles, "y"), "Erro nos ficheiros XOR: y");
    assert_eq!(failure_message(LoginFailure::Keys, "z"), "Chaves inválidas: z");
    assert!(matches!(login_result("/s", OpenOutcome::Opened), LoginResult::Unlocked(p) if p == "/s"));
    assert!(matches!(login_result("/s", OpenOutcome::Tampered), LoginResult::HmacFail));
    assert!(matches!(login_result("/s", OpenOutcome::Failed("e".to_string())), LoginResult::Failed(e) if e == "e"));
}

#[test]
fn held_login_is_retried_unchanged() {
    let mut s = LoginScreen::new();
    assert!(s.submit("k", "", false));
    s.finish_attempt(request("k", "", "", ""), LoginResult::NoHmac);
    assert!(s.hmac_warning && !s.unlocked);
    let retry = s.confirm_no_hmac().unwrap();
    assert_eq!((retry.path.as_str(), retry.k1.as_str(), retry.k2.as_str()), ("/s.vaultseed", "k", "k2"));
    assert!(!s.hmac_warning && s.pending.is_none());
    s.finish_confirmed(LoginResult::HmacFail);
    assert_eq!(s.error, "Erro inesperado ao abrir sessão.");
    assert!(s.confirm_no_hmac().is_none());
}

#[test]
fn login_screen_answers() {
    let mut s = LoginScreen::new();
    assert!(!s.submit(" ", "", false));
    assert_eq!(s.error, "Introduza K1 ou os ficheiros XOR.");
    assert!(s.submit("k", "", false));
    assert_eq!(s.error, "");
    s.finish_attempt(request("k", "", "", ""), LoginResult::HmacFail);
    assert!(s.hmac_tampered && !s.hmac_warning);
    s.confirm_no_hmac();
    s.finish_confirmed(LoginResult::Unlocked("/s".to_string()));
    assert!(s.unlocked);
    assert_eq!(s.session_path, "/s");
    let mut t = LoginScreen::new();
    t.finish_attempt(request("k", "", "", ""), LoginResult::Failed("Chaves inválidas: curto".to_string()));
    assert_eq!(t.error, "Chaves inválidas: curto");
    assert!(!t.unlocked);
}

#[test]
fn ranking_takes_the_best_in_order() {
    assert_eq!(top_ranked(&vec![5, 1, 5, 0, 1], 3), vec![3, 1, 4]);
    assert_eq!(top_ranked(&vec![5, 1, 5, 0, 1], 10), vec![3, 1, 4, 0, 2]);
    assert_eq!(top_ranked(&vec![2, 2, 2], 2), vec![0, 1]);
    assert_eq!(top_ranked(&vec![], 10), Vec::<usize>::new());
    assert_eq!(top_ranked(&vec![1, 2], 0), Vec::<usize>::new());
}

#[test]
fn ranking_matches_a_stable_sort() {
    let scores: Vec<u32> = (0..40u32).map(|i| (i * 7919) % 13).collect();
    let mut idx: Vec<usize> = (0..scores.len()).collect();
    idx.sort_by_key(|&i| scores[i]);
    idx.truncate(MAX_RESULTS);
    assert_eq!(top_ranked(&scores, MAX_RESULTS), idx);
}

#[test]
fn search_result_rows() {
    assert!(query_is_blank("  \t"));
    assert!(!query_is_blank(" a "));
    let domains = vec![
        DomainHit { score: 3, domain_uuid: 1, identifier: "a.pt".to_string(), device_name: "PC".to_string(), restriction_name: "Web".to_string() },
        DomainHit { score: 1, domain_uuid: 2, identifier: "b.pt".to_string(), device_name: "PC".to_string(), restriction_name: "Pin".to_string() },
    ];
    let statics = vec![
        StaticHit { score: 1, uuid: 3, label: "wifi".to_string(), folder_path: "".to_string(), device_name: "Tlm".to_string(), compromised: true },
        StaticHit { score: 0, uuid: 4, label: "tv".to_string(), folder_path: "Casa".to_string(), device_name: "PC".to_string(), compromised: false },
    ];
    let r = search_results(&domains, &statics);
    let rows: Vec<(&str, &str, &str, bool)> = r.iter().map(|x| (x.kind.as_str(), x.label.as_str(), x.subtitle.as_str(), x.compromised)).collect();
    assert_eq!(rows, vec![
        ("static", "tv", "PC > Casa", false),
        ("domain", "b.pt", "PC › Pin", false),
        ("static", "wifi", "Tlm > (raiz)", true),
        ("domain", "a.pt", "PC › Web", false),
    ]);
    assert_eq!(r[0].uuid, "00000000-0000-0000-0000-000000000004");
}

#[test]
fn search_lists_at_most_ten() {
    let statics: Vec<StaticHit> = (0..15u128).map(|i| StaticHit {
        score: (15 - i) as u32,
        uuid: i,
        label: format!("s{}", i),
        folder_path: "f".to_string(),
        device_name: "d".to_string(),
        compromised: false,
    }).collect();
    let r = search_results(&Vec::new(), &statics);
    assert_eq!(r.len(), 10);
    assert_eq!(r[0].label, "s14");
    assert_eq!(r[9].label, "s5");
}

#[test]
fn picking_results() {
    let u = "00000000-0000-0000-0000-000000000010";
    assert_eq!(parse_search_pick("domain", u), Some(SearchPick::Domain(16)));
    assert_eq!(parse_search_pick("static", u), Some(SearchPick::StaticPassword(16)));
    assert_eq!(parse_search_pick("folder", u), None);
    assert_eq!(parse_search_pick("domain", "nope"), None);
    assert_eq!(pick_sub_view(SearchPick::Domain(1)), 3);
    assert_eq!(pick_sub_view(SearchPick::StaticPassword(1)), 2);
    assert_eq!(pick_missing_message(SearchPick::Domain(1)), "Domínio não encontrado.");
    assert_eq!(pick_missing_message(SearchPick::StaticPassword(1)), "Senha estática não encontrada.");
}
