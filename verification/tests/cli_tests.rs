use vaultseed::cli::{
    has_flag, get_arg_str, get_flag_value, require_arg, get_arg_u32, get_arg_uuid, parse_u32_token,
    get_mask_u32, get_argon2_params, get_u128_optional_alias, get_command, route, Route, CliCommand,
};

fn args(v: &[&str]) -> Vec<String> {
    v.iter().map(|s| s.to_string()).collect()
}

#[test]
fn flags_and_values() {
    let a = args(&["vs", "--kmac", "--domain", "exemplo.pt", "--variation", "--x"]);
    assert!(has_flag(&a, "--kmac"));
    assert!(!has_flag(&a, "--hmac"));
    assert_eq!(get_arg_str(&a, "--domain"), Some("exemplo.pt".to_string()));
    assert_eq!(get_arg_str(&a, "--variation"), None);
    assert_eq!(get_arg_str(&a, "--x"), None);
    assert_eq!(get_flag_value(&a, "--variation"), Some("--x".to_string()));
    assert_eq!(get_flag_value(&a, "--x"), None);
}

#[test]
fn first_occurrence_wins() {
    let a = args(&["vs", "--k1", "a", "--k1", "b"]);
    assert_eq!(get_arg_str(&a, "--k1"), Some("a".to_string()));
}

#[test]
fn required_arguments() {
    let a = args(&["vs", "--key", "00"]);
    assert_eq!(require_arg(&a, "--key"), Ok("00".to_string()));
    assert_eq!(require_arg(&a, "--seed"), Err("Argumento obrigatório em falta: --seed".to_string()));
}

#[test]
fn numbers_and_identifiers() {
    let a = args(&["vs", "--variation", "12", "--length", "x", "--device-uuid", "00000000-0000-0000-0000-0000000000ff"]);
    assert_eq!(get_arg_u32(&a, "--variation"), Some(12));
    assert_eq!(get_arg_u32(&a, "--length"), None);
    assert_eq!(get_arg_uuid(&a, "--device-uuid"), Some(255));
    assert_eq!(get_arg_uuid(&a, "--length"), None);
}

#[test]
fn u32_tokens() {
    assert_eq!(parse_u32_token(" 7 "), Ok(7));
    assert_eq!(parse_u32_token("0x1F"), Ok(31));
    assert_eq!(parse_u32_token("0X10"), Ok(16));
    assert_eq!(parse_u32_token("0xZZ"), Err("Valor hexadecimal inválido: 0xZZ".to_string()));
    assert_eq!(parse_u32_token(" abc"), Err("Valor inválido:  abc".to_string()));
    let a = args(&["vs", "--mask", "0x7"]);
    assert_eq!(get_mask_u32(&a, "--mask"), Ok(Some(7)));
    assert_eq!(get_mask_u32(&a, "--other"), Ok(None));
}

#[test]
fn argon2_costs_have_floors() {
    let a = args(&["vs", "--m-cost", "1024", "--t-cost", "9"]);
    assert_eq!(get_argon2_params(&a, None), (65536, 9, 4));
    assert_eq!(get_argon2_params(&args(&["vs"]), Some((131072, 2, 8))), (131072, 3, 8));
}

#[test]
fn u128_aliases() {
    let a = args(&["vs", "--min-target", "500", "--max", "x"]);
    assert_eq!(get_u128_optional_alias(&a, &["--min", "--min-target"]), Ok(Some(500)));
    assert_eq!(get_u128_optional_alias(&a, &["--none"]), Ok(None));
    assert_eq!(get_u128_optional_alias(&a, &["--max"]), Err("O valor de --max deve ser um inteiro.".to_string()));
}

#[test]
fn commands_skip_control_flags() {
    assert_eq!(get_command(&args(&["vs", "--pause", "--hmac", "--key", "00"])), Some("--hmac".to_string()));
    assert_eq!(get_command(&args(&["--kmac"])), None);
    assert_eq!(get_command(&args(&["vs", "x", "--cli"])), None);
}

#[test]
fn routes() {
    assert!(matches!(route(&args(&["vs"])), Route::Gui));
    assert!(matches!(route(&args(&["vs", "--kmac", "--help"])), Route::Help));
    assert!(matches!(route(&args(&["vs", "--cli", "--gui"])), Route::Cli));
    assert!(matches!(route(&args(&["vs", "--gui", "--kmac"])), Route::Gui));
    assert!(matches!(route(&args(&["vs", "--generate-static"])), Route::Command(CliCommand::GenerateStatic)));
    assert!(matches!(route(&args(&["vs", "--pause", "--derive-kek-session"])), Route::Command(CliCommand::DeriveKekSession)));
    assert!(matches!(route(&args(&["vs", "--launch"])), Route::Unrecognized));
    assert!(matches!(route(&args(&["vs", "plain"])), Route::NoCommand));
}
