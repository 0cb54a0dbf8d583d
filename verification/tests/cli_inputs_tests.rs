use vaultseed::cli_inputs::{
    decode_hex, require_hex, require_hex_32, require_hex_24, get_hex_optional, get_hex_32_optional,
    get_or_generate_nonce, get_context_source, generate_inputs, parse_mask_list, masks_source,
    resolve_default_mask_sentinels, mark_default_masks, compute_alphabet_sizes_for_masks, static_aad,
    static_kmac_context, static_inputs, static_mode, ContextSource, MaskToken, MaskSource,
    StaticMode,
};
use vaultseed::model::MaskOrLiteral;

fn args(v: &[&str]) -> Vec<String> {
    v.iter().map(|s| s.to_string()).collect()
}

fn hex64() -> String {
    "ab".repeat(32)
}

#[test]
fn hex_decoding_matches_the_hex_crate() {
    for s in ["", "00ff", "0A1b", "abc", "zz", "é0", "0x00"] {
        assert_eq!(decode_hex(s), hex::decode(s).ok(), "input {:?}", s);
    }
    assert_eq!(decode_hex("c0fFEE"), Some(vec![0xc0, 0xff, 0xee]));
}

#[test]
fn required_hex_arguments() {
    let a = args(&["vs", "--key", "0011", "--bad", "xyz"]);
    assert_eq!(require_hex(&a, "--key"), Ok(vec![0x00, 0x11]));
    assert_eq!(require_hex(&a, "--bad"), Err("--bad não é hex válido".to_string()));
    assert_eq!(require_hex(&a, "--none"), Err("Argumento obrigatório em falta: --none".to_string()));
    assert_eq!(
        require_hex_32(&a, "--key"),
        Err("--key deve ter 32 bytes (64 hex chars), recebido: 2".to_string())
    );
    assert_eq!(
        require_hex_24(&a, "--key"),
        Err("--key deve ter 24 bytes (48 hex chars), recebido: 2".to_string())
    );
    let k = hex64();
    let b = args(&["vs", "--key", &k]);
    assert_eq!(require_hex_32(&b, "--key"), Ok(vec![0xab; 32]));
}

#[test]
fn optional_hex_arguments() {
    let k = hex64();
    let a = args(&["vs", "--salt", &k, "--short", "00", "--bad", "q"]);
    assert_eq!(get_hex_optional(&a, "--short"), Some(vec![0]));
    assert_eq!(get_hex_optional(&a, "--bad"), None);
    assert_eq!(get_hex_32_optional(&a, "--salt"), Some(vec![0xab; 32]));
    assert_eq!(get_hex_32_optional(&a, "--short"), None);
    assert_eq!(get_hex_32_optional(&a, "--absent"), None);
}

#[test]
fn nonces() {
    let n = "01".repeat(24);
    assert_eq!(get_or_generate_nonce(&args(&["vs", "--nonce", &n])), Ok(vec![1; 24]));
    assert_eq!(get_or_generate_nonce(&args(&["vs", "--nonce", "zz"])), Err("Nonce hex inválido".to_string()));
    assert_eq!(
        get_or_generate_nonce(&args(&["vs", "--nonce", "0102"])),
        Err("Nonce deve ter 24 bytes, recebido: 2".to_string())
    );
    let a = get_or_generate_nonce(&args(&["vs"])).unwrap();
    let b = get_or_generate_nonce(&args(&["vs"])).unwrap();
    assert_eq!(a.len(), 24);
    assert_eq!(b.len(), 24);
    assert_ne!(a, b);
}

#[test]
fn context_sources() {
    match get_context_source(&args(&["vs", "--context", "ctx", "--domain", "d"])) {
        Ok(ContextSource::Explicit(c)) => assert_eq!(c, "ctx"),
        _ => panic!("expected the explicit context"),
    }
    match get_context_source(&args(&["vs", "--domain", "exemplo.pt", "--variation", "3"])) {
        Ok(ContextSource::Parts { domain, variation, device, restriction }) => {
            assert_eq!(domain, "exemplo.pt");
            assert_eq!(variation, 3);
            assert_eq!(device, 1);
            assert_eq!(restriction, 2);
        }
        _ => panic!("expected the parts"),
    }
    assert!(matches!(
        get_context_source(&args(&["vs"])),
        Err(e) if e == "É necessário --domain ou --context"
    ));
}

#[test]
fn generation_inputs() {
    let k = hex64();
    let g = generate_inputs(&args(&["vs", "--seed", &k, "--mask", "0x3f", "--device-uuid", "00000000-0000-0000-0000-000000000009"])).ok().unwrap();
    assert_eq!(g.seed, vec![0xab; 32]);
    assert_eq!(g.domain, "example.com");
    assert_eq!(g.variation, 0);
    assert_eq!(g.device, 9);
    assert_eq!(g.restriction, 2);
    assert_eq!(g.mask, 63);
    let d = generate_inputs(&args(&["vs", "--seed", &k])).ok().unwrap();
    assert_eq!(d.mask, 7);
    assert!(matches!(generate_inputs(&args(&["vs", "--seed", &k, "--mask", "m"])), Err(e) if e == "Valor inválido: m"));
    assert!(matches!(generate_inputs(&args(&["vs"])), Err(e) if e == "Argumento obrigatório em falta: --seed"));
}

#[test]
fn mask_lists() {
    match parse_mask_list("7, /abc/ ,0x10,0") {
        Ok(v) => {
            assert_eq!(v.len(), 4);
            assert!(matches!(&v[0], MaskToken::Mask(7)));
            assert!(matches!(&v[1], MaskToken::Literal(s) if s == "/abc/"));
            assert!(matches!(&v[2], MaskToken::Mask(16)));
            assert!(matches!(&v[3], MaskToken::Mask(0)));
        }
        Err(e) => panic!("unexpected error {}", e),
    }
    assert!(matches!(parse_mask_list("7,x"), Err(e) if e == "Valor inválido: x"));
    assert!(matches!(masks_source(&args(&["vs", "--length", "12"])), Ok(MaskSource::Repeat(12))));
    assert!(matches!(masks_source(&args(&["vs"])), Ok(MaskSource::Max)));
    assert!(matches!(masks_source(&args(&["vs", "--masks", "1,2", "--length", "3"])), Ok(MaskSource::List(v)) if v.len() == 2));
}

#[test]
fn sentinels_resolve_once() {
    let seq = vec![MaskOrLiteral::Mask(0), MaskOrLiteral::Literal("-".to_string()), MaskOrLiteral::Mask(5)];
    let r = resolve_default_mask_sentinels(&seq, 7);
    assert!(matches!(r[0], MaskOrLiteral::Mask(7)));
    assert!(matches!(&r[1], MaskOrLiteral::Literal(s) if s == "-"));
    assert!(matches!(r[2], MaskOrLiteral::Mask(5)));
    let again = resolve_default_mask_sentinels(&r, 7);
    assert!(matches!(again[0], MaskOrLiteral::Mask(7)));
    assert!(matches!(again[2], MaskOrLiteral::Mask(5)));
}

#[test]
fn alphabet_sizes_follow_the_masks() {
    let seq = vec![
        MaskOrLiteral::Mask(7),
        MaskOrLiteral::Literal("/-/".to_string()),
        MaskOrLiteral::Mask(1),
        MaskOrLiteral::Mask(99),
        MaskOrLiteral::Mask(7),
    ];
    let dict = vec![(1u32, 26usize), (7u32, 62usize)];
    assert_eq!(compute_alphabet_sizes_for_masks(&seq, &dict), vec![62, 26, 62]);
}

#[test]
fn static_password_texts() {
    assert_eq!(
        static_aad(16, 1),
        "v1|STATIC|senha_estatica:00000000-0000-0000-0000-000000000010|device:00000000-0000-0000-0000-000000000001"
    );
    assert_eq!(static_kmac_context(255), "v1|STATIC|00000000-0000-0000-0000-0000000000ff");
}

#[test]
fn static_password_inputs() {
    let k = hex64();
    let s = static_inputs(&args(&["vs", "--mode", "enc", "--seed", &k, "--entry-uuid", "00000000-0000-0000-0000-000000000003"])).ok().unwrap();
    assert_eq!(s.mode, "enc");
    assert_eq!(s.entry, 3);
    assert_eq!(s.device, 1);
    assert!(matches!(static_inputs(&args(&["vs", "--seed", &k])), Err(e) if e == "Argumento obrigatório em falta: --mode"));
    let r1 = static_inputs(&args(&["vs", "--mode", "dec", "--seed", &k])).ok().unwrap();
    let r2 = static_inputs(&args(&["vs", "--mode", "dec", "--seed", &k])).ok().unwrap();
    assert_ne!(r1.entry, r2.entry);
    assert_eq!((r1.entry >> 76) & 0xF, 4);
    assert_eq!((r1.entry >> 62) & 0x3, 2);
    assert_eq!(static_mode("enc"), Ok(StaticMode::Encrypt));
    assert_eq!(static_mode("dec"), Ok(StaticMode::Decrypt));
    assert_eq!(static_mode("x"), Err("--mode deve ser 'enc' ou 'dec'".to_string()));
}

#[test]
fn marking_the_default_mask_and_resolving_it_back() {
    let seq = vec![MaskOrLiteral::Mask(7), MaskOrLiteral::Mask(3), MaskOrLiteral::Literal("/x/".to_string())];
    let marked = mark_default_masks(&seq, 7);
    assert!(matches!(marked[0], MaskOrLiteral::Mask(0)));
    assert!(matches!(marked[1], MaskOrLiteral::Mask(3)));
    let back = resolve_default_mask_sentinels(&marked, 7);
    assert!(matches!(back[0], MaskOrLiteral::Mask(7)));
    assert!(matches!(back[1], MaskOrLiteral::Mask(3)));
    assert!(matches!(&back[2], MaskOrLiteral::Literal(s) if s == "/x/"));
}
