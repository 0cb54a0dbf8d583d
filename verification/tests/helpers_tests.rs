use vaultseed::helpers::{parse_mask, parse_u32_with_min, parse_csv_elements, format_csv_elements, mask_bits_string};

#[test]
fn parse_mask_decimal_and_hex() {
    assert_eq!(parse_mask(" 7 "), Ok(7));
    assert_eq!(parse_mask("0xff"), Ok(255));
    assert_eq!(parse_mask("   "), Err("Entrada vazia".to_string()));
    let expected = format!("Parse error: {}", "1x".parse::<u32>().unwrap_err());
    assert_eq!(parse_mask("1x"), Err(expected));
}

#[test]
fn parse_min_bound() {
    assert_eq!(parse_u32_with_min("65536", 65536), Ok(65536));
    assert_eq!(parse_u32_with_min("3", 4), Err("Valor mínimo: 4".to_string()));
}

#[test]
fn csv_round_trip_example() {
    let v = vec![" a".to_string(), "b".to_string(), "c".to_string()];
    let s = format_csv_elements(&v);
    assert_eq!(s, "{ a}, b, c");
    assert_eq!(parse_csv_elements(&s), Ok(v));
}

#[test]
fn mask_bits_example() {
    assert_eq!(mask_bits_string(7), "0,1,2");
    assert_eq!(mask_bits_string(0), "");
}

use vaultseed::helpers::{
    validate_match, validate_not_empty, bit_to_slot, slot_to_bit, mask_categories_string,
    dispatch_confirm_action, LegacyDispatch,
};
use vaultseed::model::CharacterList;

fn list(bit: u8, name: &str) -> CharacterList {
    CharacterList { uuid: bit as u128, bit, name: name.to_string(), elements: Vec::new() }
}

#[test]
fn parse_mask_errors_and_bounds() {
    assert_eq!(parse_mask("0x"), Err(format!("Parse error: {}", "".parse::<u32>().unwrap_err())));
    assert_eq!(parse_mask("4294967295"), Ok(u32::MAX));
    assert_eq!(parse_mask("4294967296"), Err(format!("Parse error: {}", "4294967296".parse::<u32>().unwrap_err())));
    assert_eq!(parse_mask("0xFFFFFFFF"), Ok(u32::MAX));
    assert_eq!(parse_mask("+5"), Ok(5));
}

#[test]
fn parse_with_min_invalid_text() {
    let e = "abc".parse::<u32>().unwrap_err();
    assert_eq!(parse_u32_with_min(" abc ", 1), Err(format!("Valor inválido: {}", e)));
    assert_eq!(parse_u32_with_min(" 12 ", 12), Ok(12));
}

#[test]
fn csv_parse_errors_and_escapes() {
    assert_eq!(parse_csv_elements("a, b ,c"), Ok(vec!["a".to_string(), "b".to_string(), "c".to_string()]));
    assert_eq!(parse_csv_elements("{,}, x"), Ok(vec![",".to_string(), "x".to_string()]));
    assert_eq!(format_csv_elements(&vec!["".to_string(), "a,b".to_string(), "z".to_string()]), "{}, {a,b}, z");
}

#[test]
fn csv_round_trip_law_values() {
    let v = vec![" pad ".to_string(), "x y".to_string(), "z".to_string()];
    assert_eq!(format_csv_elements(&v), "{ pad }, x y, z");
    assert_eq!(parse_csv_elements(&format_csv_elements(&v)), Ok(v));
    let first_only = vec![",".to_string()];
    assert_eq!(parse_csv_elements(&format_csv_elements(&first_only)), Ok(first_only));
}

#[test]
fn csv_braced_element_after_the_first_keeps_the_space() {
    let v = vec!["a".to_string(), " b".to_string()];
    assert_eq!(format_csv_elements(&v), "a, { b}");
    assert_eq!(parse_csv_elements("a, { b}"), Ok(vec!["a".to_string(), "  b".to_string()]));
}

#[test]
fn csv_errors() {
    assert_eq!(parse_csv_elements("a, {b"), Err("Carácter especial sem '}' de fecho.".to_string()));
    assert_eq!(parse_csv_elements(" , ,"), Err("Lista vazia".to_string()));
}

#[test]
fn validate_match_and_empty_messages() {
    assert_eq!(validate_match("a", "a", "K1"), Ok(()));
    assert_eq!(validate_match("a", "b", "K1"), Err("K1 não corresponde".to_string()));
    assert_eq!(validate_not_empty("  x ", "Nome"), Ok(()));
    assert_eq!(validate_not_empty(" \t", "Nome"), Err("Nome não pode estar vazio".to_string()));
}

#[test]
fn slots_and_bits() {
    assert_eq!(bit_to_slot(16), 1);
    assert_eq!(bit_to_slot(31), 16);
    assert_eq!(slot_to_bit(1), 16);
    assert_eq!(slot_to_bit(bit_to_slot(20)), 20);
}

#[test]
fn mask_bits_high_bits() {
    assert_eq!(mask_bits_string(0x8000_0001), "0,31");
}

#[test]
fn mask_categories_examples() {
    let lists = vec![list(0, "Minúsculas"), list(1, "Maiúsculas"), list(2, "Dígitos"), list(17, "Minha")];
    assert_eq!(mask_categories_string(0b101, &lists), "Minúsculas, Dígitos");
    assert_eq!(mask_categories_string(0, &lists), "(vazio)");
    assert_eq!(mask_categories_string(0b1000, &lists), "(vazio)");
    assert_eq!(mask_categories_string((1 << 17) | (1 << 20), &lists), "+2 personalizada(s)");
    assert_eq!(mask_categories_string(0b10 | (1 << 16), &lists), "Maiúsculas, +1 personalizada(s)");
}

const U1: &str = "00000000-0000-0000-0000-000000000001";
const U2: &str = "00000000-0000-0000-0000-000000000002";

#[test]
fn legacy_dispatch_single_identifier() {
    assert!(matches!(dispatch_confirm_action(&format!("remove-device:{}", U1)), LegacyDispatch::RemoveDevice(1)));
    assert!(matches!(dispatch_confirm_action(&format!("remove-restriction:{}", U2)), LegacyDispatch::RemoveRestriction(2)));
    assert!(matches!(dispatch_confirm_action(&format!("remove-domain:{}", U1)), LegacyDispatch::RemoveDomain(1)));
    assert!(matches!(dispatch_confirm_action(&format!("remove-static:{}", U1)), LegacyDispatch::RemoveStatic(1)));
    assert!(matches!(dispatch_confirm_action("remove-device:not-a-uuid"), LegacyDispatch::Nothing));
    assert!(matches!(dispatch_confirm_action("lock"), LegacyDispatch::Nothing));
}

#[test]
fn legacy_dispatch_two_parts() {
    assert!(matches!(dispatch_confirm_action(&format!("delete-frozen:{}:{}", U1, U2)), LegacyDispatch::DeleteFrozen(1, 2)));
    assert!(matches!(dispatch_confirm_action(&format!("delete-frozen:{}:{}:x", U1, U2)), LegacyDispatch::Nothing));
    match dispatch_confirm_action(&format!("remove-folder:{}:Trabalho:2024", U1)) {
        LegacyDispatch::RemoveFolder(u, f) => {
            assert_eq!(u, 1);
            assert_eq!(f, "Trabalho:2024");
        }
        _ => panic!("expected a folder removal"),
    }
    assert!(matches!(dispatch_confirm_action(&format!("remove-folder:{}", U1)), LegacyDispatch::Nothing));
}

#[test]
fn csv_only_commas_and_space_is_empty_list() {
    for input in ["", ",", " , ,\t", ",,,"] {
        assert_eq!(parse_csv_elements(input), Err("Lista vazia".to_string()));
    }
    assert_eq!(parse_csv_elements(" a , b,,c} "), Ok(vec!["a".to_string(), "b".to_string(), "c}".to_string()]));
}

#[test]
fn csv_without_braces_reads_as_split_trim_drop_empty() {
    for input in ["x, y", " p ,, q ,r", "one", "  a}b , c  ,"] {
        let v: Vec<String> = input.split(',').map(|p| p.trim().to_string()).filter(|p| !p.is_empty()).collect();
        assert_eq!(parse_csv_elements(input), Ok(v));
    }
}

#[test]
fn mask_reads_back_from_decimal_and_hex() {
    for n in [0u32, 1, 9, 10, 255, 0x1234_abcd, u32::MAX] {
        assert_eq!(parse_mask(&n.to_string()), Ok(n));
        assert_eq!(parse_mask(&format!("0x{:x}", n)), Ok(n));
        assert_eq!(parse_mask(&format!(" 0x{:X} ", n)), Ok(n));
        assert_eq!(parse_mask(&format!("\t{} \n", n)), Ok(n));
    }
}

#[test]
fn mask_bits_are_increasing_and_spell_the_mask() {
    assert_eq!(mask_bits_string(0), "");
    for mask in [1u32, 0b1010_0001, 0x8000_0001, u32::MAX] {
        let text = mask_bits_string(mask);
        let bits: Vec<u32> = text.split(',').map(|t| t.parse().unwrap()).collect();
        assert!(bits.windows(2).all(|w| w[0] < w[1]));
        assert!(bits.iter().all(|&b| b < 32));
        assert_eq!(bits.iter().fold(0u32, |m, &b| m | (1u32 << b)), mask);
    }
    assert_eq!(mask_bits_string(0b1010_0001), "0,5,7");
}
