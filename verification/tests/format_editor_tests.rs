use vaultseed::format_editor::{
    bits_in_use, toggle_bit, assert_format_editable, parse_card_kind, CardKind, EditorState,
    RESET_MASK, plan_default_mask, plan_insert_positions, reorder_sequence, remove_position,
    toggle_position_mask, next_char_list_bit, parse_entropy_bits,
};
use vaultseed::model::{CharacterList, MaskOrLiteral};

const NOT_EDITABLE: &str = "Esta restrição tem domínios associados. Remova-os primeiro para poder editar o formato.";

fn list(bit: u8) -> CharacterList {
    CharacterList { uuid: bit as u128, bit, name: format!("L{}", bit), elements: vec!["a".to_string()] }
}

fn masks(v: &[u32]) -> Vec<MaskOrLiteral> {
    v.iter().map(|m| MaskOrLiteral::Mask(*m)).collect()
}

fn codes(v: &[MaskOrLiteral]) -> Vec<String> {
    v.iter().map(|p| match p {
        MaskOrLiteral::Mask(m) => m.to_string(),
        MaskOrLiteral::Literal(s) => format!("'{}'", s),
    }).collect()
}

#[test]
fn bits_of_lists() {
    assert_eq!(bits_in_use(&[list(0), list(2), list(17)]), 0b101 | (1 << 17));
    assert_eq!(bits_in_use(&[]), 0);
    assert_eq!(toggle_bit(0b101, 1), 0b111);
    assert_eq!(toggle_bit(0b101, 0), 0b100);
}

#[test]
fn editable_only_without_domains() {
    assert_eq!(assert_format_editable(0), Ok(()));
    assert_eq!(assert_format_editable(3), Err(NOT_EDITABLE.to_string()));
}

#[test]
fn card_kinds() {
    assert_eq!(parse_card_kind("default"), Some(CardKind::Default));
    assert_eq!(parse_card_kind("custom"), Some(CardKind::Custom));
    assert_eq!(parse_card_kind("fixed"), Some(CardKind::Fixed));
    assert_eq!(parse_card_kind("Fixed"), None);
}

#[test]
fn default_mask_selection() {
    let mut e = EditorState::for_restriction(0b011);
    assert_eq!(e.selected_mask_bits, 0b011);
    assert_eq!(e.toggle_mask_list(2, 0b111), Ok(true));
    assert_eq!(e.selected_mask_bits, 0b111);
    assert_eq!(e.toggle_mask_list(40, 0b111), Ok(false));
    assert_eq!(e.toggle_mask_list(-1, 0b111), Ok(false));
    e.selected_mask_bits = 0b001;
    assert_eq!(e.toggle_mask_list(0, 0b111), Err("Selecione pelo menos uma lista.".to_string()));
    assert_eq!(e.selected_mask_bits, 0b001);
    e.reset_mask_default();
    assert_eq!(e.selected_mask_bits, RESET_MASK);
}

#[test]
fn card_creation_state() {
    let mut e = EditorState::for_restriction(0b1);
    e.view_position(2);
    e.select_card_kind("default", 0b110);
    assert_eq!(e.creating_card_kind.as_deref(), Some("default"));
    assert_eq!(e.card_mask_bits, 0b110);
    assert_eq!(e.viewing_position_index, None);
    e.select_card_kind("custom", 0b110);
    assert_eq!(e.card_mask_bits, 0);
    e.toggle_card_mask_list(3);
    e.toggle_card_mask_list(99);
    assert_eq!(e.card_mask_bits, 0b1000);
    e.select_card_kind("fixed", 0b110);
    assert_eq!(e.card_mask_bits, 0b1000);
    e.select_card_kind("", 0);
    assert_eq!(e.creating_card_kind, None);
    e.select_card_kind("custom", 0);
    e.clear_card_config();
    assert_eq!(e.creating_card_kind, None);
    assert_eq!(e.card_mask_bits, 0);
}

#[test]
fn position_detail_follows_removals() {
    let mut e = EditorState::for_restriction(1);
    e.select_card_kind("custom", 1);
    e.view_position(4);
    assert_eq!(e.viewing_position_index, Some(4));
    assert_eq!(e.creating_card_kind, None);
    e.after_position_removed(4, 4);
    assert_eq!(e.viewing_position_index, Some(3));
    e.after_position_removed(1, 3);
    assert_eq!(e.viewing_position_index, Some(1));
    e.after_position_removed(0, 0);
    assert_eq!(e.viewing_position_index, None);
    e.view_position(1);
    e.close_position_detail();
    assert_eq!(e.viewing_position_index, None);
}

#[test]
fn storing_the_default_mask() {
    assert_eq!(plan_default_mask(0, 0b1011, 0b0011), Ok(0b0011));
    assert_eq!(plan_default_mask(0, 0b1000, 0b0011), Err("Selecione pelo menos uma lista para o padrão.".to_string()));
    assert_eq!(plan_default_mask(2, 0b1, 0b1), Err(NOT_EDITABLE.to_string()));
}

#[test]
fn insertion_plans() {
    let ops = plan_insert_positions("custom", "", 3, 1, 4, 0, 0b1101, 0b0101).ok().unwrap();
    let rows: Vec<(usize, String)> = ops.iter().map(|o| (o.index, codes(std::slice::from_ref(&o.item))[0].clone())).collect();
    assert_eq!(rows, vec![(1, "5".to_string()), (2, "5".to_string()), (3, "5".to_string())]);
    let d = plan_insert_positions("default", "", 0, 99, 2, 0, 0, 0).ok().unwrap();
    assert_eq!(d.len(), 1);
    assert_eq!(d[0].index, 2);
    assert!(matches!(d[0].item, MaskOrLiteral::Mask(0)));
    let f = plan_insert_positions("fixed", "-", 5, -1, 3, 0, 0, 0).ok().unwrap();
    assert_eq!(f.len(), 1);
    assert_eq!(f[0].index, 3);
    assert!(matches!(&f[0].item, MaskOrLiteral::Literal(s) if s == "-"));
}

#[test]
fn insertion_errors() {
    assert!(matches!(plan_insert_positions("fixed", "", 1, 0, 0, 5, 0, 0), Err(e) if e == "O literal não pode estar vazio."));
    assert!(matches!(plan_insert_positions("default", "", 1, 0, 0, 5, 0, 0), Err(e) if e == NOT_EDITABLE));
    assert!(matches!(plan_insert_positions("wild", "", 1, 0, 0, 0, 0, 0), Err(e) if e == "Tipo de card inválido."));
    assert!(matches!(plan_insert_positions("custom", "", 1, 0, 0, 0, 0b10, 0b01), Err(e) if e == "Selecione pelo menos uma lista."));
}

#[test]
fn moving_positions() {
    let s = masks(&[1, 2, 3, 4]);
    assert_eq!(codes(&reorder_sequence(masks(&[1, 2, 3, 4]), 0, 3).ok().unwrap()), vec!["2", "3", "1", "4"]);
    assert_eq!(codes(&reorder_sequence(masks(&[1, 2, 3, 4]), 3, 0).ok().unwrap()), vec!["4", "1", "2", "3"]);
    assert_eq!(codes(&reorder_sequence(masks(&[1, 2, 3, 4]), 1, 99).ok().unwrap()), vec!["1", "3", "2", "4"]);
    assert_eq!(codes(&reorder_sequence(masks(&[1, 2, 3, 4]), 2, 2).ok().unwrap()), vec!["1", "2", "3", "4"]);
    assert!(matches!(reorder_sequence(s, 4, 0), Err(e) if e == "Índice de origem fora dos limites."));
    assert!(matches!(reorder_sequence(masks(&[1]), -1, 0), Err(e) if e == "Índice de origem fora dos limites."));
}

#[test]
fn moving_keeps_every_position() {
    for src in 0..4 {
        for dst in -1..6 {
            let mut r: Vec<u32> = reorder_sequence(masks(&[1, 2, 3, 4]), src, dst)
                .ok()
                .unwrap()
                .iter()
                .map(|p| match p { MaskOrLiteral::Mask(m) => *m, _ => 0 })
                .collect();
            r.sort();
            assert_eq!(r, vec![1, 2, 3, 4]);
        }
    }
}

#[test]
fn removing_and_editing_positions() {
    assert_eq!(codes(&remove_position(masks(&[1, 2, 3]), 1).ok().unwrap()), vec!["1", "3"]);
    assert!(matches!(remove_position(masks(&[1]), 1), Err(e) if e == "Índice fora dos limites."));
    let s = vec![MaskOrLiteral::Mask(0b11), MaskOrLiteral::Literal("x".to_string()), MaskOrLiteral::Mask(0b1)];
    assert_eq!(toggle_position_mask(&s, 0, 1), Ok(0b01));
    assert_eq!(toggle_position_mask(&s, 0, 4), Ok(0b10011));
    assert_eq!(toggle_position_mask(&s, 1, 0), Err("Posição inválida.".to_string()));
    assert_eq!(toggle_position_mask(&s, 9, 0), Err("Posição inválida.".to_string()));
    assert_eq!(toggle_position_mask(&s, 2, 0), Err("Selecione pelo menos uma lista.".to_string()));
}

#[test]
fn free_list_slots() {
    assert_eq!(next_char_list_bit(&[list(0), list(1)]), Ok(16));
    assert_eq!(next_char_list_bit(&[list(16), list(18)]), Ok(17));
    let full: Vec<CharacterList> = (16u8..=31).map(list).collect();
    assert_eq!(next_char_list_bit(&full), Err("Não há slots de lista disponíveis (máximo atingido).".to_string()));
}

#[test]
fn entropy_targets() {
    assert_eq!(parse_entropy_bits(" 128 "), Ok(128));
    assert_eq!(parse_entropy_bits("0"), Err("Número de bits inválido (mínimo: 1).".to_string()));
    assert_eq!(parse_entropy_bits("x"), Err("Número de bits inválido (mínimo: 1).".to_string()));
}
