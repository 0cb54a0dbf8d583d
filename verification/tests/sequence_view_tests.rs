use vaultseed::model::{CharacterList, MaskOrLiteral};
use vaultseed::sequence_view::{
    card_width, millibits_to_bits, effective_masks, sequence_items, char_list_items, custom_mask,
    position_detail, card_preview_mask, card_preview, drag_target_gap, selected_index, SequenceItem,
    CARD_GAP, CARD_WIDTH_MASK, CARD_WIDTH_FIXED_MIN, layout_fits,
};

fn list(bit: u8, name: &str, elements: &[&str]) -> CharacterList {
    CharacterList {
        uuid: 1000 + bit as u128,
        bit,
        name: name.to_string(),
        elements: elements.iter().map(|e| e.to_string()).collect(),
    }
}

#[test]
fn card_widths() {
    assert_eq!(card_width("custom", ""), CARD_WIDTH_MASK);
    assert_eq!(card_width("default", "ignored"), 44);
    assert_eq!(card_width("fixed", ""), CARD_WIDTH_FIXED_MIN);
    assert_eq!(card_width("fixed", "abc"), 3 * 9 + 24);
    assert_eq!(card_width("fixed", "çã"), 2 * 9 + 24);
}

#[test]
fn whole_bits_of_millibits() {
    assert_eq!(millibits_to_bits(128_999), 128);
    assert_eq!(millibits_to_bits(999), 0);
}

#[test]
fn masks_whose_entropy_is_shown() {
    let seq = vec![MaskOrLiteral::Mask(0), MaskOrLiteral::Literal("-".to_string()), MaskOrLiteral::Mask(12)];
    assert_eq!(effective_masks(&seq, 7), vec![Some(7), None, Some(12)]);
}

#[test]
fn sequence_cards_are_laid_out_left_to_right() {
    let lists = vec![list(0, "Minúsculas", &["a"]), list(1, "Maiúsculas", &["A"])];
    let seq = vec![MaskOrLiteral::Mask(0), MaskOrLiteral::Mask(3), MaskOrLiteral::Literal("@#".to_string())];
    let (items, geometry, end_x) = sequence_items(&seq, &lists, &vec![10_500, 20_000, 0]);
    assert_eq!(items.len(), 3);
    assert_eq!((items[0].index, items[0].kind.as_str(), items[0].code, items[0].entropy_bits), (1, "default", 0, 10));
    assert_eq!(items[0].categories, "");
    assert_eq!((items[1].kind.as_str(), items[1].code, items[1].categories.as_str()), ("custom", 3, "Minúsculas, Maiúsculas"));
    assert_eq!((items[2].kind.as_str(), items[2].literal.as_str(), items[2].entropy_bits), ("fixed", "@#", 0));
    let fixed_w = 2 * 9 + 24;
    assert_eq!(geometry, vec![(44, CARD_GAP), (44, CARD_GAP + 44 + CARD_GAP), (fixed_w, CARD_GAP + 2 * (44 + CARD_GAP))]);
    assert_eq!(end_x, CARD_GAP + 2 * (44 + CARD_GAP) + fixed_w + CARD_GAP);
    for (it, g) in items.iter().zip(geometry.iter()) {
        assert_eq!((it.width, it.x_offset), *g);
    }
}

#[test]
fn empty_sequence_layout() {
    let (items, geometry, end_x) = sequence_items(&Vec::new(), &[], &Vec::new());
    assert!(items.is_empty() && geometry.is_empty());
    assert_eq!(end_x, CARD_GAP);
}

#[test]
fn character_list_rows() {
    let lists = vec![list(0, "Minúsculas", &["a", "b"]), list(17, "Emoji", &["😀", "x,y"])];
    let rows = char_list_items(&lists, 1 << 17);
    assert_eq!(rows.len(), 2);
    assert_eq!((rows[0].bit, rows[0].editable, rows[0].selected, rows[0].count), (0, false, false, 2));
    assert_eq!(rows[0].elements, "a, b");
    assert_eq!(rows[0].slot, 241);
    assert_eq!((rows[1].slot, rows[1].slot_max, rows[1].editable, rows[1].selected), (2, 16, true, true));
    assert_eq!(rows[1].elements, "😀, {x,y}");
    assert_eq!(rows[1].uuid, 1017);
}

#[test]
fn custom_mask_of_user_lists() {
    let lists = vec![list(0, "a", &["a"]), list(16, "u", &["u"]), list(31, "v", &["v"])];
    assert_eq!(custom_mask(&lists) as u32, (1 << 16) | (1u32 << 31));
    assert_eq!(custom_mask(&lists[..1]), 0);
}

#[test]
fn position_details() {
    let lists = vec![list(0, "Minúsculas", &["a"])];
    let seq = vec![MaskOrLiteral::Mask(1), MaskOrLiteral::Literal("!".to_string())];
    let (items, _, _) = sequence_items(&seq, &lists, &vec![4_700, 0]);
    let d = position_detail(&items, Some(1));
    assert!(d.visible);
    assert_eq!((d.kind.as_str(), d.index, d.fixed_value.as_str()), ("fixed", 2, "!"));
    let first = position_detail(&items, Some(0));
    assert_eq!((first.code, first.entropy_bits), (1, 4));
    let hidden = position_detail(&items, Some(2));
    assert!(!hidden.visible && hidden.kind.is_empty() && hidden.index == 0);
    assert!(!position_detail(&items, None).visible);
}

#[test]
fn card_previews() {
    let none: Option<String> = None;
    assert_eq!(card_preview_mask(&none, 7, 3), None);
    assert_eq!(card_preview_mask(&Some("fixed".to_string()), 7, 3), None);
    assert_eq!(card_preview_mask(&Some("default".to_string()), 7, 3), Some(7));
    assert_eq!(card_preview_mask(&Some("custom".to_string()), 7, 3), Some(3));
    let p = card_preview(&Some("custom".to_string()), 7, 3, 9_999);
    assert_eq!((p.kind.as_str(), p.code, p.entropy_bits), ("custom", 3, 9));
    let d = card_preview(&Some("default".to_string()), 7, 3, 12_000);
    assert_eq!((d.kind.as_str(), d.code, d.entropy_bits), ("default", 0, 12));
    let f = card_preview(&Some("fixed".to_string()), 7, 3, 12_000);
    assert_eq!((f.kind.as_str(), f.code, f.entropy_bits), ("fixed", 0, 0));
    let e = card_preview(&none, 7, 3, 12_000);
    assert!(e.kind.is_empty());
    let empty = SequenceItem::empty();
    assert_eq!((empty.index, empty.width, empty.x_offset), (0, 0, 0));
}

#[test]
fn drag_gaps() {
    let geometry = vec![(44, 14), (44, 72), (44, 130)];
    let end_x = 188;
    assert_eq!(drag_target_gap(&geometry, end_x, 0), 0);
    assert_eq!(drag_target_gap(&geometry, end_x, 70), 1);
    assert_eq!(drag_target_gap(&geometry, end_x, 125), 2);
    assert_eq!(drag_target_gap(&geometry, end_x, 500), 3);
    assert_eq!(drag_target_gap(&geometry, end_x, 36), 0);
    assert_eq!(drag_target_gap(&Vec::new(), 14, 99), 0);
}

#[test]
fn selected_indices() {
    let uuids = vec![5u128, 9, 5];
    assert_eq!(selected_index(&uuids, Some(5)), 0);
    assert_eq!(selected_index(&uuids, Some(9)), 1);
    assert_eq!(selected_index(&uuids, Some(1)), -1);
    assert_eq!(selected_index(&uuids, None), -1);
}

#[test]
fn sequence_layout_bounds() {
    assert!(layout_fits(&Vec::new()));
    assert!(layout_fits(&vec![MaskOrLiteral::Mask(0), MaskOrLiteral::Literal("abc".to_string())]));
    let long: Vec<MaskOrLiteral> = (0..1000).map(|_| MaskOrLiteral::Literal("x".repeat(100))).collect();
    assert!(layout_fits(&long));
}
