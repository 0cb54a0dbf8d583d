//! What the restriction detail shows: the cards of the format sequence laid
//! out left to right, the character lists with their selection, the detail of
//! one position, the preview of the card being created, and the gap that a
//! dragged card would drop into.

use vstd::prelude::*;
use crate::model::{
    MaskOrLiteral, PositionView, positions_view, CharacterList, USER_CHAR_LIST_BIT_MIN,
    USER_CHAR_LIST_BIT_MAX, USER_CHAR_LIST_SLOT_COUNT,
};
use crate::helpers::{
    has_bit, mask_categories_string, mask_categories_text, format_csv_elements, csv_format,
};
use crate::text::{str_eq, views};
use crate::format_editor::lemma_or_bit;

verus! {

/// Width of a mask card.
pub const CARD_WIDTH_MASK: i32 = 44;

/// Width of one character of a fixed card.
pub const CARD_CHAR_WIDTH: i32 = 9;

/// Smallest width of a fixed card.
pub const CARD_WIDTH_FIXED_MIN: i32 = 32;

/// Space before the first card and between cards.
pub const CARD_GAP: i32 = 14;

/// The width of a card of kind `kind` (a fixed card grows with its literal).
pub open spec fn card_width_spec(kind: Seq<char>, literal: Seq<char>) -> int {
    if kind == "fixed"@ {
        let w = literal.len() * CARD_CHAR_WIDTH + 24;
        if w >= CARD_WIDTH_FIXED_MIN {
            w
        } else {
            CARD_WIDTH_FIXED_MIN as int
        }
    } else {
        CARD_WIDTH_MASK as int
    }
}

pub fn card_width(kind: &str, literal: &str) -> (r: i32)
    requires
        literal@.len() * CARD_CHAR_WIDTH + 24 <= i32::MAX,
    ensures
        r == card_width_spec(kind@, literal@),
{
    if str_eq(kind, "fixed") {
        let n = literal.unicode_len() as i32;
        let w = n * CARD_CHAR_WIDTH + 24;
        if w >= CARD_WIDTH_FIXED_MIN {
            w
        } else {
            CARD_WIDTH_FIXED_MIN
        }
    } else {
        CARD_WIDTH_MASK
    }
}

/// The kind that a card of position `p` shows.
pub open spec fn position_kind(p: PositionView) -> Seq<char> {
    match p {
        PositionView::Mask(m) => if m == 0 {
            "default"@
        } else {
            "custom"@
        },
        PositionView::Literal(_) => "fixed"@,
    }
}

/// The literal that a card of position `p` shows.
pub open spec fn position_literal(p: PositionView) -> Seq<char> {
    match p {
        PositionView::Mask(_) => seq![],
        PositionView::Literal(l) => l,
    }
}

/// The width of the card of position `p`.
pub open spec fn width_of(p: PositionView) -> int {
    card_width_spec(position_kind(p), position_literal(p))
}

/// Where the card after the cards of `s` starts (the first at `CARD_GAP`).
pub open spec fn layout_end(s: Seq<PositionView>) -> int
    decreases s.len(),
{
    if s.len() == 0 {
        CARD_GAP as int
    } else {
        layout_end(s.drop_last()) + width_of(s.last()) + CARD_GAP
    }
}

pub proof fn lemma_layout_grows(s: Seq<PositionView>, i: int)
    requires
        0 <= i <= s.len(),
    ensures
        CARD_GAP <= layout_end(s.take(i)) <= layout_end(s),
        i < s.len() ==> layout_end(s.take(i + 1)) == layout_end(s.take(i)) + width_of(s[i]) + CARD_GAP,
    decreases s.len(),
{
    if i < s.len() {
        assert(s.take(i + 1).drop_last() =~= s.take(i));
    }
    if s.len() > 0 {
        if i == s.len() {
            assert(s.take(i) =~= s);
            lemma_layout_grows(s.drop_last(), 0);
        } else {
            lemma_layout_grows(s.drop_last(), i);
            assert(s.drop_last().take(i) =~= s.take(i));
        }
    } else {
        assert(s.take(i) =~= s);
    }
}

/// Whether the cards of `seq` can be laid out in the editor: fewer positions
/// than `i32::MAX`, and the sequence ending within `i32::MAX`.
pub fn layout_fits(seq: &Vec<MaskOrLiteral>) -> (r: bool)
    ensures
        r <==> (seq@.len() < i32::MAX && layout_end(positions_view(seq@)) <= i32::MAX),
{
    let ghost pv = positions_view(seq@);
    proof {
        reveal_strlit("fixed");
        reveal_strlit("default");
        reveal_strlit("custom");
        lemma_layout_grows(pv, pv.len() as int);
    }
    if seq.len() >= 0x7fff_ffff {
        return false;
    }
    let mut end: u64 = CARD_GAP as u64;
    let mut i: usize = 0;
    assert(pv.take(0) =~= Seq::<PositionView>::empty());
    while i < seq.len()
        invariant
            i <= seq@.len(),
            pv == positions_view(seq@),
            pv.len() == seq@.len(),
            end as int == layout_end(pv.take(i as int)),
            end <= i32::MAX,
        decreases seq.len() - i,
    {
        proof {
            reveal_strlit("fixed");
            reveal_strlit("default");
            reveal_strlit("custom");
            lemma_layout_grows(pv, i as int);
            lemma_layout_grows(pv, i + 1);
            assert(pv[i as int] == seq@[i as int].view());
        }
        let w: u64 = match &seq[i] {
            MaskOrLiteral::Mask(_) => {
                assert("default"@.len() == 7 && "custom"@.len() == 6 && "fixed"@.len() == 5);
                assert(position_kind(pv[i as int]) != "fixed"@);
                CARD_WIDTH_MASK as u64
            },
            MaskOrLiteral::Literal(l) => {
                let n = l.as_str().unicode_len() as u64;
                assert(n == l@.len());
                assert(pv[i as int] == PositionView::Literal(l@));
                if n > 0x7fff_ffff {
                    return false;
                }
                let w = n * 9 + 24;
                if w >= 32 {
                    w
                } else {
                    32
                }
            },
        };
        assert(w as int == width_of(pv[i as int]));
        end = end + w + CARD_GAP as u64;
        if end > 0x7fff_ffff {
            return false;
        }
        i = i + 1;
    }
    assert(pv.take(i as int) =~= pv);
    true
}

/// One card of the format sequence as the editor shows it.
pub struct SequenceItem {
    pub index: i32,
    pub kind: String,
    pub code: i32,
    pub categories: String,
    pub literal: String,
    pub entropy_bits: i32,
    pub width: i32,
    pub x_offset: i32,
}

impl SequenceItem {
    /// An empty card (no kind).
    pub fn empty() -> (r: SequenceItem)
        ensures
            r.index == 0 && r.kind@.len() == 0 && r.code == 0 && r.categories@.len() == 0
                && r.literal@.len() == 0 && r.entropy_bits == 0 && r.width == 0 && r.x_offset == 0,
    {
        SequenceItem {
            index: 0,
            kind: String::new(),
            code: 0,
            categories: String::new(),
            literal: String::new(),
            entropy_bits: 0,
            width: 0,
            x_offset: 0,
        }
    }
}

/// Whole bits of an entropy given in millibits, as the editor shows them.
pub open spec fn whole_bits(millibits: u64) -> i32 {
    (millibits / 1000) as i32
}

pub fn millibits_to_bits(millibits: u64) -> (r: i32)
    ensures
        r == whole_bits(millibits),
{
    (millibits / 1000) as i32
}

/// The mask whose entropy a position shows: its own, or the restriction's
/// default mask for a default position; none for a literal.
pub open spec fn effective_mask(p: PositionView, default_mask: u32) -> Option<u32> {
    match p {
        PositionView::Mask(m) => if m == 0 {
            Some(default_mask)
        } else {
            Some(m)
        },
        PositionView::Literal(_) => None,
    }
}

/// The masks whose entropy the vault is asked for, one per position.
pub fn effective_masks(seq: &Vec<MaskOrLiteral>, default_mask: u32) -> (r: Vec<Option<u32>>)
    ensures
        r@.len() == seq@.len(),
        forall|i: int| 0 <= i < seq@.len() ==> r@[i] == effective_mask(#[trigger] seq@[i].view(), default_mask),
{
    let mut r: Vec<Option<u32>> = Vec::new();
    let mut i: usize = 0;
    while i < seq.len()
        invariant
            i <= seq.len(),
            r@.len() == i,
            forall|j: int| 0 <= j < i ==> r@[j] == effective_mask(#[trigger] seq@[j].view(), default_mask),
        decreases seq.len() - i,
    {
        let m = match &seq[i] {
            MaskOrLiteral::Mask(m) => if *m == 0 {
                Some(default_mask)
            } else {
                Some(*m)
            },
            MaskOrLiteral::Literal(_) => None,
        };
        r.push(m);
        i = i + 1;
    }
    r
}

/// The card of position `p`, the `i`-th of its sequence, as it must read.
pub open spec fn item_matches(
    item: SequenceItem,
    i: int,
    p: PositionView,
    lists: Seq<CharacterList>,
    entropy_millibits: u64,
    x_offset: int,
) -> bool {
    &&& item.index == i + 1
    &&& item.kind@ == position_kind(p)
    &&& item.code == (match p {
        PositionView::Mask(m) => m as i32,
        PositionView::Literal(_) => 0i32,
    })
    &&& item.categories@ == (match p {
        PositionView::Mask(m) => if m == 0 {
            Seq::<char>::empty()
        } else {
            mask_categories_text(m, lists)
        },
        PositionView::Literal(_) => Seq::<char>::empty(),
    })
    &&& item.literal@ == position_literal(p)
    &&& item.entropy_bits == (if p is Literal {
        0i32
    } else {
        whole_bits(entropy_millibits)
    })
    &&& item.width == width_of(p)
    &&& item.x_offset == x_offset
}

/// The cards of a format sequence, laid out from left to right, with the
/// entropy that the vault gave for each position's effective mask, and where
/// the sequence ends.
pub fn sequence_items(
    seq: &Vec<MaskOrLiteral>,
    char_lists: &[CharacterList],
    entropy_millibits: &Vec<u64>,
) -> (r: (Vec<SequenceItem>, Vec<(i32, i32)>, i32))
    requires
        seq@.len() < i32::MAX,
        entropy_millibits@.len() == seq@.len(),
        layout_end(positions_view(seq@)) <= i32::MAX,
    ensures
        r.0@.len() == seq@.len(),
        r.1@.len() == seq@.len(),
        forall|i: int|
            0 <= i < seq@.len() ==> item_matches(
                #[trigger] r.0@[i],
                i,
                seq@[i].view(),
                char_lists@,
                entropy_millibits@[i],
                layout_end(positions_view(seq@).take(i)),
            ),
        forall|i: int| 0 <= i < seq@.len() ==> #[trigger] r.1@[i] == (r.0@[i].width, r.0@[i].x_offset),
        r.2 == layout_end(positions_view(seq@)),
{
    let ghost pv = positions_view(seq@);
    proof {
        reveal_strlit("default");
        reveal_strlit("custom");
        reveal_strlit("fixed");
    }
    let mut items: Vec<SequenceItem> = Vec::new();
    let mut geometry: Vec<(i32, i32)> = Vec::new();
    let mut x_offset: i32 = CARD_GAP;
    let mut i: usize = 0;
    while i < seq.len()
        invariant
            i <= seq.len(),
            seq@.len() < i32::MAX,
            entropy_millibits@.len() == seq@.len(),
            pv == positions_view(seq@),
            layout_end(pv) <= i32::MAX,
            items@.len() == i,
            geometry@.len() == i,
            x_offset == layout_end(pv.take(i as int)),
            forall|j: int|
                0 <= j < i ==> item_matches(
                    #[trigger] items@[j],
                    j,
                    seq@[j].view(),
                    char_lists@,
                    entropy_millibits@[j],
                    layout_end(pv.take(j)),
                ),
            forall|j: int| 0 <= j < i ==> #[trigger] geometry@[j] == (items@[j].width, items@[j].x_offset),
        decreases seq.len() - i,
    {
        proof {
            lemma_layout_grows(pv, i as int);
            lemma_layout_grows(pv, i + 1);
            assert(pv[i as int] == seq@[i as int].view());
        }
        let (kind, code, categories, literal) = match &seq[i] {
            MaskOrLiteral::Mask(m) => if *m == 0 {
                (String::from_str("default"), 0i32, String::new(), String::new())
            } else {
                (String::from_str("custom"), *m as i32, mask_categories_string(*m, char_lists), String::new())
            },
            MaskOrLiteral::Literal(l) => (String::from_str("fixed"), 0i32, String::new(), l.clone()),
        };
        let entropy_bits: i32 = match &seq[i] {
            MaskOrLiteral::Literal(_) => 0,
            MaskOrLiteral::Mask(_) => millibits_to_bits(entropy_millibits[i]),
        };
        let width = card_width(kind.as_str(), literal.as_str());
        let item_x = x_offset;
        x_offset = x_offset + width + CARD_GAP;
        geometry.push((width, item_x));
        items.push(SequenceItem {
            index: (i + 1) as i32,
            kind,
            code,
            categories,
            literal,
            entropy_bits,
            width,
            x_offset: item_x,
        });
        i = i + 1;
    }
    assert(pv.take(seq.len() as int) =~= pv);
    (items, geometry, x_offset)
}

// ---------------------------------------------------------------------------
// Character lists

/// Every list occupies a bit of a 32-bit mask (a shift by more would
/// overflow).
pub open spec fn lists_wf(lists: Seq<CharacterList>) -> bool {
    forall|i: int| 0 <= i < lists.len() ==> (#[trigger] lists[i]).bit < 32
}

/// The slot number shown for a list: its bit counted from the first user
/// bit, from 1, in `u8` arithmetic that wraps (a built-in list, below the
/// first user bit, gets a number from the top of the `u8` range).
pub open spec fn slot_number(bit: u8) -> int {
    (bit as int + 257 - USER_CHAR_LIST_BIT_MIN as int) % 256
}

fn list_slot(bit: u8) -> (r: u8)
    ensures
        r as int == slot_number(bit),
{
    ((bit as u16 + 257 - USER_CHAR_LIST_BIT_MIN as u16) % 256) as u8
}

/// One character list as the editor shows it.
pub struct CharListItem {
    pub uuid: u128,
    pub bit: i32,
    pub slot: i32,
    pub slot_max: i32,
    pub name: String,
    pub elements: String,
    pub count: i32,
    pub editable: bool,
    pub selected: bool,
}

/// The row of list `cl`, selected when `selection` holds its bit.
pub open spec fn list_item_matches(item: CharListItem, cl: CharacterList, selection: u32) -> bool {
    &&& item.uuid == cl.uuid
    &&& item.bit == cl.bit as i32
    &&& item.slot == slot_number(cl.bit)
    &&& item.slot_max == USER_CHAR_LIST_SLOT_COUNT as i32
    &&& item.name@ == cl.name@
    &&& item.elements@ == csv_format(views(cl.elements@))
    &&& item.count == cl.elements@.len() as i32
    &&& item.editable == (cl.bit >= USER_CHAR_LIST_BIT_MIN)
    &&& item.selected == has_bit(selection, cl.bit as u32)
}

/// The rows of the character lists, each selected when `selection` holds its
/// bit.
pub fn char_list_items(char_lists: &[CharacterList], selection: u32) -> (r: Vec<CharListItem>)
    requires
        lists_wf(char_lists@),
    ensures
        r@.len() == char_lists@.len(),
        forall|i: int|
            0 <= i < char_lists@.len() ==> list_item_matches(#[trigger] r@[i], char_lists@[i], selection),
{
    let mut r: Vec<CharListItem> = Vec::new();
    let mut i: usize = 0;
    while i < char_lists.len()
        invariant
            i <= char_lists.len(),
            lists_wf(char_lists@),
            r@.len() == i,
            forall|j: int|
                0 <= j < i ==> list_item_matches(#[trigger] r@[j], char_lists@[j], selection),
        decreases char_lists.len() - i,
    {
        let cl = &char_lists[i];
        assert(char_lists@[i as int].bit < 32);
        let slot = list_slot(cl.bit);
        r.push(CharListItem {
            uuid: cl.uuid,
            bit: cl.bit as i32,
            slot: slot as i32,
            slot_max: USER_CHAR_LIST_SLOT_COUNT as i32,
            name: cl.name.clone(),
            elements: format_csv_elements(cl.elements.as_slice()),
            count: cl.elements.len() as i32,
            editable: cl.bit >= USER_CHAR_LIST_BIT_MIN,
            selected: selection & (1u32 << (cl.bit as u32)) != 0,
        });
        i = i + 1;
    }
    r
}

/// Whether some user list of `lists` occupies bit `b`.
pub open spec fn user_bit_used(lists: Seq<CharacterList>, b: nat) -> bool {
    exists|i: int|
        0 <= i < lists.len() && (#[trigger] lists[i]).bit as nat == b && lists[i].bit
            >= USER_CHAR_LIST_BIT_MIN
}

/// The user lists of a restriction as a mask (the bit of each list at or
/// above the first user bit), read as a signed number.
pub fn custom_mask(char_lists: &[CharacterList]) -> (r: i32)
    requires
        lists_wf(char_lists@),
    ensures
        forall|b: u32| b < 32 ==> (has_bit(r as u32, b) <==> user_bit_used(char_lists@, b as nat)),
{
    let mut m: u32 = 0;
    let mut i: usize = 0;
    assert forall|b: u32| b < 32 implies !has_bit(m, b) by {
        crate::format_editor::lemma_zero_has_no_bit(b);
    }
    while i < char_lists.len()
        invariant
            i <= char_lists.len(),
            lists_wf(char_lists@),
            forall|b: u32|
                b < 32 ==> (has_bit(m, b) <==> exists|k: int|
                    0 <= k < i && (#[trigger] char_lists@[k]).bit as nat == b as nat && char_lists@[k].bit
                        >= USER_CHAR_LIST_BIT_MIN),
        decreases char_lists.len() - i,
    {
        let bit = char_lists[i].bit;
        assert(char_lists@[i as int].bit < 32);
        let ghost m0 = m;
        if bit >= USER_CHAR_LIST_BIT_MIN {
            m = m | (1u32 << (bit as u32));
        }
        assert forall|b: u32| b < 32 implies (has_bit(m, b) <==> exists|k: int|
            0 <= k < i + 1 && (#[trigger] char_lists@[k]).bit as nat == b as nat && char_lists@[k].bit
                >= USER_CHAR_LIST_BIT_MIN) by {
            if bit >= USER_CHAR_LIST_BIT_MIN {
                lemma_or_bit(m0, bit as u32, b);
            }
            if char_lists@[i as int].bit as nat == b as nat && bit >= USER_CHAR_LIST_BIT_MIN {
                assert(exists|k: int|
                    0 <= k < i + 1 && (#[trigger] char_lists@[k]).bit as nat == b as nat
                        && char_lists@[k].bit >= USER_CHAR_LIST_BIT_MIN);
            }
        }
        i = i + 1;
    }
    let r = m as i32;
    assert(r as u32 == m) by (bit_vector)
        requires
            r == m as i32,
    ;
    r
}

// ---------------------------------------------------------------------------
// Position detail and card preview

/// The detail panel of one position.
pub struct PositionDetail {
    pub visible: bool,
    pub kind: String,
    pub index: i32,
    pub code: i32,
    pub fixed_value: String,
    pub entropy_bits: i32,
}

/// The detail of the card `viewing` names, if there is such a card; else a
/// hidden, empty panel.
pub fn position_detail(items: &Vec<SequenceItem>, viewing: Option<usize>) -> (r: PositionDetail)
    ensures
        match viewing {
            Some(k) if k < items@.len() => {
                let it = items@[k as int];
                &&& r.visible
                &&& r.kind@ == it.kind@
                &&& r.index == it.index
                &&& r.code == it.code
                &&& r.fixed_value@ == it.literal@
                &&& r.entropy_bits == it.entropy_bits
            },
            _ => !r.visible && r.kind@.len() == 0 && r.index == 0 && r.code == 0
                && r.fixed_value@.len() == 0 && r.entropy_bits == 0,
        },
{
    match viewing {
        Some(k) => {
            if k < items.len() {
                let it = &items[k];
                return PositionDetail {
                    visible: true,
                    kind: it.kind.clone(),
                    index: it.index,
                    code: it.code,
                    fixed_value: it.literal.clone(),
                    entropy_bits: it.entropy_bits,
                };
            }
        },
        None => {},
    }
    PositionDetail {
        visible: false,
        kind: String::new(),
        index: 0,
        code: 0,
        fixed_value: String::new(),
        entropy_bits: 0,
    }
}

/// The mask whose entropy the preview of the card being created shows: the
/// default mask for a default card, the card's own lists otherwise; none with
/// no card or a fixed one.
pub open spec fn preview_mask_spec(kind: Option<Seq<char>>, default_mask: u32, card_bits: u32) -> Option<u32> {
    match kind {
        None => None,
        Some(k) => if k.len() == 0 || k == "fixed"@ {
            None
        } else if k == "default"@ {
            Some(default_mask)
        } else {
            Some(card_bits)
        },
    }
}

pub fn card_preview_mask(kind: &Option<String>, default_mask: u32, card_bits: u32) -> (r: Option<u32>)
    ensures
        r == preview_mask_spec(
            match kind {
                Some(s) => Some(s@),
                None => None,
            },
            default_mask,
            card_bits,
        ),
{
    match kind {
        None => None,
        Some(k) => {
            if k.as_str().unicode_len() == 0 || str_eq(k.as_str(), "fixed") {
                None
            } else if str_eq(k.as_str(), "default") {
                Some(default_mask)
            } else {
                Some(card_bits)
            }
        },
    }
}

/// The preview of the card being created: empty with no card; only the kind
/// for a fixed card; else the kind, the mask (as the code, for a custom card
/// only) and the entropy that the vault gave for the preview mask.
pub fn card_preview(
    kind: &Option<String>,
    default_mask: u32,
    card_bits: u32,
    entropy_millibits: u64,
) -> (r: SequenceItem)
    ensures
        r.index == 0,
        r.categories@.len() == 0,
        r.literal@.len() == 0,
        r.width == 0,
        r.x_offset == 0,
        match kind {
            None => r.kind@.len() == 0 && r.code == 0 && r.entropy_bits == 0,
            Some(k) => {
                &&& r.kind@ == k@
                &&& match preview_mask_spec(Some(k@), default_mask, card_bits) {
                    None => r.code == 0 && r.entropy_bits == 0,
                    Some(m) => {
                        &&& r.code == (if k@ == "custom"@ {
                            m as i32
                        } else {
                            0i32
                        })
                        &&& r.entropy_bits == whole_bits(entropy_millibits)
                    },
                }
            },
        },
{
    let mask = card_preview_mask(kind, default_mask, card_bits);
    let mut item = SequenceItem::empty();
    match kind {
        None => {},
        Some(k) => {
            item.kind = k.clone();
            match mask {
                None => {},
                Some(m) => {
                    item.code = if str_eq(k.as_str(), "custom") {
                        m as i32
                    } else {
                        0
                    };
                    item.entropy_bits = millibits_to_bits(entropy_millibits);
                },
            }
        },
    }
    item
}

// ---------------------------------------------------------------------------
// Dragging a card

/// The centre of gap `i` of a sequence laid out as `geometry` (gap `n`, after
/// the last card, is centred before `end_x`).
pub open spec fn gap_center(geometry: Seq<(i32, i32)>, end_x: i32, i: int) -> int {
    if i < geometry.len() {
        geometry[i].1 - CARD_GAP / 2
    } else {
        end_x - CARD_GAP / 2
    }
}

pub open spec fn abs_int(v: int) -> int {
    if v < 0 {
        -v
    } else {
        v
    }
}

/// How far gap `i` is from `local_x`.
pub open spec fn gap_distance(geometry: Seq<(i32, i32)>, end_x: i32, local_x: i32, i: int) -> int {
    abs_int(gap_center(geometry, end_x, i) - local_x)
}

/// The gap nearest to `local_x`: the first of the nearest ones.
pub fn drag_target_gap(geometry: &Vec<(i32, i32)>, end_x: i32, local_x: i32) -> (r: usize)
    requires
        forall|i: int|
            0 <= i <= geometry@.len() ==> i32::MIN <= #[trigger] gap_center(geometry@, end_x, i)
                && -i32::MAX <= gap_center(geometry@, end_x, i) - local_x <= i32::MAX,
    ensures
        r <= geometry@.len(),
        forall|j: int|
            0 <= j <= geometry@.len() ==> gap_distance(geometry@, end_x, local_x, r as int)
                <= #[trigger] gap_distance(geometry@, end_x, local_x, j),
        forall|j: int|
            0 <= j < r ==> gap_distance(geometry@, end_x, local_x, r as int)
                < #[trigger] gap_distance(geometry@, end_x, local_x, j),
{
    let n = geometry.len();
    assert(i32::MIN <= gap_center(geometry@, end_x, 0));
    let c0: i32 = if n > 0 {
        geometry[0].1 - CARD_GAP / 2
    } else {
        end_x - CARD_GAP / 2
    };
    let d00 = c0 - local_x;
    let mut best: usize = 0;
    let mut best_d: i32 = if d00 < 0 {
        -d00
    } else {
        d00
    };
    let mut i: usize = 1;
    while i < n
        invariant
            n == geometry@.len(),
            1 <= i <= n || (n == 0 && i == 1),
            best < i,
            best_d == gap_distance(geometry@, end_x, local_x, best as int),
            forall|j: int| 0 <= j < i ==> best_d <= #[trigger] gap_distance(geometry@, end_x, local_x, j),
            forall|j: int| 0 <= j < best ==> best_d < #[trigger] gap_distance(geometry@, end_x, local_x, j),
            forall|k: int|
                0 <= k <= geometry@.len() ==> i32::MIN <= #[trigger] gap_center(geometry@, end_x, k)
                    && -i32::MAX <= gap_center(geometry@, end_x, k) - local_x <= i32::MAX,
        decreases n - i,
    {
        assert(i32::MIN <= gap_center(geometry@, end_x, i as int));
        let c: i32 = geometry[i].1 - CARD_GAP / 2;
        let d0 = c - local_x;
        let d = if d0 < 0 {
            -d0
        } else {
            d0
        };
        if d < best_d {
            best = i;
            best_d = d;
        }
        i = i + 1;
    }
    if n > 0 {
        assert(i32::MIN <= gap_center(geometry@, end_x, n as int));
        let c: i32 = end_x - CARD_GAP / 2;
        let d0 = c - local_x;
        let d = if d0 < 0 {
            -d0
        } else {
            d0
        };
        if d < best_d {
            best = n;
        }
    }
    best
}

/// The index of the selected identifier in `uuids`, or -1 when nothing is
/// selected or it is not there.
pub fn selected_index(uuids: &Vec<u128>, selected: Option<u128>) -> (r: i32)
    requires
        uuids@.len() <= i32::MAX,
    ensures
        selected is None ==> r == -1,
        selected matches Some(u) ==> (!uuids@.contains(u) ==> r == -1),
        selected matches Some(u) ==> (uuids@.contains(u) ==> 0 <= r < uuids@.len() && uuids@[r as int] == u
            && forall|j: int| 0 <= j < r ==> uuids@[j] != u),
{
    match selected {
        None => -1,
        Some(u) => {
            let mut i: usize = 0;
            while i < uuids.len()
                invariant
                    i <= uuids.len(),
                    uuids@.len() <= i32::MAX,
                    selected == Some(u),
                    forall|j: int| 0 <= j < i ==> uuids@[j] != u,
                decreases uuids.len() - i,
            {
                if uuids[i] == u {
                    assert(uuids@.contains(u));
                    return i as i32;
                }
                i = i + 1;
            }
            -1
        },
    }
}

} // verus!
