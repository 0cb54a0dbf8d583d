//! The restriction format editor: the card kinds, the mask-list selections the
//! editor keeps (as 32-bit masks, one bit per character list), and the edits of
//! a format sequence: inserting, moving and removing positions, toggling a
//! position's lists, and picking the slot of a new character list.

use vstd::prelude::*;
use crate::model::{
    MaskOrLiteral, PositionView, positions_view, CharacterList, USER_CHAR_LIST_BIT_MIN,
    USER_CHAR_LIST_BIT_MAX,
};
use crate::helpers::has_bit;
use crate::text::{str_eq, trim, chars_of, trim_chars};
use crate::number::{parse_uint, parse_uint_chars, u32_max, lemma_parse_bounded};

verus! {

// ---------------------------------------------------------------------------
// Bits of a mask

pub proof fn lemma_or_bit(a: u32, c: u32, b: u32)
    requires
        c < 32,
        b < 32,
    ensures
        has_bit(a | (1u32 << c), b) == (has_bit(a, b) || b == c),
{
    assert(has_bit(a | (1u32 << c), b) == (has_bit(a, b) || b == c)) by (bit_vector)
        requires
            c < 32,
            b < 32,
    ;
}

pub proof fn lemma_xor_bit(a: u32, c: u32, b: u32)
    requires
        c < 32,
        b < 32,
    ensures
        has_bit(a ^ (1u32 << c), b) == (if b == c {
            !has_bit(a, b)
        } else {
            has_bit(a, b)
        }),
{
    assert(has_bit(a ^ (1u32 << c), b) == (if b == c {
        !has_bit(a, b)
    } else {
        has_bit(a, b)
    })) by (bit_vector)
        requires
            c < 32,
            b < 32,
    ;
}

pub proof fn lemma_zero_has_no_bit(b: u32)
    requires
        b < 32,
    ensures
        !has_bit(0u32, b),
{
    assert(!has_bit(0u32, b)) by (bit_vector)
        requires
            b < 32,
    ;
}

/// Whether some list of `lists` occupies bit `b`.
pub open spec fn bit_used(lists: Seq<CharacterList>, b: nat) -> bool {
    exists|i: int| 0 <= i < lists.len() && lists[i].bit as nat == b
}

/// The bits (below 32) that the character lists occupy, as a mask.
pub fn bits_in_use(lists: &[CharacterList]) -> (r: u32)
    ensures
        forall|b: u32| b < 32 ==> (has_bit(r, b) <==> bit_used(lists@, b as nat)),
{
    let mut r: u32 = 0;
    let mut i: usize = 0;
    assert forall|b: u32| b < 32 implies !has_bit(r, b) by {
        lemma_zero_has_no_bit(b);
    }
    while i < lists.len()
        invariant
            i <= lists.len(),
            forall|b: u32|
                b < 32 ==> (has_bit(r, b) <==> exists|k: int| 0 <= k < i && (#[trigger] lists@[k]).bit as nat == b as nat),
        decreases lists.len() - i,
    {
        let bit = lists[i].bit;
        let ghost r0 = r;
        if bit < 32 {
            r = r | (1u32 << (bit as u32));
        }
        assert forall|b: u32| b < 32 implies (has_bit(r, b) <==> exists|k: int|
            0 <= k < i + 1 && (#[trigger] lists@[k]).bit as nat == b as nat) by {
            if bit < 32 {
                lemma_or_bit(r0, bit as u32, b);
            } else {
                assert(r == r0);
            }
            if lists@[i as int].bit as nat == b as nat {
                assert(exists|k: int| 0 <= k < i + 1 && (#[trigger] lists@[k]).bit as nat == b as nat);
            }
        }
        i = i + 1;
    }
    r
}

/// Flips bit `bit` of `mask`.
pub fn toggle_bit(mask: u32, bit: u32) -> (r: u32)
    requires
        bit < 32,
    ensures
        forall|b: u32| b < 32 ==> has_bit(r, b) == (if b == bit {
            !has_bit(mask, b)
        } else {
            has_bit(mask, b)
        }),
        r == mask ^ (1u32 << bit),
{
    let r = mask ^ (1u32 << bit);
    assert forall|b: u32| b < 32 implies has_bit(r, b) == (if b == bit {
        !has_bit(mask, b)
    } else {
        has_bit(mask, b)
    }) by {
        lemma_xor_bit(mask, bit, b);
    }
    r
}

// ---------------------------------------------------------------------------
// Messages

pub open spec fn not_editable_msg() -> Seq<char> {
    "Esta restrição tem domínios associados. Remova-os primeiro para poder editar o formato."@
}

pub open spec fn pick_a_list_msg() -> Seq<char> {
    "Selecione pelo menos uma lista."@
}

pub open spec fn pick_a_default_list_msg() -> Seq<char> {
    "Selecione pelo menos uma lista para o padrão."@
}

pub open spec fn empty_literal_msg() -> Seq<char> {
    "O literal não pode estar vazio."@
}

pub open spec fn bad_card_kind_msg() -> Seq<char> {
    "Tipo de card inválido."@
}

pub open spec fn source_out_of_range_msg() -> Seq<char> {
    "Índice de origem fora dos limites."@
}

pub open spec fn index_out_of_range_msg() -> Seq<char> {
    "Índice fora dos limites."@
}

pub open spec fn bad_position_msg() -> Seq<char> {
    "Posição inválida."@
}

pub open spec fn no_free_slot_msg() -> Seq<char> {
    "Não há slots de lista disponíveis (máximo atingido)."@
}

pub open spec fn bad_entropy_bits_msg() -> Seq<char> {
    "Número de bits inválido (mínimo: 1)."@
}

/// A restriction's format may change only while no domain uses it.
pub fn assert_format_editable(domain_count: usize) -> (r: Result<(), String>)
    ensures
        r is Ok <==> domain_count == 0,
        r matches Err(e) ==> e@ == not_editable_msg(),
{
    if domain_count > 0 {
        Err(String::from_str(
            "Esta restrição tem domínios associados. Remova-os primeiro para poder editar o formato.",
        ))
    } else {
        Ok(())
    }
}

// ---------------------------------------------------------------------------
// Card kinds

/// The kind of card the user places in a format sequence.
#[derive(PartialEq, Eq, Structural, Clone, Copy, Debug)]
pub enum CardKind {
    /// A position that takes the restriction's default mask.
    Default,
    /// A position with its own mask.
    Custom,
    /// A fixed literal.
    Fixed,
}

/// The card kind that the user interface names `s`.
pub open spec fn card_kind_of(s: Seq<char>) -> Option<CardKind> {
    if s == "default"@ {
        Some(CardKind::Default)
    } else if s == "custom"@ {
        Some(CardKind::Custom)
    } else if s == "fixed"@ {
        Some(CardKind::Fixed)
    } else {
        None
    }
}

pub fn parse_card_kind(kind: &str) -> (r: Option<CardKind>)
    ensures
        r == card_kind_of(kind@),
{
    if str_eq(kind, "default") {
        Some(CardKind::Default)
    } else if str_eq(kind, "custom") {
        Some(CardKind::Custom)
    } else if str_eq(kind, "fixed") {
        Some(CardKind::Fixed)
    } else {
        None
    }
}

// ---------------------------------------------------------------------------
// The editor state

/// The mask bits that "reset to default" selects: the first three lists.
pub const RESET_MASK: u32 = 0b111;

/// What the editor remembers for the selected restriction: the lists picked
/// for the default mask, the lists picked for a new card, the kind of card
/// being created (as the user interface names it) and the position whose
/// detail is open.
pub struct EditorState {
    pub selected_mask_bits: u32,
    pub card_mask_bits: u32,
    pub creating_card_kind: Option<String>,
    pub viewing_position_index: Option<usize>,
}

/// The abstract value of the editor state.
pub ghost struct EditorView {
    pub selected_mask_bits: u32,
    pub card_mask_bits: u32,
    pub creating_card_kind: Option<Seq<char>>,
    pub viewing_position_index: Option<nat>,
}

impl EditorState {
    pub open spec fn view(&self) -> EditorView {
        EditorView {
            selected_mask_bits: self.selected_mask_bits,
            card_mask_bits: self.card_mask_bits,
            creating_card_kind: match self.creating_card_kind {
                Some(s) => Some(s@),
                None => None,
            },
            viewing_position_index: match self.viewing_position_index {
                Some(i) => Some(i as nat),
                None => None,
            },
        }
    }

    /// The state of a freshly selected (or created) restriction whose
    /// effective default mask is `default_mask`.
    pub fn for_restriction(default_mask: u32) -> (r: EditorState)
        ensures
            r.view() == (EditorView {
                selected_mask_bits: default_mask,
                card_mask_bits: 0,
                creating_card_kind: None,
                viewing_position_index: None,
            }),
    {
        EditorState {
            selected_mask_bits: default_mask,
            card_mask_bits: 0,
            creating_card_kind: None,
            viewing_position_index: None,
        }
    }

    /// Toggles list `bit` in the default-mask selection. A bit outside 0..=31
    /// is ignored (`Ok(false)`); a selection that would hold no list of the
    /// restriction (`existing`) is refused and the state kept.
    pub fn toggle_mask_list(&mut self, bit: i32, existing: u32) -> (r: Result<bool, String>)
        ensures
            !(0 <= bit <= 31) ==> r == Ok::<bool, String>(false) && final(self).view() == old(self).view(),
            0 <= bit <= 31 ==> {
                let cand = old(self).selected_mask_bits ^ (1u32 << (bit as u32));
                &&& (cand & existing) != 0u32 ==> r == Ok::<bool, String>(true) && final(self).view()
                    == (EditorView { selected_mask_bits: cand, ..old(self).view() })
                &&& (cand & existing) == 0u32 ==> (r matches Err(e) && e@ == pick_a_list_msg()
                    && final(self).view() == old(self).view())
            },
    {
        if !(0 <= bit && bit <= 31) {
            return Ok(false);
        }
        let cand = toggle_bit(self.selected_mask_bits, bit as u32);
        if cand & existing == 0 {
            return Err(String::from_str("Selecione pelo menos uma lista."));
        }
        self.selected_mask_bits = cand;
        Ok(true)
    }

    /// "Reset to default": the first three lists.
    pub fn reset_mask_default(&mut self)
        ensures
            final(self).view() == (EditorView { selected_mask_bits: RESET_MASK, ..old(self).view() }),
    {
        self.selected_mask_bits = RESET_MASK;
    }

    /// Starts creating a card of kind `kind` (empty: none). A default card
    /// starts from the default mask, a custom card from no list; the open
    /// position detail closes.
    pub fn select_card_kind(&mut self, kind: &str, default_mask: u32)
        ensures
            final(self).view().creating_card_kind == (if kind@.len() == 0 {
                None::<Seq<char>>
            } else {
                Some(kind@)
            }),
            final(self).view().viewing_position_index is None,
            final(self).view().selected_mask_bits == old(self).view().selected_mask_bits,
            final(self).view().card_mask_bits == (if kind@ == "default"@ {
                default_mask
            } else if kind@ == "custom"@ {
                0u32
            } else {
                old(self).view().card_mask_bits
            }),
    {
        self.creating_card_kind = if kind.unicode_len() == 0 {
            None
        } else {
            Some(String::from_str(kind))
        };
        self.viewing_position_index = None;
        if str_eq(kind, "default") {
            self.card_mask_bits = default_mask;
        } else if str_eq(kind, "custom") {
            self.card_mask_bits = 0;
        }
    }

    /// Toggles list `bit` of the card being created (ignored outside 0..=31).
    pub fn toggle_card_mask_list(&mut self, bit: i32)
        ensures
            0 <= bit <= 31 ==> final(self).view() == (EditorView {
                card_mask_bits: old(self).card_mask_bits ^ (1u32 << (bit as u32)),
                ..old(self).view()
            }),
            !(0 <= bit <= 31) ==> final(self).view() == old(self).view(),
    {
        if 0 <= bit && bit <= 31 {
            self.card_mask_bits = toggle_bit(self.card_mask_bits, bit as u32);
        }
    }

    /// Abandons the card being created.
    pub fn clear_card_config(&mut self)
        ensures
            final(self).view() == (EditorView {
                creating_card_kind: None,
                card_mask_bits: 0,
                ..old(self).view()
            }),
    {
        self.creating_card_kind = None;
        self.card_mask_bits = 0;
    }

    /// Opens the detail of position `index` (a negative index wraps as
    /// `as usize` does and then names no position); card creation stops.
    pub fn view_position(&mut self, index: i32)
        ensures
            final(self).view() == (EditorView {
                viewing_position_index: Some((index as usize) as nat),
                creating_card_kind: None,
                ..old(self).view()
            }),
    {
        self.viewing_position_index = Some(index as usize);
        self.creating_card_kind = None;
    }

    /// Closes the position detail.
    pub fn close_position_detail(&mut self)
        ensures
            final(self).view() == (EditorView { viewing_position_index: None, ..old(self).view() }),
    {
        self.viewing_position_index = None;
    }

    /// After position `removed` was taken out of a sequence now `new_len`
    /// long: the detail stays on the same index, moves to the last position,
    /// or closes when nothing is left.
    pub fn after_position_removed(&mut self, removed: usize, new_len: usize)
        ensures
            final(self).view() == (EditorView {
                viewing_position_index: viewing_after_removal(removed as nat, new_len as nat),
                ..old(self).view()
            }),
    {
        self.viewing_position_index = if new_len == 0 {
            None
        } else if removed < new_len {
            Some(removed)
        } else {
            Some(new_len - 1)
        };
    }
}

pub open spec fn viewing_after_removal(removed: nat, new_len: nat) -> Option<nat> {
    if new_len == 0 {
        None
    } else if removed < new_len {
        Some(removed)
    } else {
        Some((new_len - 1) as nat)
    }
}

// ---------------------------------------------------------------------------
// Default mask

/// The default mask to store: the selected lists that the restriction has.
/// A format that domains use cannot change; no list is refused.
pub fn plan_default_mask(domain_count: usize, selected_bits: u32, existing: u32) -> (r: Result<u32, String>)
    ensures
        domain_count > 0 ==> (r matches Err(e) && e@ == not_editable_msg()),
        domain_count == 0 && (selected_bits & existing) == 0u32 ==> (r matches Err(e) && e@
            == pick_a_default_list_msg()),
        domain_count == 0 && (selected_bits & existing) != 0u32 ==> r == Ok::<u32, String>(
            selected_bits & existing,
        ),
{
    if let Err(e) = assert_format_editable(domain_count) {
        return Err(e);
    }
    let mask = selected_bits & existing;
    if mask == 0 {
        Err(String::from_str("Selecione pelo menos uma lista para o padrão."))
    } else {
        Ok(mask)
    }
}

// ---------------------------------------------------------------------------
// Inserting positions

/// One insertion of the plan: `item` goes in at `index`.
pub struct PositionInsert {
    pub index: usize,
    pub item: MaskOrLiteral,
}

/// How many positions an insertion request adds: one literal, or at least one
/// mask position.
pub open spec fn insert_count(kind: Seq<char>, quantity: i32) -> nat {
    if kind == "fixed"@ {
        1
    } else if quantity < 1 {
        1
    } else {
        quantity as nat
    }
}

/// How many positions a request adds: a fixed literal adds exactly one;
/// every other kind adds the requested quantity, and one when the quantity
/// asked for is below one.
pub proof fn law_insert_quantity(kind: Seq<char>, quantity: i32)
    ensures
        kind == "fixed"@ ==> insert_count(kind, quantity) == 1,
        kind != "fixed"@ && quantity >= 1 ==> insert_count(kind, quantity) == quantity,
        kind != "fixed"@ && quantity < 1 ==> insert_count(kind, quantity) == 1,
{
}

/// Where the first insertion goes: the requested index (a negative one wraps
/// as `as usize` does), at most the end of the sequence.
pub open spec fn insert_start(target_index: i32, seq_len: nat) -> nat {
    let t = (target_index as usize) as nat;
    if t < seq_len {
        t
    } else {
        seq_len
    }
}

/// The error of an insertion request, if it has one.
pub open spec fn insert_error(
    kind: Seq<char>,
    literal: Seq<char>,
    domain_count: nat,
    card_mask: u32,
) -> Option<Seq<char>> {
    if kind == "fixed"@ && literal.len() == 0 {
        Some(empty_literal_msg())
    } else if domain_count > 0 {
        Some(not_editable_msg())
    } else if card_kind_of(kind) is None {
        Some(bad_card_kind_msg())
    } else if kind == "custom"@ && card_mask == 0 {
        Some(pick_a_list_msg())
    } else {
        None
    }
}

/// The position that an insertion request inserts.
pub open spec fn insert_item(kind: Seq<char>, literal: Seq<char>, card_mask: u32) -> PositionView {
    if kind == "fixed"@ {
        PositionView::Literal(literal)
    } else if kind == "default"@ {
        PositionView::Mask(0)
    } else {
        PositionView::Mask(card_mask)
    }
}

/// The insertions that a request asks for, in order: `quantity` positions of
/// kind `kind` from index `target_index` on, in a sequence `seq_len` long.
/// A custom position takes the card's lists that the restriction has.
pub fn plan_insert_positions(
    kind: &str,
    literal: &str,
    quantity: i32,
    target_index: i32,
    seq_len: usize,
    domain_count: usize,
    card_mask_bits: u32,
    existing: u32,
) -> (r: Result<Vec<PositionInsert>, String>)
    requires
        seq_len <= isize::MAX,
    ensures
        r is Err <==> insert_error(kind@, literal@, domain_count as nat, card_mask_bits & existing)
            is Some,
        r matches Err(e) ==> Some(e@) == insert_error(
            kind@,
            literal@,
            domain_count as nat,
            card_mask_bits & existing,
        ),
        kind@ != "fixed"@ ==> (r matches Ok(ops) ==> ops@.len() == (if quantity < 1 {
            1
        } else {
            quantity as int
        })),
        kind@ == "fixed"@ ==> (r matches Ok(ops) ==> ops@.len() == 1),
        r matches Ok(ops) ==> {
            &&& ops@.len() == insert_count(kind@, quantity)
            &&& forall|k: int|
                0 <= k < ops@.len() ==> (#[trigger] ops@[k]).index == insert_start(
                    target_index,
                    seq_len as nat,
                ) + k && ops@[k].item.view() == insert_item(
                    kind@,
                    literal@,
                    card_mask_bits & existing,
                )
        },
{
    proof {
        reveal_strlit("default");
        reveal_strlit("custom");
        reveal_strlit("fixed");
    }
    let is_fixed = str_eq(kind, "fixed");
    if is_fixed && literal.unicode_len() == 0 {
        return Err(String::from_str("O literal não pode estar vazio."));
    }
    let qty: usize = if is_fixed {
        1
    } else if quantity < 1 {
        1
    } else {
        quantity as usize
    };
    if let Err(e) = assert_format_editable(domain_count) {
        return Err(e);
    }
    let t = target_index as usize;
    let start: usize = if t < seq_len {
        t
    } else {
        seq_len
    };
    let card_kind = parse_card_kind(kind);
    let mask = card_mask_bits & existing;
    match card_kind {
        None => {
            return Err(String::from_str("Tipo de card inválido."));
        },
        Some(CardKind::Custom) => {
            if mask == 0 {
                return Err(String::from_str("Selecione pelo menos uma lista."));
            }
        },
        _ => {},
    }
    let ghost want = insert_item(kind@, literal@, mask);
    assert("custom"@.len() == 6 && "default"@.len() == 7);
    assert(insert_error(kind@, literal@, domain_count as nat, mask) is None);
    let mut ops: Vec<PositionInsert> = Vec::new();
    let mut k: usize = 0;
    while k < qty
        invariant
            k <= qty,
            qty == insert_count(kind@, quantity),
            qty <= i32::MAX,
            start <= seq_len <= isize::MAX,
            card_kind == card_kind_of(kind@),
            card_kind is Some,
            is_fixed == (kind@ == "fixed"@),
            mask == card_mask_bits & existing,
            want == insert_item(kind@, literal@, mask),
            insert_error(kind@, literal@, domain_count as nat, mask) is None,
            ops@.len() == k,
            forall|j: int| 0 <= j < k ==> (#[trigger] ops@[j]).index == start + j && ops@[j].item.view() == want,
        decreases qty - k,
    {
        let item = if is_fixed {
            MaskOrLiteral::Literal(String::from_str(literal))
        } else {
            match card_kind {
                Some(CardKind::Default) => MaskOrLiteral::Mask(0),
                _ => MaskOrLiteral::Mask(mask),
            }
        };
        ops.push(PositionInsert { index: start + k, item });
        k = k + 1;
    }
    Ok(ops)
}

/// Inserting the planned positions one after the other.
pub open spec fn apply_inserts(s: Seq<PositionView>, ops: Seq<(nat, PositionView)>) -> Seq<PositionView>
    decreases ops.len(),
{
    if ops.len() == 0 {
        s
    } else {
        apply_inserts(s, ops.drop_last()).insert(ops.last().0 as int, ops.last().1)
    }
}

/// `k` insertions of `x` at consecutive indices from `p`.
pub open spec fn block_inserts(p: nat, x: PositionView, k: nat) -> Seq<(nat, PositionView)> {
    Seq::new(k, |j: int| ((p + j) as nat, x))
}

/// Inserting `x` at `k` consecutive indices from `p` puts a block of `k`
/// copies of `x` at `p`, with everything else kept in order around it.
pub proof fn law_insert_block(s: Seq<PositionView>, p: nat, x: PositionView, k: nat)
    requires
        p <= s.len(),
    ensures
        apply_inserts(s, block_inserts(p, x, k)) == s.take(p as int) + Seq::new(k, |j: int| x)
            + s.skip(p as int),
    decreases k,
{
    if k > 0 {
        let k1 = (k - 1) as nat;
        law_insert_block(s, p, x, k1);
        assert(block_inserts(p, x, k).drop_last() =~= block_inserts(p, x, k1));
        let before = s.take(p as int) + Seq::new(k1, |j: int| x) + s.skip(p as int);
        assert(before.insert((p + k1) as int, x) =~= s.take(p as int) + Seq::new(k, |j: int| x)
            + s.skip(p as int));
    }
}

// ---------------------------------------------------------------------------
// Moving, removing and editing positions

/// Where a position moved from `src` to gap `target_index` lands, once it is
/// out of a sequence now `n` long: the gap is clamped to the end, then moves
/// one to the left when it was after the source.
pub open spec fn reorder_dest(src: nat, target_index: i32, n: nat) -> nat {
    let t = (target_index as usize) as nat;
    let c = if t < n {
        t
    } else {
        n
    };
    if c > src {
        (c - 1) as nat
    } else {
        c
    }
}

/// The sequence after moving position `source_index` to gap `target_index`.
pub open spec fn reorder_spec(s: Seq<PositionView>, src: nat, target_index: i32) -> Seq<PositionView> {
    let rest = s.remove(src as int);
    rest.insert(reorder_dest(src, target_index, rest.len()) as int, s[src as int])
}

/// Moves position `source_index` of `seq` to gap `target_index`.
pub fn reorder_sequence(seq: Vec<MaskOrLiteral>, source_index: i32, target_index: i32) -> (r: Result<
    Vec<MaskOrLiteral>,
    String,
>)
    ensures
        r is Err <==> source_index < 0 || source_index >= seq@.len(),
        r matches Err(e) ==> e@ == source_out_of_range_msg(),
        r matches Ok(v) ==> positions_view(v@) == reorder_spec(
            positions_view(seq@),
            source_index as nat,
            target_index,
        ),
{
    if source_index < 0 || source_index as usize >= seq.len() {
        return Err(String::from_str("Índice de origem fora dos limites."));
    }
    let src = source_index as usize;
    let ghost s0 = positions_view(seq@);
    let mut seq = seq;
    let item = seq.remove(src);
    let t = target_index as usize;
    let mut dst: usize = if t < seq.len() {
        t
    } else {
        seq.len()
    };
    if dst > src {
        dst = dst - 1;
    }
    let at: usize = if dst < seq.len() {
        dst
    } else {
        seq.len()
    };
    let ghost rest = seq@;
    seq.insert(at, item);
    proof {
        assert(positions_view(rest) =~= s0.remove(src as int));
        assert(positions_view(seq@) =~= positions_view(rest).insert(at as int, s0[src as int]));
    }
    Ok(seq)
}

/// Moving a position keeps every position: the sequence is a rearrangement
/// of the old one, as long, and the moved position sits at its destination.
pub proof fn law_reorder_keeps_positions(s: Seq<PositionView>, src: nat, target_index: i32)
    requires
        src < s.len(),
    ensures
        reorder_spec(s, src, target_index).len() == s.len(),
        reorder_spec(s, src, target_index).to_multiset() == s.to_multiset(),
        reorder_spec(s, src, target_index)[reorder_dest(src, target_index, (s.len() - 1) as nat) as int]
            == s[src as int],
{
    let rest = s.remove(src as int);
    let d = reorder_dest(src, target_index, rest.len());
    let x = s[src as int];
    vstd::seq_lib::to_multiset_remove(s, src as int);
    vstd::seq_lib::to_multiset_insert(rest, d as int, x);
    vstd::seq_lib::to_multiset_contains(s, x);
    broadcast use vstd::multiset::group_multiset_axioms;
    assert(s.to_multiset().remove(x).insert(x) =~= s.to_multiset());
}

/// Moving a position drops it into a gap between the positions: gap `g`
/// lies before position `g`. Dropping it into one of the two gaps next to
/// it leaves the sequence as it was; into an earlier gap, it goes in there;
/// into a later gap, the positions between move one to the left and it lands
/// just before the position after the gap. A gap past the last position
/// counts as the gap before the last one.
pub proof fn law_reorder_to_gap(s: Seq<PositionView>, src: nat, target_index: i32)
    requires
        src < s.len(),
        target_index >= 0,
    ensures
        target_index == src || target_index == src + 1 ==> reorder_spec(s, src, target_index) == s,
        target_index < src ==> reorder_spec(s, src, target_index) == s.take(target_index as int) + seq![
            s[src as int],
        ] + s.subrange(target_index as int, src as int) + s.skip(src as int + 1),
        src + 1 < target_index < s.len() ==> reorder_spec(s, src, target_index) == s.take(src as int)
            + s.subrange(src as int + 1, target_index as int) + seq![s[src as int]] + s.skip(target_index as int),
        target_index >= s.len() && src + 1 < s.len() ==> reorder_spec(s, src, target_index) == s.take(
            src as int,
        ) + s.subrange(src as int + 1, s.len() - 1) + seq![s[src as int]] + s.skip(s.len() - 1),
        target_index >= s.len() && src + 1 == s.len() ==> reorder_spec(s, src, target_index) == s,
{
    let n = s.len() as int;
    let x = s[src as int];
    let rest = s.remove(src as int);
    let t = target_index as int;
    assert((target_index as usize) as nat == t);
    let d = reorder_dest(src, target_index, rest.len()) as int;
    let r = rest.insert(d, x);
    assert(r == reorder_spec(s, src, target_index));
    assert(rest.len() == n - 1);
    if t <= src {
        assert(d == t);
        let want = s.take(t) + seq![x] + s.subrange(t, src as int) + s.skip(src as int + 1);
        assert(r =~= want);
        if t == src {
            assert(want =~= s);
        }
    } else if t == src + 1 {
        assert(d == src);
        assert(r =~= s);
    } else if t < n {
        assert(d == t - 1);
        assert(r =~= s.take(src as int) + s.subrange(src as int + 1, t) + seq![x] + s.skip(t));
    } else if src + 1 < n {
        assert(d == n - 2);
        assert(r =~= s.take(src as int) + s.subrange(src as int + 1, n - 1) + seq![x] + s.skip(n - 1));
    } else {
        assert(d == src);
        assert(r =~= s);
    }
}

/// Removes position `index` of `seq`.
pub fn remove_position(seq: Vec<MaskOrLiteral>, index: usize) -> (r: Result<Vec<MaskOrLiteral>, String>)
    ensures
        r is Err <==> index >= seq@.len(),
        r matches Err(e) ==> e@ == index_out_of_range_msg(),
        r matches Ok(v) ==> positions_view(v@) == positions_view(seq@).remove(index as int),
{
    if index >= seq.len() {
        return Err(String::from_str("Índice fora dos limites."));
    }
    let ghost s0 = positions_view(seq@);
    let mut seq = seq;
    seq.remove(index);
    assert(positions_view(seq@) =~= s0.remove(index as int));
    Ok(seq)
}

/// The mask that toggling list `bit` of position `index` gives: the position
/// must be a mask position, and the new mask must keep some list.
pub fn toggle_position_mask(seq: &Vec<MaskOrLiteral>, index: usize, bit: u32) -> (r: Result<u32, String>)
    requires
        bit < 32,
    ensures
        index >= seq@.len() || seq@[index as int].view() is Literal ==> (r matches Err(e) && e@
            == bad_position_msg()),
        index < seq@.len() ==> (seq@[index as int].view() matches PositionView::Mask(m) ==> {
            let n = m ^ (1u32 << bit);
            &&& n == 0u32 ==> (r matches Err(e) && e@ == pick_a_list_msg())
            &&& n != 0u32 ==> r == Ok::<u32, String>(n)
        }),
{
    if index >= seq.len() {
        return Err(String::from_str("Posição inválida."));
    }
    match &seq[index] {
        MaskOrLiteral::Literal(_) => Err(String::from_str("Posição inválida.")),
        MaskOrLiteral::Mask(m) => {
            let n = toggle_bit(*m, bit);
            if n == 0 {
                Err(String::from_str("Selecione pelo menos uma lista."))
            } else {
                Ok(n)
            }
        },
    }
}

// ---------------------------------------------------------------------------
// Character-list slots and entropy targets

/// The lowest user-list bit that no list of the restriction occupies.
pub fn next_char_list_bit(lists: &[CharacterList]) -> (r: Result<u8, String>)
    ensures
        r matches Ok(b) ==> USER_CHAR_LIST_BIT_MIN <= b <= USER_CHAR_LIST_BIT_MAX && !bit_used(
            lists@,
            b as nat,
        ) && forall|c: nat| USER_CHAR_LIST_BIT_MIN <= c < b ==> bit_used(lists@, c),
        r is Err <==> forall|c: nat|
            USER_CHAR_LIST_BIT_MIN <= c <= USER_CHAR_LIST_BIT_MAX ==> bit_used(lists@, c),
        r matches Err(e) ==> e@ == no_free_slot_msg(),
{
    let mut b: u8 = USER_CHAR_LIST_BIT_MIN;
    while b <= USER_CHAR_LIST_BIT_MAX
        invariant
            USER_CHAR_LIST_BIT_MIN <= b <= USER_CHAR_LIST_BIT_MAX + 1,
            forall|c: nat| USER_CHAR_LIST_BIT_MIN <= c < b ==> bit_used(lists@, c),
        decreases USER_CHAR_LIST_BIT_MAX + 1 - b,
    {
        let mut used = false;
        let mut i: usize = 0;
        while i < lists.len()
            invariant
                i <= lists.len(),
                used == exists|k: int| 0 <= k < i && lists@[k].bit == b,
            decreases lists.len() - i,
        {
            if lists[i].bit == b {
                used = true;
            }
            i = i + 1;
        }
        if !used {
            assert(!bit_used(lists@, b as nat));
            return Ok(b);
        }
        b = b + 1;
    }
    Err(String::from_str("Não há slots de lista disponíveis (máximo atingido)."))
}

/// Parses the entropy target of "extend entropy": a decimal number of bits,
/// around optional white space, at least 1.
pub fn parse_entropy_bits(input: &str) -> (r: Result<u32, String>)
    ensures
        match parse_uint(trim(input@), 10, u32_max()) {
            Ok(v) => if v > 0 {
                r == Ok::<u32, String>(v as u32)
            } else {
                r matches Err(e) && e@ == bad_entropy_bits_msg()
            },
            Err(_) => r matches Err(e) && e@ == bad_entropy_bits_msg(),
        },
{
    let v = chars_of(input);
    let s = trim_chars(&v);
    proof {
        lemma_parse_bounded(s@, 10, u32_max());
    }
    match parse_uint_chars(&s, 10, 0xffff_ffff) {
        Ok(n) => {
            if n > 0 {
                Ok(n as u32)
            } else {
                Err(String::from_str("Número de bits inválido (mínimo: 1)."))
            }
        },
        Err(_) => Err(String::from_str("Número de bits inválido (mínimo: 1).")),
    }
}

} // verus!
