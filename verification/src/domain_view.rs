//! The domain panel: the checks before adding a domain, the question asked
//! before removing one, and how a compromised version's frozen configuration
//! is shown and where it sits among the versions, newest first.

use vstd::prelude::*;
use crate::text::{trim, trim_chars, chars_of, push_str, push_char, push_chars, join, views, join_strings};
use crate::number::{dec, push_dec};
use crate::model::{MaskOrLiteral, PositionView, positions_view, CharacterList};
use crate::helpers::{mask_bits_text, mask_bits_string};
use crate::hex_view::{hex_string, hex_bytes_text};

verus! {

/// Whether a restriction has a format: a sequence with at least one
/// position.
pub open spec fn has_format(seq: Option<Seq<PositionView>>) -> bool {
    match seq {
        Some(s) => s.len() > 0,
        None => false,
    }
}

pub fn restriction_has_format(seq: &Option<Vec<MaskOrLiteral>>) -> (r: bool)
    ensures
        r == has_format(
            match seq {
                Some(v) => Some(positions_view(v@)),
                None => None,
            },
        ),
{
    match seq {
        Some(v) => v.len() > 0,
        None => false,
    }
}

/// The add-domain form: an identifier that is not blank, a selected
/// restriction, and a format for it.
pub fn check_add_domain(identifier: &str, restriction_selected: bool, has_format: bool) -> (r: Result<(), String>)
    ensures
        trim(identifier@).len() == 0 ==> (r matches Err(e) && e@ == "O identificador não pode estar vazio."@),
        trim(identifier@).len() > 0 && !restriction_selected ==> (r matches Err(e) && e@
            == "Nenhuma restrição seleccionada."@),
        trim(identifier@).len() > 0 && restriction_selected && !has_format ==> (r matches Err(e) && e@
            == "Esta restrição não tem formato definido. Defina-o (\"Gerar novo formato\") antes de criar domínios."@),
        trim(identifier@).len() > 0 && restriction_selected && has_format ==> r is Ok,
{
    if trim_chars(&chars_of(identifier)).len() == 0 {
        return Err(String::from_str("O identificador não pode estar vazio."));
    }
    if !restriction_selected {
        return Err(String::from_str("Nenhuma restrição seleccionada."));
    }
    if !has_format {
        return Err(String::from_str(
            "Esta restrição não tem formato definido. Defina-o (\"Gerar novo formato\") antes de criar domínios.",
        ));
    }
    Ok(())
}

/// The question asked before removing a domain, which names the compromised
/// versions that go with it.
pub open spec fn remove_domain_text(compromise_count: nat) -> Seq<char> {
    if compromise_count > 0 {
        "Remove o domínio e "@ + dec(compromise_count) + " versão(ões) comprometida(s). Operação irreversível."@
    } else {
        "Remove o domínio permanentemente. Operação irreversível."@
    }
}

pub fn remove_domain_message(compromise_count: usize) -> (r: String)
    ensures
        r@ == remove_domain_text(compromise_count as nat),
{
    if compromise_count > 0 {
        let mut s = String::from_str("Remove o domínio e ");
        push_dec(&mut s, compromise_count as u128);
        push_str(&mut s, " versão(ões) comprometida(s). Operação irreversível.");
        s
    } else {
        String::from_str("Remove o domínio permanentemente. Operação irreversível.")
    }
}

// ---------------------------------------------------------------------------
// Frozen configurations

/// `t` padded on the left with spaces to `w` characters (`{:>w}`).
pub open spec fn pad_left(t: Seq<char>, w: nat) -> Seq<char> {
    if t.len() >= w {
        t
    } else {
        Seq::new((w - t.len()) as nat, |i: int| ' ') + t
    }
}

fn push_padded(s: &mut String, t: &String, w: usize)
    ensures
        final(s)@ == old(s)@ + pad_left(t@, w as nat),
{
    let ghost s0 = s@;
    let n = t.as_str().unicode_len();
    let mut k: usize = n;
    while k < w
        invariant
            n <= k <= w || (n > w && k == n),
            n == t@.len(),
            s@ == s0 + Seq::new((k - n) as nat, |i: int| ' '),
        decreases w - k,
    {
        push_char(s, ' ');
        k = k + 1;
        assert(s@ =~= s0 + Seq::new((k - n) as nat, |i: int| ' '));
    }
    let ghost before = s@;
    push_str(s, t.as_str());
    if n >= w {
        assert(Seq::new((k - n) as nat, |i: int| ' ') =~= Seq::<char>::empty());
        assert(s@ =~= s0 + pad_left(t@, w as nat));
    } else {
        assert(s@ =~= s0 + pad_left(t@, w as nat));
    }
}

/// One line of a frozen sequence: the position (from 1, right-aligned to 3)
/// and the mask with its bits, or the literal.
pub open spec fn frozen_position_line(i: nat, p: PositionView) -> Seq<char> {
    match p {
        PositionView::Mask(m) => "  "@ + pad_left(dec(i + 1), 3) + ". máscara "@ + dec(m as nat) + " (bits: "@
            + mask_bits_text(m) + ")"@,
        PositionView::Literal(t) => "  "@ + pad_left(dec(i + 1), 3) + ". literal '"@ + t + "'"@,
    }
}

/// The lines of a frozen sequence, joined by new lines.
pub open spec fn frozen_sequence_text(s: Seq<PositionView>) -> Seq<char> {
    join(Seq::new(s.len(), |i: int| frozen_position_line(i as nat, s[i])), "\n"@)
}

pub fn frozen_sequence_display(seq: &Vec<MaskOrLiteral>) -> (r: String)
    requires
        seq@.len() < u128::MAX,
    ensures
        r@ == frozen_sequence_text(positions_view(seq@)),
{
    let ghost pv = positions_view(seq@);
    let mut lines: Vec<String> = Vec::new();
    let mut i: usize = 0;
    while i < seq.len()
        invariant
            i <= seq.len(),
            seq@.len() < u128::MAX,
            pv == positions_view(seq@),
            views(lines@) == Seq::new(i as nat, |j: int| frozen_position_line(j as nat, pv[j])),
        decreases seq.len() - i,
    {
        let mut line = String::from_str("  ");
        let mut num = String::new();
        push_dec(&mut num, (i + 1) as u128);
        push_padded(&mut line, &num, 3);
        match &seq[i] {
            MaskOrLiteral::Mask(m) => {
                push_str(&mut line, ". máscara ");
                push_dec(&mut line, *m as u128);
                push_str(&mut line, " (bits: ");
                let bits = mask_bits_string(*m);
                push_str(&mut line, bits.as_str());
                push_str(&mut line, ")");
            },
            MaskOrLiteral::Literal(t) => {
                push_str(&mut line, ". literal '");
                push_str(&mut line, t.as_str());
                push_str(&mut line, "'");
            },
        }
        assert(pv[i as int] == seq@[i as int].view());
        assert(line@ =~= frozen_position_line(i as nat, pv[i as int]));
        let ghost before = views(lines@);
        lines.push(line);
        assert(views(lines@) =~= before.push(frozen_position_line(i as nat, pv[i as int])));
        assert(views(lines@) =~= Seq::new((i + 1) as nat, |j: int| frozen_position_line(j as nat, pv[j])));
        i = i + 1;
    }
    join_strings(&lines, "\n")
}

/// One line of the frozen character lists: the bit (right-aligned to 2),
/// the name and the number of elements.
pub open spec fn frozen_list_line(cl: CharacterList) -> Seq<char> {
    "  bit "@ + pad_left(dec(cl.bit as nat), 2) + ": "@ + cl.name@ + " ("@ + dec(cl.elements@.len()) + " elementos)"@
}

pub open spec fn frozen_lists_text(lists: Seq<CharacterList>) -> Seq<char> {
    join(lists.map_values(|cl: CharacterList| frozen_list_line(cl)), "\n"@)
}

/// The MAC of a frozen record as the detail view shows it: its hexadecimal
/// text, or "(não disponível)" when the record has none.
pub fn frozen_hmac_text(hmac: Option<Vec<u8>>) -> (r: String)
    ensures
        r@ == match hmac {
            Some(h) => hex_bytes_text(h@),
            None => "(não disponível)"@,
        },
{
    match hmac {
        Some(h) => hex_string(h.as_slice()),
        None => String::from_str("(não disponível)"),
    }
}

pub fn frozen_lists_display(lists: &[CharacterList]) -> (r: String)
    ensures
        r@ == frozen_lists_text(lists@),
{
    let mut lines: Vec<String> = Vec::new();
    let mut i: usize = 0;
    while i < lists.len()
        invariant
            i <= lists.len(),
            views(lines@) == lists@.take(i as int).map_values(|cl: CharacterList| frozen_list_line(cl)),
        decreases lists.len() - i,
    {
        let cl = &lists[i];
        let mut line = String::from_str("  bit ");
        let mut num = String::new();
        push_dec(&mut num, cl.bit as u128);
        push_padded(&mut line, &num, 2);
        push_str(&mut line, ": ");
        push_str(&mut line, cl.name.as_str());
        push_str(&mut line, " (");
        push_dec(&mut line, cl.elements.len() as u128);
        push_str(&mut line, " elementos)");
        assert(line@ =~= frozen_list_line(lists@[i as int]));
        let ghost before = views(lines@);
        lines.push(line);
        assert(views(lines@) =~= before.push(frozen_list_line(lists@[i as int])));
        assert(lists@.take(i + 1).map_values(|cl: CharacterList| frozen_list_line(cl)) =~= lists@.take(
            i as int,
        ).map_values(|cl: CharacterList| frozen_list_line(cl)).push(frozen_list_line(lists@[i as int])));
        i = i + 1;
    }
    assert(lists@.take(lists.len() as int) =~= lists@);
    join_strings(&lines, "\n")
}

// ---------------------------------------------------------------------------
// Versions, newest first

/// Whether instant `a` (seconds, nanoseconds) is later than `b`.
pub open spec fn later(a: (i64, u32), b: (i64, u32)) -> bool {
    a.0 > b.0 || (a.0 == b.0 && a.1 > b.1)
}

/// How many of the first `n` versions come before version `j` once they are
/// ordered newest first, keeping the order of versions of the same instant.
pub open spec fn ahead_of(ts: Seq<(i64, u32)>, j: int, n: nat) -> nat
    decreases n,
{
    if n == 0 {
        0
    } else {
        let k = n - 1;
        ahead_of(ts, j, (n - 1) as nat) + if later(ts[k], ts[j]) || (k < j && ts[k] == ts[j]) {
            1nat
        } else {
            0nat
        }
    }
}

/// Where version `j` sits once the versions are ordered newest first.
pub open spec fn newest_first_rank(ts: Seq<(i64, u32)>, j: int) -> nat {
    ahead_of(ts, j, ts.len())
}

proof fn lemma_ahead_bound(ts: Seq<(i64, u32)>, j: int, n: nat)
    ensures
        ahead_of(ts, j, n) <= n,
    decreases n,
{
    if n > 0 {
        lemma_ahead_bound(ts, j, (n - 1) as nat);
    }
}

fn rank_of(ts: &Vec<(i64, u32)>, j: usize) -> (r: usize)
    requires
        j < ts@.len(),
    ensures
        r as nat == newest_first_rank(ts@, j as int),
{
    let tj = ts[j];
    let mut count: usize = 0;
    let mut k: usize = 0;
    while k < ts.len()
        invariant
            k <= ts.len(),
            j < ts@.len(),
            tj == ts@[j as int],
            count as nat == ahead_of(ts@, j as int, k as nat),
            count <= k,
        decreases ts.len() - k,
    {
        let tk = ts[k];
        if tk.0 > tj.0 || (tk.0 == tj.0 && tk.1 > tj.1) || (k < j && tk.0 == tj.0 && tk.1 == tj.1) {
            count = count + 1;
        }
        k = k + 1;
    }
    count
}

/// Whether version `a` comes before version `b` once ordered newest first.
pub open spec fn precedes(ts: Seq<(i64, u32)>, a: int, b: int) -> bool {
    later(ts[a], ts[b]) || (a < b && ts[a] == ts[b])
}

proof fn lemma_ahead_step(ts: Seq<(i64, u32)>, j: int, k: int, n: nat)
    requires
        0 <= j < ts.len(),
        0 <= k < ts.len(),
        precedes(ts, j, k),
        n <= ts.len(),
    ensures
        ahead_of(ts, k, n) >= ahead_of(ts, j, n) + if j < n {
            1int
        } else {
            0int
        },
    decreases n,
{
    if n > 0 {
        lemma_ahead_step(ts, j, k, (n - 1) as nat);
    }
}

proof fn lemma_not_self(ts: Seq<(i64, u32)>, j: int, n: nat)
    requires
        0 <= j < n <= ts.len(),
    ensures
        ahead_of(ts, j, n) < n,
    decreases n,
{
    if n - 1 > j {
        lemma_not_self(ts, j, (n - 1) as nat);
    } else {
        lemma_ahead_bound(ts, j, (n - 1) as nat);
    }
}

/// Where each version sits once the versions are ordered newest first
/// (versions of the same instant keep their order).
pub fn newest_first_ranks(ts: &Vec<(i64, u32)>) -> (r: Vec<usize>)
    ensures
        r@.len() == ts@.len(),
        forall|j: int| 0 <= j < ts@.len() ==> r@[j] as nat == newest_first_rank(ts@, j),
        forall|j: int| 0 <= j < ts@.len() ==> r@[j] < ts@.len(),
        forall|j: int, k: int| 0 <= j < ts@.len() && 0 <= k < ts@.len() && j != k ==> r@[j] != r@[k],
{
    let mut r: Vec<usize> = Vec::new();
    let mut i: usize = 0;
    while i < ts.len()
        invariant
            i <= ts.len(),
            r@.len() == i,
            forall|j: int| 0 <= j < i ==> r@[j] as nat == newest_first_rank(ts@, j),
        decreases ts.len() - i,
    {
        r.push(rank_of(ts, i));
        i = i + 1;
    }
    proof {
        assert forall|j: int| 0 <= j < ts@.len() implies r@[j] < ts@.len() by {
            lemma_not_self(ts@, j, ts@.len());
        }
        assert forall|j: int, k: int| 0 <= j < ts@.len() && 0 <= k < ts@.len() && j != k implies r@[j] != r@[k] by {
            if precedes(ts@, j, k) {
                lemma_ahead_step(ts@, j, k, ts@.len());
            } else {
                lemma_ahead_step(ts@, k, j, ts@.len());
            }
        }
    }
    r
}

/// Where version `record` sits among the versions ordered newest first (the
/// first such place if it occurs more than once), or -1 if it is not there.
pub fn version_index(ts: &Vec<(i64, u32)>, uuids: &Vec<u128>, record: u128) -> (r: i32)
    requires
        ts@.len() == uuids@.len(),
        ts@.len() <= i32::MAX,
    ensures
        (forall|j: int| 0 <= j < uuids@.len() ==> uuids@[j] != record) ==> r == -1,
        (exists|j: int| 0 <= j < uuids@.len() && uuids@[j] == record) ==> ({
            &&& exists|j: int|
                0 <= j < uuids@.len() && uuids@[j] == record && r as int == newest_first_rank(ts@, j)
            &&& forall|j: int|
                0 <= j < uuids@.len() && uuids@[j] == record ==> r <= newest_first_rank(ts@, j)
        }),
{
    let mut best: i32 = -1;
    let mut i: usize = 0;
    while i < uuids.len()
        invariant
            i <= uuids.len(),
            ts@.len() == uuids@.len(),
            ts@.len() <= i32::MAX,
            (forall|j: int| 0 <= j < i ==> uuids@[j] != record) ==> best == -1,
            (exists|j: int| 0 <= j < i && uuids@[j] == record) ==> ({
                &&& exists|j: int|
                    0 <= j < i && uuids@[j] == record && best as int == newest_first_rank(ts@, j)
                &&& forall|j: int|
                    0 <= j < i && uuids@[j] == record ==> best <= newest_first_rank(ts@, j)
            }),
            best >= -1,
        decreases uuids.len() - i,
    {
        if uuids[i] == record {
            let rk = rank_of(ts, i);
            proof {
                lemma_ahead_bound(ts@, i as int, ts@.len());
            }
            let rk32 = rk as i32;
            if best == -1 || rk32 < best {
                best = rk32;
            }
        }
        i = i + 1;
    }
    best
}

} // verus!
