//! Input parsing and display helpers of the user interface: masks, bounded
//! numbers, comma-separated element lists, field validation, character-list
//! slots and mask descriptions.

use vstd::prelude::*;
use crate::text::{
    trim, trim_chars, chars_of, string_from_chars, push_str, push_chars, push_char, chars_eq,
    chars_contain, views, join, join_strings, sub_chars, lemma_trim_space_prefix, lemma_trim_empty,
    is_white, trim_start, first_at, lemma_first_at, split_on, lemma_trim_start_skip,
    lemma_trim_end_take,
};
use crate::number::{
    IntErrorKind, parse_uint, parse_uint_chars, int_error_text, int_error_string, u32_max, dec,
    push_dec, lemma_parse_bounded, hex_text, is_hex_digit, lemma_hex_digits, lemma_parse_hex,
    lemma_dec_digits, lemma_parse_dec,
};
use crate::model::{CharacterList, USER_CHAR_LIST_BIT_MIN, USER_CHAR_LIST_BIT_MAX};
use crate::text::{strip_leading, strip_leading_chars, chars_start_with};
use crate::ids::{uuid_parse, parse_uuid};
use crate::confirm::{colon_at, head, tail, split_at_colon};

verus! {

/// What `parse_mask` gives: the trimmed input in decimal, or in hexadecimal
/// after a `0x` prefix.
pub open spec fn mask_parse(input: Seq<char>) -> Result<nat, Seq<char>> {
    let s = trim(input);
    if s.len() == 0 {
        Err("Entrada vazia"@)
    } else {
        let r = if s.len() >= 2 && s[0] == '0' && s[1] == 'x' {
            parse_uint(s.skip(2), 16, u32_max())
        } else {
            parse_uint(s, 10, u32_max())
        };
        match r {
            Ok(v) => Ok(v),
            Err(k) => Err("Parse error: "@ + int_error_text(k)),
        }
    }
}

/// The message of an `Err` or the value of an `Ok`, as plain values.
pub open spec fn u32_result_view(r: Result<u32, String>) -> Result<nat, Seq<char>> {
    match r {
        Ok(v) => Ok(v as nat),
        Err(e) => Err(e@),
    }
}

/// Parses a mask given in decimal or as `0x` followed by hexadecimal digits,
/// around optional white space.
pub fn parse_mask(input: &str) -> (r: Result<u32, String>)
    ensures
        u32_result_view(r) == mask_parse(input@),
{
    let v = chars_of(input);
    let s = trim_chars(&v);
    if s.len() == 0 {
        return Err(String::from_str("Entrada vazia"));
    }
    let hex: bool = s.len() >= 2 && s[0] == '0' && s[1] == 'x';
    let r = if hex {
        let rest = sub_chars(&s, 2, s.len());
        assert(rest@ =~= s@.skip(2));
        parse_uint_chars(&rest, 16, 0xffff_ffff)
    } else {
        parse_uint_chars(&s, 10, 0xffff_ffff)
    };
    proof {
        lemma_parse_bounded(s@.skip(2), 16, u32_max());
        lemma_parse_bounded(s@, 10, u32_max());
    }
    match r {
        Ok(n) => Ok(n as u32),
        Err(k) => {
            let mut e = String::from_str("Parse error: ");
            let t = int_error_string(k);
            push_str(&mut e, t.as_str());
            Err(e)
        },
    }
}

/// Text that starts and ends with a character that is not white space keeps
/// its value when white space is put around it and trimmed off again.
proof fn lemma_trim_padded(pre: Seq<char>, x: Seq<char>, post: Seq<char>)
    requires
        forall|i: int| 0 <= i < pre.len() ==> is_white(#[trigger] pre[i]),
        forall|i: int| 0 <= i < post.len() ==> is_white(#[trigger] post[i]),
        x.len() > 0,
        !is_white(x[0]),
        !is_white(x.last()),
    ensures
        trim(pre + x + post) == x,
{
    let s = pre + x + post;
    assert forall|i: int| 0 <= i < pre.len() implies is_white(#[trigger] s[i]) by {
        assert(s[i] == pre[i]);
    }
    assert(s[pre.len() as int] == x[0]);
    lemma_trim_start_skip(s, pre.len() as int);
    let u = x + post;
    assert(s.skip(pre.len() as int) =~= u);
    assert forall|i: int| x.len() <= i < u.len() implies is_white(#[trigger] u[i]) by {
        assert(u[i] == post[i - x.len()]);
    }
    assert(u[x.len() - 1] == x.last());
    lemma_trim_end_take(u, x.len() as int);
    assert(u.take(x.len() as int) =~= x);
}

/// A mask reads back from its decimal text and from `0x` followed by its
/// hexadecimal text in either case, with any white space around either.
pub proof fn law_mask_round_trip(n: u32, upper: bool, pre: Seq<char>, post: Seq<char>)
    requires
        forall|i: int| 0 <= i < pre.len() ==> is_white(#[trigger] pre[i]),
        forall|i: int| 0 <= i < post.len() ==> is_white(#[trigger] post[i]),
    ensures
        mask_parse(pre + dec(n as nat) + post) == Ok::<nat, Seq<char>>(n as nat),
        mask_parse(pre + ("0x"@ + hex_text(n as nat, upper)) + post) == Ok::<nat, Seq<char>>(n as nat),
{
    reveal_strlit("0x");
    let d = dec(n as nat);
    lemma_dec_digits(n as nat);
    assert('0' <= d[0] <= '9');
    assert('0' <= d[d.len() - 1] <= '9');
    lemma_trim_padded(pre, d, post);
    lemma_parse_dec(n as nat, u32_max());
    if d.len() >= 2 {
        assert('0' <= d[1] <= '9');
    }
    let h = "0x"@ + hex_text(n as nat, upper);
    lemma_hex_digits(n as nat, upper);
    let ht = hex_text(n as nat, upper);
    assert(h[0] == '0');
    assert(h[1] == 'x');
    assert(h.last() == ht[ht.len() - 1]);
    assert(is_hex_digit(ht[ht.len() - 1]));
    lemma_trim_padded(pre, h, post);
    assert(h.skip(2) =~= ht);
    lemma_parse_hex(n as nat, upper, u32_max());
}

/// What `parse_u32_with_min` gives.
pub open spec fn bounded_parse(input: Seq<char>, min: u32) -> Result<nat, Seq<char>> {
    match parse_uint(trim(input), 10, u32_max()) {
        Err(k) => Err("Valor inválido: "@ + int_error_text(k)),
        Ok(v) => if v < min {
            Err("Valor mínimo: "@ + dec(min as nat))
        } else {
            Ok(v)
        },
    }
}

/// Parses a decimal number around optional white space and refuses one below
/// `min`.
pub fn parse_u32_with_min(input: &str, min: u32) -> (r: Result<u32, String>)
    ensures
        u32_result_view(r) == bounded_parse(input@, min),
{
    let v = chars_of(input);
    let s = trim_chars(&v);
    proof {
        lemma_parse_bounded(s@, 10, u32_max());
    }
    match parse_uint_chars(&s, 10, 0xffff_ffff) {
        Err(k) => {
            let mut e = String::from_str("Valor inválido: ");
            let t = int_error_string(k);
            push_str(&mut e, t.as_str());
            Err(e)
        },
        Ok(n) => {
            if n < min as u128 {
                let mut e = String::from_str("Valor mínimo: ");
                push_dec(&mut e, min as u128);
                Err(e)
            } else {
                Ok(n as u32)
            }
        },
    }
}

/// The state of the element-list scanner: the elements found so far, the
/// element being read, and whether it is inside `{` `}`.
pub ghost struct CsvScan {
    pub elements: Seq<Seq<char>>,
    pub current: Seq<char>,
    pub in_escape: bool,
}

/// One character of the element-list syntax: `{` opens an element taken
/// verbatim, `}` closes it, `,` ends a plain element, which is trimmed and
/// dropped when empty.
pub open spec fn csv_step(st: CsvScan, c: char) -> CsvScan {
    if c == '{' && !st.in_escape {
        CsvScan { in_escape: true, ..st }
    } else if c == '}' && st.in_escape {
        CsvScan { elements: st.elements.push(st.current), current: seq![], in_escape: false }
    } else if c == ',' && !st.in_escape {
        let t = trim(st.current);
        CsvScan {
            elements: if t.len() > 0 {
                st.elements.push(t)
            } else {
                st.elements
            },
            current: seq![],
            in_escape: false,
        }
    } else {
        CsvScan { current: st.current.push(c), ..st }
    }
}

/// The scanner state after reading `s`.
pub open spec fn csv_scan(s: Seq<char>) -> CsvScan
    decreases s.len(),
{
    if s.len() == 0 {
        CsvScan { elements: seq![], current: seq![], in_escape: false }
    } else {
        csv_step(csv_scan(s.drop_last()), s.last())
    }
}

/// What `parse_csv_elements` gives.
pub open spec fn csv_parse(s: Seq<char>) -> Result<Seq<Seq<char>>, Seq<char>> {
    let st = csv_scan(s);
    if st.in_escape {
        Err("Carácter especial sem '}' de fecho."@)
    } else {
        let t = trim(st.current);
        let els = if t.len() > 0 {
            st.elements.push(t)
        } else {
            st.elements
        };
        if els.len() == 0 {
            Err("Lista vazia"@)
        } else {
            Ok(els)
        }
    }
}

pub open spec fn strings_result_view(r: Result<Vec<String>, String>) -> Result<Seq<Seq<char>>, Seq<char>> {
    match r {
        Ok(v) => Ok(views(v@)),
        Err(e) => Err(e@),
    }
}

/// Splits a comma-separated list of elements; an element written between `{`
/// and `}` is taken as it stands, commas and white space included.
pub fn parse_csv_elements(input: &str) -> (r: Result<Vec<String>, String>)
    ensures
        strings_result_view(r) == csv_parse(input@),
{
    let s = chars_of(input);
    let mut elements: Vec<String> = Vec::new();
    let mut current: Vec<char> = Vec::new();
    let mut in_escape: bool = false;
    let mut i: usize = 0;
    while i < s.len()
        invariant
            i <= s.len(),
            s@ == input@,
            views(elements@) == csv_scan(s@.take(i as int)).elements,
            current@ == csv_scan(s@.take(i as int)).current,
            in_escape == csv_scan(s@.take(i as int)).in_escape,
        decreases s.len() - i,
    {
        let c = s[i];
        let ghost st = csv_scan(s@.take(i as int));
        assert(s@.take(i + 1).drop_last() =~= s@.take(i as int));
        assert(s@.take(i + 1).last() == c);
        if c == '{' && !in_escape {
            in_escape = true;
        } else if c == '}' && in_escape {
            in_escape = false;
            let e = string_from_chars(&current);
            elements.push(e);
            current = Vec::new();
            assert(views(elements@) =~= st.elements.push(st.current));
            assert(current@ =~= Seq::<char>::empty());
        } else if c == ',' && !in_escape {
            let t = trim_chars(&current);
            if t.len() > 0 {
                let e = string_from_chars(&t);
                elements.push(e);
                assert(views(elements@) =~= st.elements.push(trim(st.current)));
            }
            current = Vec::new();
            assert(current@ =~= Seq::<char>::empty());
        } else {
            current.push(c);
        }
        i = i + 1;
    }
    assert(s@.take(s.len() as int) =~= s@);
    if in_escape {
        return Err(String::from_str("Carácter especial sem '}' de fecho."));
    }
    let t = trim_chars(&current);
    if t.len() > 0 {
        let e = string_from_chars(&t);
        let ghost before = views(elements@);
        elements.push(e);
        assert(views(elements@) =~= before.push(t@));
    }
    if elements.len() == 0 {
        Err(String::from_str("Lista vazia"))
    } else {
        Ok(elements)
    }
}

/// Whether an element must be written between `{` and `}` to read back as it
/// stands: it is blank, has white space at either end, or holds a comma.
pub open spec fn needs_braces(e: Seq<char>) -> bool {
    trim(e).len() == 0 || trim(e) != e || e.contains(',')
}

/// An element as `format_csv_elements` writes it.
pub open spec fn csv_field(e: Seq<char>) -> Seq<char> {
    if needs_braces(e) {
        seq!['{'] + e + seq!['}']
    } else {
        e
    }
}

/// What `format_csv_elements` gives.
pub open spec fn csv_format(elements: Seq<Seq<char>>) -> Seq<char> {
    join(elements.map_values(|e: Seq<char>| csv_field(e)), ", "@)
}

/// Writes elements as a comma-separated list that `parse_csv_elements` reads.
pub fn format_csv_elements(elements: &[String]) -> (r: String)
    ensures
        r@ == csv_format(views(elements@)),
{
    let mut parts: Vec<String> = Vec::new();
    let mut i: usize = 0;
    while i < elements.len()
        invariant
            i <= elements.len(),
            views(parts@) == views(elements@).take(i as int).map_values(
                |e: Seq<char>| csv_field(e),
            ),
        decreases elements.len() - i,
    {
        let e = chars_of(elements[i].as_str());
        let t = trim_chars(&e);
        let braces: bool = t.len() == 0 || !chars_eq(&t, &e) || chars_contain(&e, ',');
        let part = if braces {
            let mut p = String::new();
            push_char(&mut p, '{');
            push_chars(&mut p, &e);
            push_char(&mut p, '}');
            assert(p@ =~= seq!['{'] + e@ + seq!['}']);
            p
        } else {
            string_from_chars(&e)
        };
        let ghost before = views(parts@);
        parts.push(part);
        assert(views(parts@) =~= before.push(csv_field(elements@[i as int]@)));
        assert(views(elements@).take(i + 1) =~= views(elements@).take(i as int).push(
            elements@[i as int]@,
        ));
        assert(views(elements@).take(i + 1).map_values(|e: Seq<char>| csv_field(e))
            =~= views(elements@).take(i as int).map_values(|e: Seq<char>| csv_field(e)).push(
            csv_field(elements@[i as int]@),
        ));
        i = i + 1;
    }
    assert(views(elements@).take(elements.len() as int) =~= views(elements@));
    join_strings(&parts, ", ")
}

/// Checks that two fields hold the same text.
pub fn validate_match(a: &str, b: &str, field_name: &str) -> (r: Result<(), String>)
    ensures
        r is Ok <==> a@ == b@,
        r matches Err(e) ==> e@ == field_name@ + " não corresponde"@,
{
    let x = chars_of(a);
    let y = chars_of(b);
    if !chars_eq(&x, &y) {
        let mut e = String::from_str(field_name);
        push_str(&mut e, " não corresponde");
        Err(e)
    } else {
        Ok(())
    }
}

/// Checks that a field holds more than white space.
pub fn validate_not_empty(s: &str, field_name: &str) -> (r: Result<(), String>)
    ensures
        r is Ok <==> trim(s@).len() > 0,
        r matches Err(e) ==> e@ == field_name@ + " não pode estar vazio"@,
{
    let v = chars_of(s);
    let t = trim_chars(&v);
    if t.len() == 0 {
        let mut e = String::from_str(field_name);
        push_str(&mut e, " não pode estar vazio");
        Err(e)
    } else {
        Ok(())
    }
}

/// The slot number (from 1) of a user character list that occupies `bit`.
pub fn bit_to_slot(bit: u8) -> (r: u8)
    requires
        USER_CHAR_LIST_BIT_MIN <= bit,
    ensures
        r == bit - USER_CHAR_LIST_BIT_MIN + 1,
{
    bit - USER_CHAR_LIST_BIT_MIN + 1
}

/// The mask bit of user character-list slot `slot` (from 1).
pub fn slot_to_bit(slot: u8) -> (r: u8)
    requires
        1 <= slot,
        USER_CHAR_LIST_BIT_MIN + slot - 1 <= 255,
    ensures
        r == USER_CHAR_LIST_BIT_MIN + slot - 1,
{
    USER_CHAR_LIST_BIT_MIN + (slot - 1)
}

/// Whether bit `b` of `mask` is set.
pub open spec fn has_bit(mask: u32, b: u32) -> bool {
    mask & (1u32 << b) != 0u32
}

/// The bits below `n` that `mask` sets, ascending.
pub open spec fn set_bits(mask: u32, n: nat) -> Seq<nat>
    decreases n,
{
    if n == 0 {
        seq![]
    } else if has_bit(mask, (n - 1) as u32) {
        set_bits(mask, (n - 1) as nat).push((n - 1) as nat)
    } else {
        set_bits(mask, (n - 1) as nat)
    }
}

proof fn lemma_set_bits(mask: u32, n: nat)
    requires
        n <= 32,
    ensures
        forall|i: int, j: int|
            0 <= i < j < set_bits(mask, n).len() ==> set_bits(mask, n)[i] < set_bits(mask, n)[j],
        forall|i: int| 0 <= i < set_bits(mask, n).len() ==> #[trigger] set_bits(mask, n)[i] < n,
        forall|k: u32| k < n ==> (set_bits(mask, n).contains(k as nat) <==> has_bit(mask, k)),
    decreases n,
{
    if n > 0 {
        lemma_set_bits(mask, (n - 1) as nat);
        let p = set_bits(mask, (n - 1) as nat);
        let q = set_bits(mask, n);
        assert forall|k: u32| k < n implies (q.contains(k as nat) <==> has_bit(mask, k)) by {
            if k < n - 1 {
                if has_bit(mask, (n - 1) as u32) {
                    if q.contains(k as nat) {
                        let i = choose|i: int| 0 <= i < q.len() && q[i] == k as nat;
                        if i < p.len() {
                            assert(p[i] == k as nat);
                        }
                    }
                    if p.contains(k as nat) {
                        let i = choose|i: int| 0 <= i < p.len() && p[i] == k as nat;
                        assert(q[i] == k as nat);
                    }
                }
            } else {
                assert(k == n - 1);
                if has_bit(mask, k) {
                    assert(q[q.len() - 1] == k as nat);
                } else if q.contains(k as nat) {
                    let i = choose|i: int| 0 <= i < q.len() && q[i] == k as nat;
                    assert(p[i] < n - 1);
                }
            }
        }
    }
}

proof fn lemma_no_bits_zero(mask: u32)
    requires
        forall|k: u32| k < 32 ==> !has_bit(mask, k),
    ensures
        mask == 0,
{
    assert(!has_bit(mask, 0u32));
    assert(!has_bit(mask, 1u32));
    assert(!has_bit(mask, 2u32));
    assert(!has_bit(mask, 3u32));
    assert(!has_bit(mask, 4u32));
    assert(!has_bit(mask, 5u32));
    assert(!has_bit(mask, 6u32));
    assert(!has_bit(mask, 7u32));
    assert(!has_bit(mask, 8u32));
    assert(!has_bit(mask, 9u32));
    assert(!has_bit(mask, 10u32));
    assert(!has_bit(mask, 11u32));
    assert(!has_bit(mask, 12u32));
    assert(!has_bit(mask, 13u32));
    assert(!has_bit(mask, 14u32));
    assert(!has_bit(mask, 15u32));
    assert(!has_bit(mask, 16u32));
    assert(!has_bit(mask, 17u32));
    assert(!has_bit(mask, 18u32));
    assert(!has_bit(mask, 19u32));
    assert(!has_bit(mask, 20u32));
    assert(!has_bit(mask, 21u32));
    assert(!has_bit(mask, 22u32));
    assert(!has_bit(mask, 23u32));
    assert(!has_bit(mask, 24u32));
    assert(!has_bit(mask, 25u32));
    assert(!has_bit(mask, 26u32));
    assert(!has_bit(mask, 27u32));
    assert(!has_bit(mask, 28u32));
    assert(!has_bit(mask, 29u32));
    assert(!has_bit(mask, 30u32));
    assert(!has_bit(mask, 31u32));
    assert(mask == 0u32) by (bit_vector)
        requires
            mask & (1u32 << 0u32) == 0u32 &&
            mask & (1u32 << 1u32) == 0u32 &&
            mask & (1u32 << 2u32) == 0u32 &&
            mask & (1u32 << 3u32) == 0u32 &&
            mask & (1u32 << 4u32) == 0u32 &&
            mask & (1u32 << 5u32) == 0u32 &&
            mask & (1u32 << 6u32) == 0u32 &&
            mask & (1u32 << 7u32) == 0u32 &&
            mask & (1u32 << 8u32) == 0u32 &&
            mask & (1u32 << 9u32) == 0u32 &&
            mask & (1u32 << 10u32) == 0u32 &&
            mask & (1u32 << 11u32) == 0u32 &&
            mask & (1u32 << 12u32) == 0u32 &&
            mask & (1u32 << 13u32) == 0u32 &&
            mask & (1u32 << 14u32) == 0u32 &&
            mask & (1u32 << 15u32) == 0u32 &&
            mask & (1u32 << 16u32) == 0u32 &&
            mask & (1u32 << 17u32) == 0u32 &&
            mask & (1u32 << 18u32) == 0u32 &&
            mask & (1u32 << 19u32) == 0u32 &&
            mask & (1u32 << 20u32) == 0u32 &&
            mask & (1u32 << 21u32) == 0u32 &&
            mask & (1u32 << 22u32) == 0u32 &&
            mask & (1u32 << 23u32) == 0u32 &&
            mask & (1u32 << 24u32) == 0u32 &&
            mask & (1u32 << 25u32) == 0u32 &&
            mask & (1u32 << 26u32) == 0u32 &&
            mask & (1u32 << 27u32) == 0u32 &&
            mask & (1u32 << 28u32) == 0u32 &&
            mask & (1u32 << 29u32) == 0u32 &&
            mask & (1u32 << 30u32) == 0u32 &&
            mask & (1u32 << 31u32) == 0u32,
    ;
}

/// `str::split` at `c` of `a`, `c` and `b` is the split of `a` followed by
/// the split of `b`.
proof fn lemma_split_on_join(a: Seq<char>, c: char, b: Seq<char>)
    ensures
        split_on(a + seq![c] + b, c) == split_on(a, c) + split_on(b, c),
    decreases a.len(),
{
    let x = a + seq![c] + b;
    lemma_first_at(a, c);
    match first_at(a, c) {
        Some(k) => {
            let k = k as int;
            assert forall|j: int| 0 <= j < k implies x[j] != c by {
                assert(x[j] == a[j]);
            }
            assert(x[k] == a[k]);
            lemma_first_at_is(x, c, k);
            assert(x.take(k) =~= a.take(k));
            assert(x.skip(k + 1) =~= a.skip(k + 1) + seq![c] + b);
            lemma_split_on_join(a.skip(k + 1), c, b);
            assert(split_on(a, c) == seq![a.take(k)] + split_on(a.skip(k + 1), c));
            assert(seq![a.take(k)] + (split_on(a.skip(k + 1), c) + split_on(b, c)) =~= seq![
                a.take(k),
            ] + split_on(a.skip(k + 1), c) + split_on(b, c));
        },
        None => {
            assert forall|j: int| 0 <= j < a.len() implies x[j] != c by {
                assert(x[j] == a[j]);
            }
            assert(x[a.len() as int] == c);
            lemma_first_at_is(x, c, a.len() as int);
            assert(x.take(a.len() as int) =~= a);
            assert(x.skip(a.len() as int + 1) =~= b);
            assert(split_on(a, c) == seq![a]);
        },
    }
}

/// Parts without `c`, joined with `c`, split at `c` back into the parts.
proof fn lemma_split_join(parts: Seq<Seq<char>>, c: char)
    requires
        parts.len() > 0,
        forall|i: int| 0 <= i < parts.len() ==> !(#[trigger] parts[i]).contains(c),
    ensures
        split_on(join(parts, seq![c]), c) == parts,
    decreases parts.len(),
{
    let last = parts.last();
    assert(!last.contains(c));
    lemma_first_at(last, c);
    if first_at(last, c) is Some {
        let k = first_at(last, c)->0;
        assert(last[k as int] == c);
    }
    assert(split_on(last, c) == seq![last]);
    if parts.len() == 1 {
        assert(parts =~= seq![last]);
    } else {
        let d = parts.drop_last();
        assert forall|i: int| 0 <= i < d.len() implies !(#[trigger] d[i]).contains(c) by {
            assert(d[i] == parts[i]);
        }
        lemma_split_join(d, c);
        lemma_split_on_join(join(d, seq![c]), c, last);
        assert(d + seq![last] =~= parts);
    }
}

/// Joining parts of which the last is not empty gives text that is not
/// empty.
proof fn lemma_join_nonempty(parts: Seq<Seq<char>>, sep: Seq<char>)
    requires
        parts.len() > 0,
        parts.last().len() > 0,
    ensures
        join(parts, sep).len() > 0,
{
}

/// The bits that `mask_bits_string` lists: ascending without repeats, each
/// below 32, exactly the bits that the mask sets; the text is empty exactly
/// for the mask 0, and otherwise splits at its commas into the decimal texts
/// of those bits.
pub proof fn law_mask_bits(mask: u32)
    ensures
        forall|i: int, j: int|
            0 <= i < j < set_bits(mask, 32).len() ==> set_bits(mask, 32)[i] < set_bits(mask, 32)[j],
        forall|i: int| 0 <= i < set_bits(mask, 32).len() ==> #[trigger] set_bits(mask, 32)[i] < 32,
        forall|k: u32| k < 32 ==> (set_bits(mask, 32).contains(k as nat) <==> has_bit(mask, k)),
        (mask_bits_text(mask).len() == 0) <==> (mask == 0),
        mask != 0 ==> split_on(mask_bits_text(mask), ',') == set_bits(mask, 32).map_values(
            |b: nat| dec(b),
        ),
{
    reveal_strlit(",");
    lemma_set_bits(mask, 32);
    let bits = set_bits(mask, 32);
    let parts = bits.map_values(|b: nat| dec(b));
    assert forall|i: int| 0 <= i < parts.len() implies (#[trigger] parts[i]).len() > 0
        && !parts[i].contains(',') by {
        lemma_dec_digits(bits[i]);
        if parts[i].contains(',') {
            let j = choose|j: int| 0 <= j < parts[i].len() && parts[i][j] == ',';
            assert('0' <= dec(bits[i])[j] <= '9');
        }
    }
    if mask == 0 {
        assert forall|k: u32| k < 32 implies !has_bit(mask, k) by {
            assert(0u32 & (1u32 << k) == 0u32) by (bit_vector);
        }
        if bits.len() > 0 {
            assert(bits.contains(bits[0]));
            assert(has_bit(mask, bits[0] as u32));
        }
        assert(parts.len() == 0);
    } else {
        if bits.len() == 0 {
            assert forall|k: u32| k < 32 implies !has_bit(mask, k) by {
                if has_bit(mask, k) {
                    assert(bits.contains(k as nat));
                }
            }
            lemma_no_bits_zero(mask);
        }
        assert(parts.len() > 0);
        lemma_join_nonempty(parts, ","@);
        assert(","@ =~= seq![',']);
        lemma_split_join(parts, ',');
    }
}

/// What `mask_bits_string` gives: the set bits in decimal, separated by commas.
pub open spec fn mask_bits_text(mask: u32) -> Seq<char> {
    join(set_bits(mask, 32).map_values(|b: nat| dec(b)), ","@)
}

/// The set bits of a mask, e.g. 7 gives "0,1,2".
pub fn mask_bits_string(mask: u32) -> (r: String)
    ensures
        r@ == mask_bits_text(mask),
{
    let mut parts: Vec<String> = Vec::new();
    let mut bit: u32 = 0;
    while bit < 32
        invariant
            bit <= 32,
            views(parts@) == set_bits(mask, bit as nat).map_values(|b: nat| dec(b)),
        decreases 32 - bit,
    {
        let ghost before = views(parts@);
        if mask & (1u32 << bit) != 0 {
            let mut p = String::new();
            push_dec(&mut p, bit as u128);
            parts.push(p);
            assert(views(parts@) =~= before.push(dec(bit as nat)));
            assert(set_bits(mask, (bit + 1) as nat) == set_bits(mask, bit as nat).push(bit as nat));
            assert(set_bits(mask, (bit + 1) as nat).map_values(|b: nat| dec(b)) =~= set_bits(
                mask,
                bit as nat,
            ).map_values(|b: nat| dec(b)).push(dec(bit as nat)));
        } else {
            assert(set_bits(mask, (bit + 1) as nat) == set_bits(mask, bit as nat));
        }
        bit = bit + 1;
    }
    join_strings(&parts, ",")
}

/// The name of the first list of `lists` that occupies `bit`, if any.
pub open spec fn list_name_for_bit(lists: Seq<CharacterList>, bit: nat) -> Option<Seq<char>>
    decreases lists.len(),
{
    if lists.len() == 0 {
        None
    } else if lists[0].bit as nat == bit {
        Some(lists[0].name@)
    } else {
        list_name_for_bit(lists.drop_first(), bit)
    }
}

/// The names of the built-in lists below bit `n` that `mask` selects and
/// `lists` holds, by ascending bit.
pub open spec fn builtin_names(mask: u32, lists: Seq<CharacterList>, n: nat) -> Seq<Seq<char>>
    decreases n,
{
    if n == 0 {
        seq![]
    } else {
        let prev = builtin_names(mask, lists, (n - 1) as nat);
        if has_bit(mask, (n - 1) as u32) {
            match list_name_for_bit(lists, (n - 1) as nat) {
                Some(name) => prev.push(name),
                None => prev,
            }
        } else {
            prev
        }
    }
}

/// The number of user-list bits in `[lo, hi)` that `mask` sets.
pub open spec fn count_bits(mask: u32, lo: nat, hi: nat) -> nat
    decreases hi - lo,
{
    if hi <= lo {
        0
    } else if has_bit(mask, (hi - 1) as u32) {
        count_bits(mask, lo, (hi - 1) as nat) + 1
    } else {
        count_bits(mask, lo, (hi - 1) as nat)
    }
}

/// What `mask_categories_string` gives.
pub open spec fn mask_categories_text(mask: u32, lists: Seq<CharacterList>) -> Seq<char> {
    let names = join(builtin_names(mask, lists, USER_CHAR_LIST_BIT_MIN as nat), ", "@);
    let custom = count_bits(
        mask,
        USER_CHAR_LIST_BIT_MIN as nat,
        USER_CHAR_LIST_BIT_MAX as nat + 1,
    );
    let with_custom = if custom > 0 {
        (if names.len() > 0 {
            names + ", "@
        } else {
            names
        }) + "+"@ + dec(custom) + " personalizada(s)"@
    } else {
        names
    };
    if with_custom.len() == 0 {
        "(vazio)"@
    } else {
        with_custom
    }
}

fn find_list_name(lists: &[CharacterList], bit: u8) -> (r: Option<&String>)
    ensures
        match r {
            Some(n) => list_name_for_bit(lists@, bit as nat) == Some(n@),
            None => list_name_for_bit(lists@, bit as nat) is None,
        },
{
    let mut i: usize = 0;
    assert(lists@.skip(0) =~= lists@);
    while i < lists.len()
        invariant
            i <= lists.len(),
            list_name_for_bit(lists@, bit as nat) == list_name_for_bit(
                lists@.skip(i as int),
                bit as nat,
            ),
        decreases lists.len() - i,
    {
        assert(lists@.skip(i as int)[0] == lists@[i as int]);
        assert(lists@.skip(i as int).drop_first() =~= lists@.skip(i + 1));
        if lists[i].bit == bit {
            return Some(&lists[i].name);
        }
        i = i + 1;
    }
    None
}

/// A readable description of the character lists that a mask selects: the
/// names of the built-in lists, then the number of user lists.
pub fn mask_categories_string(mask: u32, char_lists: &[CharacterList]) -> (r: String)
    ensures
        r@ == mask_categories_text(mask, char_lists@),
{
    let mut parts: Vec<String> = Vec::new();
    let mut bit: u8 = 0;
    while bit < USER_CHAR_LIST_BIT_MIN
        invariant
            bit <= USER_CHAR_LIST_BIT_MIN,
            views(parts@) == builtin_names(mask, char_lists@, bit as nat),
        decreases USER_CHAR_LIST_BIT_MIN - bit,
    {
        let ghost before = views(parts@);
        if mask & (1u32 << (bit as u32)) != 0 {
            match find_list_name(char_lists, bit) {
                Some(name) => {
                    parts.push(name.clone());
                    assert(views(parts@) =~= before.push(name@));
                },
                None => {},
            }
        }
        bit = bit + 1;
    }
    let mut custom: u32 = 0;
    let mut b: u32 = USER_CHAR_LIST_BIT_MIN as u32;
    while b <= USER_CHAR_LIST_BIT_MAX as u32
        invariant
            USER_CHAR_LIST_BIT_MIN as u32 <= b <= USER_CHAR_LIST_BIT_MAX as u32 + 1,
            custom as nat == count_bits(mask, USER_CHAR_LIST_BIT_MIN as nat, b as nat),
            custom <= b,
        decreases USER_CHAR_LIST_BIT_MAX as u32 + 1 - b,
    {
        if mask & (1u32 << b) != 0 {
            custom = custom + 1;
        }
        b = b + 1;
    }
    let mut out = join_strings(&parts, ", ");
    if custom > 0 {
        if out.as_str().unicode_len() > 0 {
            push_str(&mut out, ", ");
        }
        push_str(&mut out, "+");
        push_dec(&mut out, custom as u128);
        push_str(&mut out, " personalizada(s)");
    }
    if out.as_str().unicode_len() == 0 {
        push_str(&mut out, "(vazio)");
    }
    out
}

} // verus!

verus! {

/// The scanner state after reading `s` from state `st`, left to right.
pub open spec fn csv_run(st: CsvScan, s: Seq<char>) -> CsvScan
    decreases s.len(),
{
    if s.len() == 0 {
        st
    } else {
        csv_run(csv_step(st, s[0]), s.drop_first())
    }
}

pub open spec fn csv_start() -> CsvScan {
    CsvScan { elements: seq![], current: seq![], in_escape: false }
}

proof fn lemma_csv_run_one(st: CsvScan, c: char)
    ensures
        csv_run(st, seq![c]) == csv_step(st, c),
{
    assert(seq![c][0] == c);
    assert(seq![c].drop_first() =~= Seq::<char>::empty());
    assert(csv_run(csv_step(st, c), Seq::<char>::empty()) == csv_step(st, c));
}

proof fn lemma_csv_run_push(st: CsvScan, s: Seq<char>, c: char)
    ensures
        csv_run(st, s.push(c)) == csv_step(csv_run(st, s), c),
    decreases s.len(),
{
    if s.len() == 0 {
        assert(s.push(c) =~= seq![c]);
        lemma_csv_run_one(st, c);
        assert(csv_run(st, s) == st);
    } else {
        assert(s.push(c)[0] == s[0]);
        assert(s.push(c).drop_first() =~= s.drop_first().push(c));
        lemma_csv_run_push(csv_step(st, s[0]), s.drop_first(), c);
    }
}

proof fn lemma_csv_scan_run(s: Seq<char>)
    ensures
        csv_scan(s) == csv_run(csv_start(), s),
    decreases s.len(),
{
    if s.len() > 0 {
        lemma_csv_scan_run(s.drop_last());
        lemma_csv_run_push(csv_start(), s.drop_last(), s.last());
        assert(s.drop_last().push(s.last()) =~= s);
    }
}

proof fn lemma_csv_run_append(st: CsvScan, a: Seq<char>, b: Seq<char>)
    ensures
        csv_run(st, a + b) == csv_run(csv_run(st, a), b),
    decreases a.len(),
{
    if a.len() == 0 {
        assert(a + b =~= b);
    } else {
        assert((a + b).drop_first() =~= a.drop_first() + b);
        lemma_csv_run_append(csv_step(st, a[0]), a.drop_first(), b);
    }
}

/// Reading characters that are none of `{`, `}` and `,` extends the current
/// element, inside braces or outside.
proof fn lemma_csv_run_plain(st: CsvScan, e: Seq<char>)
    requires
        !e.contains('{'),
        !e.contains('}'),
        !st.in_escape ==> !e.contains(','),
    ensures
        csv_run(st, e) == (CsvScan { current: st.current + e, ..st }),
    decreases e.len(),
{
    if e.len() == 0 {
        assert(st.current + e =~= st.current);
    } else {
        assert(e.contains(e[0]));
        let st1 = csv_step(st, e[0]);
        assert(st1 == (CsvScan { current: st.current.push(e[0]), ..st }));
        let t = e.drop_first();
        assert forall|c: char| t.contains(c) implies e.contains(c) by {
            let k = choose|k: int| 0 <= k < t.len() && t[k] == c;
            assert(e[k + 1] == c);
        }
        lemma_csv_run_plain(st1, t);
        assert(st.current.push(e[0]) + t =~= st.current + e);
    }
}

/// The scanner state after reading the first `k` fields of the formatted list.
spec fn csv_round_state(elements: Seq<Seq<char>>, k: int) -> CsvScan {
    if k == 1 && needs_braces(elements[0]) {
        CsvScan { elements: seq![elements[0]], current: seq![], in_escape: false }
    } else if k == 1 {
        CsvScan { elements: seq![], current: elements[0], in_escape: false }
    } else {
        CsvScan {
            elements: elements.take(k - 1),
            current: seq![' '] + elements[k - 1],
            in_escape: false,
        }
    }
}

spec fn csv_fields(elements: Seq<Seq<char>>) -> Seq<Seq<char>> {
    elements.map_values(|e: Seq<char>| csv_field(e))
}

proof fn lemma_csv_round_prefix(elements: Seq<Seq<char>>, k: int)
    requires
        1 <= k <= elements.len(),
        forall|i: int| 0 <= i < elements.len() ==> !(#[trigger] elements[i]).contains('{'),
        forall|i: int| 0 <= i < elements.len() ==> !(#[trigger] elements[i]).contains('}'),
        forall|i: int| 1 <= i < elements.len() ==> !needs_braces(#[trigger] elements[i]),
    ensures
        csv_run(csv_start(), join(csv_fields(elements).take(k), ", "@)) == csv_round_state(
            elements,
            k,
        ),
    decreases k,
{
    reveal_strlit(", ");
    let f = csv_fields(elements);
    if k == 1 {
        assert(f.take(1) =~= seq![csv_field(elements[0])]);
        let e = elements[0];
        if needs_braces(e) {
            let st1 = csv_step(csv_start(), '{');
            assert(join(f.take(1), ", "@) == seq!['{'] + e + seq!['}']);
            lemma_csv_run_append(csv_start(), seq!['{'], e + seq!['}']);
            assert(seq!['{'] + e + seq!['}'] =~= seq!['{'] + (e + seq!['}']));
            lemma_csv_run_one(csv_start(), '{');
            lemma_csv_run_append(st1, e, seq!['}']);
            lemma_csv_run_plain(st1, e);
            let st2 = CsvScan { current: st1.current + e, ..st1 };
            lemma_csv_run_one(st2, '}');
            assert(st1.current + e =~= e);
        } else {
            assert(join(f.take(1), ", "@) == e);
            lemma_csv_run_plain(csv_start(), e);
            assert(Seq::<char>::empty() + e =~= e);
        }
    } else {
        lemma_csv_round_prefix(elements, k - 1);
        let prev = join(f.take(k - 1), ", "@);
        assert(f.take(k).drop_last() =~= f.take(k - 1));
        assert(f.take(k).last() == csv_field(elements[k - 1]));
        let e = elements[k - 1];
        assert(!needs_braces(e));
        assert(csv_field(e) == e);
        assert(join(f.take(k), ", "@) == prev + ", "@ + e);
        let st = csv_round_state(elements, k - 1);
        lemma_csv_run_append(csv_start(), prev, ", "@ + e);
        assert(prev + ", "@ + e =~= prev + (", "@ + e));
        lemma_csv_run_append(st, ", "@, e);
        // the separator: the comma closes the previous element, the space opens the next
        let st_comma = csv_step(st, ',');
        let prev_e = elements[k - 2];
        if k - 1 == 1 && needs_braces(elements[0]) {
            lemma_trim_empty();
            assert(st_comma.elements == st.elements);
        } else {
            let cur = st.current;
            if k - 1 == 1 {
                assert(cur == prev_e);
                assert(!needs_braces(prev_e));
                assert(trim(cur) == prev_e);
            } else {
                lemma_trim_space_prefix(prev_e);
                assert(trim(cur) == prev_e);
            }
            assert(st_comma.elements =~= elements.take(k - 1));
        }
        assert(st_comma.elements == elements.take(k - 1));
        assert(st_comma.current == Seq::<char>::empty());
        let st_space = csv_step(st_comma, ' ');
        let sep = ", "@;
        assert(sep =~= seq![',', ' ']);
        assert(sep[0] == ',');
        assert(sep.drop_first() =~= seq![' ']);
        assert(sep.drop_first()[0] == ' ');
        assert(sep.drop_first().drop_first() =~= Seq::<char>::empty());
        assert(csv_run(st_space, Seq::<char>::empty()) == st_space);
        assert(csv_run(st_comma, sep.drop_first()) == csv_run(st_space, sep.drop_first().drop_first()));
        assert(csv_run(st, sep) == csv_run(st_comma, sep.drop_first()));
        assert(csv_run(st, ", "@) == st_space);
        assert(st_space.current =~= seq![' ']);
        lemma_csv_run_plain(st_space, e);
    }
}

/// Reading back what `format_csv_elements` writes gives the same elements,
/// for a non-empty list whose elements hold no brace and whose elements after
/// the first need no braces.
pub proof fn law_csv_round_trip(elements: Seq<Seq<char>>)
    requires
        elements.len() > 0,
        forall|i: int| 0 <= i < elements.len() ==> !(#[trigger] elements[i]).contains('{'),
        forall|i: int| 0 <= i < elements.len() ==> !(#[trigger] elements[i]).contains('}'),
        forall|i: int| 1 <= i < elements.len() ==> !needs_braces(#[trigger] elements[i]),
    ensures
        csv_parse(csv_format(elements)) == Ok::<Seq<Seq<char>>, Seq<char>>(elements),
{
    let n = elements.len() as int;
    let f = csv_fields(elements);
    assert(f.take(n) =~= f);
    lemma_csv_round_prefix(elements, n);
    lemma_csv_scan_run(csv_format(elements));
    let st = csv_round_state(elements, n);
    if n == 1 && needs_braces(elements[0]) {
        lemma_trim_empty();
        assert(seq![elements[0]] =~= elements);
    } else if n == 1 {
        assert(trim(elements[0]) == elements[0]);
        assert(Seq::<Seq<char>>::empty().push(elements[0]) =~= elements);
    } else {
        lemma_trim_space_prefix(elements[n - 1]);
        assert(elements.take(n - 1).push(elements[n - 1]) =~= elements);
    }
}

/// Every character of `s` is a comma or white space.
pub open spec fn commas_and_white(s: Seq<char>) -> bool {
    forall|i: int| #![trigger s[i]] 0 <= i < s.len() ==> s[i] == ',' || is_white(s[i])
}

proof fn lemma_trim_all_white(s: Seq<char>)
    requires
        forall|i: int| 0 <= i < s.len() ==> is_white(#[trigger] s[i]),
    ensures
        trim(s).len() == 0,
    decreases s.len(),
{
    if s.len() > 0 {
        let t = s.drop_first();
        assert forall|i: int| 0 <= i < t.len() implies is_white(#[trigger] t[i]) by {
            assert(t[i] == s[i + 1]);
        }
        lemma_trim_all_white(t);
        assert(trim_start(s) == trim_start(t));
    }
}

/// Reading only commas and white space finds no element and leaves only
/// white space in the element being read.
proof fn lemma_csv_scan_blank(s: Seq<char>)
    requires
        commas_and_white(s),
    ensures
        csv_scan(s).elements.len() == 0,
        !csv_scan(s).in_escape,
        forall|i: int| 0 <= i < csv_scan(s).current.len() ==> is_white(#[trigger] csv_scan(s).current[i]),
    decreases s.len(),
{
    if s.len() > 0 {
        let d = s.drop_last();
        assert forall|i: int| 0 <= i < d.len() implies d[i] == ',' || is_white(#[trigger] d[i]) by {
            assert(d[i] == s[i]);
        }
        lemma_csv_scan_blank(d);
        let st = csv_scan(d);
        let c = s.last();
        assert(c == s[s.len() - 1]);
        if c == ',' {
            lemma_trim_all_white(st.current);
        } else {
            assert(is_white(c));
            let cur = st.current.push(c);
            assert forall|i: int| 0 <= i < cur.len() implies is_white(#[trigger] cur[i]) by {
                if i < st.current.len() {
                    assert(cur[i] == st.current[i]);
                }
            }
        }
    }
}

/// A list read from text always has an element; text made only of commas
/// and white space is the empty list.
pub proof fn law_csv_blank_is_empty_list(input: Seq<char>)
    ensures
        csv_parse(input) matches Ok(v) ==> v.len() >= 1,
        commas_and_white(input) ==> csv_parse(input) == Err::<Seq<Seq<char>>, Seq<char>>(
            "Lista vazia"@,
        ),
{
    if commas_and_white(input) {
        lemma_csv_scan_blank(input);
        lemma_trim_all_white(csv_scan(input).current);
    }
}

/// The parts of `parts`, each trimmed, without the ones that are then empty.
pub open spec fn nonblank_trimmed(parts: Seq<Seq<char>>) -> Seq<Seq<char>>
    decreases parts.len(),
{
    if parts.len() == 0 {
        seq![]
    } else {
        let t = trim(parts[0]);
        let rest = nonblank_trimmed(parts.drop_first());
        if t.len() > 0 {
            seq![t] + rest
        } else {
            rest
        }
    }
}

/// The elements that the scanner state `st` stands for once the text ends.
spec fn csv_final(st: CsvScan) -> Seq<Seq<char>> {
    let t = trim(st.current);
    if t.len() > 0 {
        st.elements.push(t)
    } else {
        st.elements
    }
}

proof fn lemma_first_at_is(x: Seq<char>, c: char, k: int)
    requires
        0 <= k < x.len(),
        x[k] == c,
        forall|j: int| 0 <= j < k ==> x[j] != c,
    ensures
        first_at(x, c) == Some(k as nat),
{
    lemma_first_at(x, c);
    if first_at(x, c) is Some {
        let m = first_at(x, c)->0;
        if m < k {
            assert(x[m as int] == c);
        }
    }
}

proof fn lemma_nonblank_cons(a: Seq<char>, rest: Seq<Seq<char>>)
    ensures
        nonblank_trimmed(seq![a] + rest) == (if trim(a).len() > 0 {
            seq![trim(a)]
        } else {
            Seq::<Seq<char>>::empty()
        }) + nonblank_trimmed(rest),
{
    let p = seq![a] + rest;
    assert(p[0] == a);
    assert(p.drop_first() =~= rest);
    if trim(a).len() == 0 {
        assert(Seq::<Seq<char>>::empty() + nonblank_trimmed(rest) =~= nonblank_trimmed(rest));
    }
}

/// Outside braces, scanning text without `{` splits it at commas, trims each
/// part and keeps the parts that are not empty.
proof fn lemma_csv_run_split(st: CsvScan, s: Seq<char>)
    requires
        !st.in_escape,
        !s.contains('{'),
        !st.current.contains(','),
    ensures
        !csv_run(st, s).in_escape,
        csv_final(csv_run(st, s)) == st.elements + nonblank_trimmed(split_on(st.current + s, ',')),
    decreases s.len(),
{
    let cur = st.current;
    if s.len() == 0 {
        assert(cur + s =~= cur);
        lemma_first_at(cur, ',');
        if first_at(cur, ',') is Some {
            let k = first_at(cur, ',')->0;
            assert(cur[k as int] == ',');
            assert(cur.contains(','));
        }
        assert(split_on(cur, ',') == seq![cur]);
        lemma_nonblank_cons(cur, seq![]);
        assert(seq![cur] + Seq::<Seq<char>>::empty() =~= seq![cur]);
        assert(nonblank_trimmed(Seq::<Seq<char>>::empty()) == Seq::<Seq<char>>::empty());
        if trim(cur).len() > 0 {
            assert(st.elements.push(trim(cur)) =~= st.elements + (seq![trim(cur)]
                + Seq::<Seq<char>>::empty()));
        } else {
            assert(st.elements =~= st.elements + (Seq::<Seq<char>>::empty()
                + Seq::<Seq<char>>::empty()));
        }
    } else {
        let c = s[0];
        let t = s.drop_first();
        assert(s.contains(c));
        assert(!t.contains('{')) by {
            if t.contains('{') {
                let k = choose|k: int| 0 <= k < t.len() && t[k] == '{';
                assert(s[k + 1] == '{');
            }
        }
        let st1 = csv_step(st, c);
        assert(csv_run(st, s) == csv_run(st1, t));
        if c == ',' {
            let x = cur + s;
            assert forall|j: int| 0 <= j < cur.len() implies x[j] != ',' by {
                assert(x[j] == cur[j]);
                if cur[j] == ',' {
                    assert(cur.contains(','));
                }
            }
            assert(x[cur.len() as int] == ',');
            lemma_first_at_is(x, ',', cur.len() as int);
            assert(x.take(cur.len() as int) =~= cur);
            assert(x.skip(cur.len() as int + 1) =~= t);
            assert(split_on(x, ',') == seq![cur] + split_on(t, ','));
            assert(!st1.current.contains(','));
            lemma_csv_run_split(st1, t);
            assert(st1.current + t =~= t);
            lemma_nonblank_cons(cur, split_on(t, ','));
            if trim(cur).len() > 0 {
                assert(st.elements.push(trim(cur)) + nonblank_trimmed(split_on(t, ',')) =~= st.elements
                    + (seq![trim(cur)] + nonblank_trimmed(split_on(t, ','))));
            } else {
                assert(Seq::<Seq<char>>::empty() + nonblank_trimmed(split_on(t, ','))
                    =~= nonblank_trimmed(split_on(t, ',')));
            }
        } else {
            assert(c != '{');
            assert(st1 == (CsvScan { current: cur.push(c), ..st }));
            assert(!cur.push(c).contains(',')) by {
                if cur.push(c).contains(',') {
                    let k = choose|k: int| 0 <= k < cur.push(c).len() && cur.push(c)[k] == ',';
                    if k < cur.len() {
                        assert(cur[k] == ',');
                        assert(cur.contains(','));
                    }
                }
            }
            lemma_csv_run_split(st1, t);
            assert(cur.push(c) + t =~= cur + s);
        }
    }
}

/// Text without `{` reads as `str::split` at commas would give it, each
/// part trimmed and the empty parts dropped; with no part left it is the
/// empty list.
pub proof fn law_csv_plain_split(input: Seq<char>)
    requires
        !input.contains('{'),
    ensures
        csv_parse(input) == (if nonblank_trimmed(split_on(input, ',')).len() == 0 {
            Err::<Seq<Seq<char>>, Seq<char>>("Lista vazia"@)
        } else {
            Ok(nonblank_trimmed(split_on(input, ',')))
        }),
{
    lemma_csv_scan_run(input);
    let st = csv_start();
    assert(!st.current.contains(','));
    lemma_csv_run_split(st, input);
    assert(st.current + input =~= input);
    assert(st.elements + nonblank_trimmed(split_on(input, ',')) =~= nonblank_trimmed(
        split_on(input, ','),
    ));
}

// ---------------------------------------------------------------------------
// The older, prefix-based reading of confirmed actions

/// What the prefix-based dispatcher does with a confirmed action text.
pub enum LegacyDispatch {
    RemoveDevice(u128),
    RemoveRestriction(u128),
    RemoveDomain(u128),
    RemoveStatic(u128),
    /// A domain and the frozen record to delete.
    DeleteFrozen(u128, u128),
    /// A device and the folder to remove.
    RemoveFolder(u128, String),
    Nothing,
}

pub ghost enum LegacyView {
    RemoveDevice(u128),
    RemoveRestriction(u128),
    RemoveDomain(u128),
    RemoveStatic(u128),
    DeleteFrozen(u128, u128),
    RemoveFolder(u128, Seq<char>),
    Nothing,
}

impl LegacyDispatch {
    pub open spec fn view(&self) -> LegacyView {
        match self {
            LegacyDispatch::RemoveDevice(u) => LegacyView::RemoveDevice(*u),
            LegacyDispatch::RemoveRestriction(u) => LegacyView::RemoveRestriction(*u),
            LegacyDispatch::RemoveDomain(u) => LegacyView::RemoveDomain(*u),
            LegacyDispatch::RemoveStatic(u) => LegacyView::RemoveStatic(*u),
            LegacyDispatch::DeleteFrozen(a, b) => LegacyView::DeleteFrozen(*a, *b),
            LegacyDispatch::RemoveFolder(u, f) => LegacyView::RemoveFolder(*u, f@),
            LegacyDispatch::Nothing => LegacyView::Nothing,
        }
    }
}

pub open spec fn starts_with(s: Seq<char>, p: Seq<char>) -> bool {
    p.len() <= s.len() && s.take(p.len() as int) == p
}

/// One identifier after the prefix `p` (taken off as often as it repeats).
pub open spec fn legacy_one(s: Seq<char>, p: Seq<char>, f: spec_fn(u128) -> LegacyView) -> LegacyView {
    match uuid_parse(strip_leading(s, p)) {
        Some(u) => f(u),
        None => LegacyView::Nothing,
    }
}

/// What the prefix-based dispatcher does with `s`: the first prefix that `s`
/// starts with picks the action; its arguments follow the prefix.
pub open spec fn legacy_dispatch_spec(s: Seq<char>) -> LegacyView {
    if starts_with(s, "remove-device:"@) {
        legacy_one(s, "remove-device:"@, |u: u128| LegacyView::RemoveDevice(u))
    } else if starts_with(s, "remove-restriction:"@) {
        legacy_one(s, "remove-restriction:"@, |u: u128| LegacyView::RemoveRestriction(u))
    } else if starts_with(s, "remove-domain:"@) {
        legacy_one(s, "remove-domain:"@, |u: u128| LegacyView::RemoveDomain(u))
    } else if starts_with(s, "remove-static:"@) {
        legacy_one(s, "remove-static:"@, |u: u128| LegacyView::RemoveStatic(u))
    } else if starts_with(s, "delete-frozen:"@) {
        let r = strip_leading(s, "delete-frozen:"@);
        match tail(r) {
            Some(b) => if colon_at(b) is None {
                match (uuid_parse(head(r)), uuid_parse(b)) {
                    (Some(x), Some(y)) => LegacyView::DeleteFrozen(x, y),
                    _ => LegacyView::Nothing,
                }
            } else {
                LegacyView::Nothing
            },
            None => LegacyView::Nothing,
        }
    } else if starts_with(s, "remove-folder:"@) {
        let r = strip_leading(s, "remove-folder:"@);
        match tail(r) {
            Some(b) => match uuid_parse(head(r)) {
                Some(x) => LegacyView::RemoveFolder(x, b),
                None => LegacyView::Nothing,
            },
            None => LegacyView::Nothing,
        }
    } else {
        LegacyView::Nothing
    }
}

fn uuid_after(v: &Vec<char>, p: &str) -> (r: Option<u128>)
    ensures
        r == uuid_parse(strip_leading(v@, p@)),
{
    let pv = chars_of(p);
    let rest = strip_leading_chars(v, &pv);
    let rs = string_from_chars(&rest);
    parse_uuid(rs.as_str())
}

/// Reads a confirmed action by its prefix: `remove-device:`,
/// `remove-restriction:`, `remove-domain:` and `remove-static:` take one
/// identifier; `delete-frozen:` takes exactly two, separated by `:`;
/// `remove-folder:` takes an identifier, `:` and the folder name.
pub fn dispatch_confirm_action(action: &str) -> (r: LegacyDispatch)
    ensures
        r.view() == legacy_dispatch_spec(action@),
{
    let v = chars_of(action);
    if chars_start_with(&v, &chars_of("remove-device:")) {
        match uuid_after(&v, "remove-device:") {
            Some(u) => LegacyDispatch::RemoveDevice(u),
            None => LegacyDispatch::Nothing,
        }
    } else if chars_start_with(&v, &chars_of("remove-restriction:")) {
        match uuid_after(&v, "remove-restriction:") {
            Some(u) => LegacyDispatch::RemoveRestriction(u),
            None => LegacyDispatch::Nothing,
        }
    } else if chars_start_with(&v, &chars_of("remove-domain:")) {
        match uuid_after(&v, "remove-domain:") {
            Some(u) => LegacyDispatch::RemoveDomain(u),
            None => LegacyDispatch::Nothing,
        }
    } else if chars_start_with(&v, &chars_of("remove-static:")) {
        match uuid_after(&v, "remove-static:") {
            Some(u) => LegacyDispatch::RemoveStatic(u),
            None => LegacyDispatch::Nothing,
        }
    } else if chars_start_with(&v, &chars_of("delete-frozen:")) {
        let rest = strip_leading_chars(&v, &chars_of("delete-frozen:"));
        let (a, b) = split_at_colon(&rest);
        match b {
            Some(bv) => {
                let (_c, more) = split_at_colon(&bv);
                if more.is_some() {
                    LegacyDispatch::Nothing
                } else {
                    let x = parse_uuid(string_from_chars(&a).as_str());
                    let y = parse_uuid(string_from_chars(&bv).as_str());
                    match (x, y) {
                        (Some(x), Some(y)) => LegacyDispatch::DeleteFrozen(x, y),
                        _ => LegacyDispatch::Nothing,
                    }
                }
            },
            None => LegacyDispatch::Nothing,
        }
    } else if chars_start_with(&v, &chars_of("remove-folder:")) {
        let rest = strip_leading_chars(&v, &chars_of("remove-folder:"));
        let (a, b) = split_at_colon(&rest);
        match b {
            Some(bv) => match parse_uuid(string_from_chars(&a).as_str()) {
                Some(x) => LegacyDispatch::RemoveFolder(x, string_from_chars(&bv)),
                None => LegacyDispatch::Nothing,
            },
            None => LegacyDispatch::Nothing,
        }
    } else {
        LegacyDispatch::Nothing
    }
}

} // verus!
