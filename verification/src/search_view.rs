//! The global search: which of the matching domains and static passwords
//! are listed (the ten best scores, ties in the order found, domains
//! first), how each is shown, and where picking one leads.

use vstd::prelude::*;
use crate::text::{trim, trim_chars, chars_of, push_str, str_eq};
use crate::ids::{uuid_text, uuid_string, uuid_parse, parse_uuid};

verus! {

// ---------------------------------------------------------------------------
// Ranking

/// Entry `a` comes before entry `b`: a lower score, or the same score and
/// found earlier.
pub open spec fn ranks_before(scores: Seq<u32>, a: int, b: int) -> bool {
    scores[a] < scores[b] || (scores[a] == scores[b] && a < b)
}

/// `sel` lists, best first, the entries that a list of at most `limit`
/// shows: all of them in rank order when they fit, else the `limit` that
/// rank first.
pub open spec fn is_top_ranking(scores: Seq<u32>, sel: Seq<usize>, limit: nat) -> bool {
    &&& sel.len() <= limit
    &&& forall|i: int| 0 <= i < sel.len() ==> #[trigger] sel[i] < scores.len()
    &&& forall|i: int, j: int| 0 <= i < j < sel.len() ==> ranks_before(scores, #[trigger] sel[i] as int, #[trigger] sel[j] as int)
    &&& sel.len() < limit ==> forall|k: usize| k < scores.len() ==> #[trigger] sel.contains(k)
    &&& forall|k: usize, i: int|
        #![trigger sel.contains(k), sel[i]]
        k < scores.len() && !sel.contains(k) && 0 <= i < sel.len() ==> ranks_before(scores, sel[i] as int, k as int)
}

/// An entry still to be ranked after those in `sel`: every entry ranked
/// so far comes before it.
pub open spec fn is_candidate(scores: Seq<u32>, sel: Seq<usize>, j: int) -> bool {
    sel.len() == 0 || ranks_before(scores, sel.last() as int, j)
}

proof fn lemma_top_agree(scores: Seq<u32>, a: Seq<usize>, b: Seq<usize>, limit: nat, i: int)
    requires
        is_top_ranking(scores, a, limit),
        is_top_ranking(scores, b, limit),
        0 <= i <= a.len(),
        i <= b.len(),
    ensures
        forall|j: int| 0 <= j < i ==> a[j] == b[j],
    decreases i,
{
    if i > 0 {
        lemma_top_agree(scores, a, b, limit, i - 1);
        let k = i - 1;
        let x = a[k];
        let y = b[k];
        if x != y {
            if ranks_before(scores, x as int, y as int) {
                if b.contains(x) {
                    let j = choose|j: int| 0 <= j < b.len() && b[j] == x;
                    if j < k {
                        assert(a[j] == b[j]);
                        assert(ranks_before(scores, a[j] as int, a[k] as int));
                    } else {
                        assert(ranks_before(scores, b[k] as int, b[j] as int));
                    }
                } else {
                    assert(ranks_before(scores, b[k] as int, x as int));
                }
            } else {
                if a.contains(y) {
                    let j = choose|j: int| 0 <= j < a.len() && a[j] == y;
                    if j < k {
                        assert(a[j] == b[j]);
                        assert(ranks_before(scores, b[j] as int, b[k] as int));
                    } else {
                        assert(ranks_before(scores, a[k] as int, a[j] as int));
                    }
                } else {
                    assert(ranks_before(scores, a[k] as int, y as int));
                }
            }
        }
    }
}

/// The ranking is determined: two lists that both show the best `limit`
/// entries of the same scores are the same list.
pub proof fn law_top_ranking_unique(scores: Seq<u32>, a: Seq<usize>, b: Seq<usize>, limit: nat)
    requires
        is_top_ranking(scores, a, limit),
        is_top_ranking(scores, b, limit),
    ensures
        a == b,
{
    if a.len() <= b.len() {
        lemma_top_agree(scores, a, b, limit, a.len() as int);
        if a.len() < b.len() {
            let x = b[a.len() as int];
            assert(a.contains(x));
            let j = choose|j: int| 0 <= j < a.len() && a[j] == x;
            assert(ranks_before(scores, b[j] as int, b[a.len() as int] as int));
        }
    } else {
        lemma_top_agree(scores, a, b, limit, b.len() as int);
        let x = a[b.len() as int];
        assert(b.contains(x));
        let j = choose|j: int| 0 <= j < b.len() && b[j] == x;
        assert(ranks_before(scores, a[j] as int, a[b.len() as int] as int));
    }
    assert(a =~= b);
}

/// The entries to show, best first: at most `limit`, by score and, on equal
/// scores, in the order given.
pub fn top_ranked(scores: &Vec<u32>, limit: usize) -> (r: Vec<usize>)
    ensures
        is_top_ranking(scores@, r@, limit as nat),
{
    let n = scores.len();
    let mut sel: Vec<usize> = Vec::new();
    loop
        invariant
            n == scores.len(),
            sel.len() <= limit,
            forall|i: int| 0 <= i < sel.len() ==> #[trigger] sel@[i] < n,
            forall|i: int, j: int|
                0 <= i < j < sel.len() ==> ranks_before(scores@, #[trigger] sel@[i] as int, #[trigger] sel@[j] as int),
            forall|k: usize|
                k < n && !(#[trigger] sel@.contains(k)) ==> (sel.len() > 0 ==> ranks_before(
                    scores@,
                    sel@.last() as int,
                    k as int,
                )),
        ensures
            sel.len() < limit ==> forall|k: usize| k < n ==> #[trigger] sel@.contains(k),
            forall|k: usize, i: int|
                #![trigger sel@.contains(k), sel@[i]]
                k < n && !sel@.contains(k) && 0 <= i < sel.len() ==> ranks_before(scores@, sel@[i] as int, k as int),
        decreases limit - sel.len(),
    {
        if sel.len() >= limit {
            proof {
                assert forall|k: usize, i: int| k < n && !sel@.contains(k) && 0 <= i < sel.len() implies ranks_before(
                    scores@,
                    sel@[i] as int,
                    k as int,
                ) by {
                    if i < sel.len() - 1 {
                        assert(ranks_before(scores@, sel@[i] as int, sel@[sel.len() - 1] as int));
                    }
                }
            }
            break;
        }
        let count = sel.len();
        let mut best: Option<usize> = None;
        let mut k: usize = 0;
        while k < n
            invariant
                n == scores.len(),
                count == sel.len(),
                forall|i: int| 0 <= i < sel.len() ==> #[trigger] sel@[i] < n,
                k <= n,
                match best {
                    Some(b) => b < k && is_candidate(scores@, sel@, b as int) && forall|j: int|
                        0 <= j < k && #[trigger] is_candidate(scores@, sel@, j) ==> (j == b || ranks_before(
                            scores@,
                            b as int,
                            j,
                        )),
                    None => forall|j: int| 0 <= j < k ==> !#[trigger] is_candidate(scores@, sel@, j),
                },
            decreases n - k,
        {
            let candidate = count == 0 || scores[sel[count - 1]] < scores[k] || (scores[sel[count - 1]]
                == scores[k] && sel[count - 1] < k);
            if candidate {
                match best {
                    None => {
                        best = Some(k);
                    },
                    Some(b) => {
                        if scores[k] < scores[b] {
                            best = Some(k);
                        }
                    },
                }
            }
            k = k + 1;
        }
        match best {
            None => {
                proof {
                    assert forall|k: usize| k < n implies #[trigger] sel@.contains(k) by {
                        if !sel@.contains(k) {
                            assert(!is_candidate(scores@, sel@, k as int));
                        }
                    }
                }
                break;
            },
            Some(b) => {
                let ghost old_sel = sel@;
                proof {
                    assert forall|i: int| 0 <= i < count implies ranks_before(scores@, #[trigger] old_sel[i] as int, b as int) by {
                        if i < count - 1 {
                            assert(ranks_before(scores@, old_sel[i] as int, old_sel[count - 1] as int));
                        }
                    }
                    assert(!old_sel.contains(b));
                }
                sel.push(b);
                proof {
                    assert forall|j: usize| j < n && !(#[trigger] sel@.contains(j)) implies ranks_before(
                        scores@,
                        sel@.last() as int,
                        j as int,
                    ) by {
                        assert(!old_sel.contains(j)) by {
                            if old_sel.contains(j) {
                                let w = choose|w: int| 0 <= w < old_sel.len() && old_sel[w] == j;
                                assert(sel@[w] == j);
                            }
                        }
                        assert(j != b) by {
                            assert(sel@[count as int] == b);
                        }
                        assert(is_candidate(scores@, old_sel, j as int));
                    }
                }
            },
        }
    }
    sel
}

// ---------------------------------------------------------------------------
// Results

/// The most results the search lists.
pub const MAX_RESULTS: usize = 10;

/// A domain that matches the query, with its score (lower is better).
pub struct DomainHit {
    pub score: u32,
    pub domain_uuid: u128,
    pub identifier: String,
    pub device_name: String,
    pub restriction_name: String,
}

/// A static password that matches the query, with its score.
pub struct StaticHit {
    pub score: u32,
    pub uuid: u128,
    pub label: String,
    pub folder_path: String,
    pub device_name: String,
    pub compromised: bool,
}

/// A listed result.
pub struct SearchResultItem {
    pub kind: String,
    pub uuid: String,
    pub label: String,
    pub subtitle: String,
    pub compromised: bool,
}

pub ghost struct SearchItemView {
    pub kind: Seq<char>,
    pub uuid: Seq<char>,
    pub label: Seq<char>,
    pub subtitle: Seq<char>,
    pub compromised: bool,
}

pub open spec fn item_view(r: SearchResultItem) -> SearchItemView {
    SearchItemView {
        kind: r.kind@,
        uuid: r.uuid@,
        label: r.label@,
        subtitle: r.subtitle@,
        compromised: r.compromised,
    }
}

/// A domain is listed with its device and restriction.
pub open spec fn domain_item(h: DomainHit) -> SearchItemView {
    SearchItemView {
        kind: "domain"@,
        uuid: uuid_text(h.domain_uuid),
        label: h.identifier@,
        subtitle: h.device_name@ + " › "@ + h.restriction_name@,
        compromised: false,
    }
}

/// A static password is listed with its device and folder (`(raiz)` for
/// the root).
pub open spec fn static_item(h: StaticHit) -> SearchItemView {
    SearchItemView {
        kind: "static"@,
        uuid: uuid_text(h.uuid),
        label: h.label@,
        subtitle: h.device_name@ + " > "@ + (if h.folder_path@.len() == 0 {
            "(raiz)"@
        } else {
            h.folder_path@
        }),
        compromised: h.compromised,
    }
}

/// The scores of all hits, the domains first.
pub open spec fn hit_scores(d: Seq<DomainHit>, s: Seq<StaticHit>) -> Seq<u32> {
    Seq::new(d.len() + s.len(), |i: int| if i < d.len() { d[i].score } else { s[i - d.len()].score })
}

/// Hit `i` of all hits, the domains first, as listed.
pub open spec fn hit_item(d: Seq<DomainHit>, s: Seq<StaticHit>, i: int) -> SearchItemView {
    if i < d.len() {
        domain_item(d[i])
    } else {
        static_item(s[i - d.len()])
    }
}

/// Whether the query holds nothing but white space (no search is made).
pub fn query_is_blank(query: &str) -> (r: bool)
    ensures
        r == (trim(query@).len() == 0),
{
    trim_chars(&chars_of(query)).len() == 0
}

fn domain_result(h: &DomainHit) -> (r: SearchResultItem)
    ensures
        item_view(r) == domain_item(*h),
{
    let mut subtitle = h.device_name.clone();
    push_str(&mut subtitle, " › ");
    push_str(&mut subtitle, h.restriction_name.as_str());
    SearchResultItem {
        kind: String::from_str("domain"),
        uuid: uuid_string(h.domain_uuid),
        label: h.identifier.clone(),
        subtitle,
        compromised: false,
    }
}

fn static_result(h: &StaticHit) -> (r: SearchResultItem)
    ensures
        item_view(r) == static_item(*h),
{
    let mut subtitle = h.device_name.clone();
    push_str(&mut subtitle, " > ");
    if h.folder_path.as_str().unicode_len() == 0 {
        push_str(&mut subtitle, "(raiz)");
    } else {
        push_str(&mut subtitle, h.folder_path.as_str());
    }
    SearchResultItem {
        kind: String::from_str("static"),
        uuid: uuid_string(h.uuid),
        label: h.label.clone(),
        subtitle,
        compromised: h.compromised,
    }
}

/// The results listed for the hits of a search: the best `MAX_RESULTS` by
/// score, equal scores in the order found, domains before static passwords.
pub fn search_results(domains: &Vec<DomainHit>, statics: &Vec<StaticHit>) -> (r: Vec<SearchResultItem>)
    requires
        domains.len() + statics.len() <= usize::MAX,
    ensures
        exists|sel: Seq<usize>|
            {
                &&& is_top_ranking(hit_scores(domains@, statics@), sel, MAX_RESULTS as nat)
                &&& r.len() == sel.len()
                &&& forall|i: int|
                    0 <= i < r.len() ==> item_view(#[trigger] r@[i]) == hit_item(
                        domains@,
                        statics@,
                        sel[i] as int,
                    )
            },
{
    let nd = domains.len();
    let mut scores: Vec<u32> = Vec::new();
    let mut i: usize = 0;
    while i < nd
        invariant
            nd == domains.len(),
            i <= nd,
            scores@ =~= hit_scores(domains@, statics@).take(i as int),
        decreases nd - i,
    {
        scores.push(domains[i].score);
        i = i + 1;
    }
    let ns = statics.len();
    let mut j: usize = 0;
    while j < ns
        invariant
            nd == domains.len(),
            ns == statics.len(),
            nd + ns <= usize::MAX,
            j <= ns,
            scores@ =~= hit_scores(domains@, statics@).take(nd + j),
        decreases ns - j,
    {
        scores.push(statics[j].score);
        j = j + 1;
    }
    assert(scores@ =~= hit_scores(domains@, statics@));
    let sel = top_ranked(&scores, MAX_RESULTS);
    let mut r: Vec<SearchResultItem> = Vec::new();
    let mut k: usize = 0;
    while k < sel.len()
        invariant
            nd == domains.len(),
            ns == statics.len(),
            scores@ == hit_scores(domains@, statics@),
            is_top_ranking(scores@, sel@, MAX_RESULTS as nat),
            k <= sel.len(),
            r.len() == k,
            forall|t: int| 0 <= t < k ==> item_view(#[trigger] r@[t]) == hit_item(domains@, statics@, sel@[t] as int),
        decreases sel.len() - k,
    {
        let x = sel[k];
        assert(x < scores.len());
        if x < nd {
            r.push(domain_result(&domains[x]));
        } else {
            r.push(static_result(&statics[x - nd]));
        }
        k = k + 1;
    }
    r
}

// ---------------------------------------------------------------------------
// Picking a result

/// The result picked from the list.
#[derive(PartialEq, Eq, Structural, Clone, Copy, Debug)]
pub enum SearchPick {
    Domain(u128),
    StaticPassword(u128),
}

/// What a pick names: nothing unless the identifier reads and the kind is
/// `domain` or `static`.
pub open spec fn search_pick(kind: Seq<char>, uuid: Seq<char>) -> Option<SearchPick> {
    match uuid_parse(uuid) {
        None => None,
        Some(u) => if kind == "domain"@ {
            Some(SearchPick::Domain(u))
        } else if kind == "static"@ {
            Some(SearchPick::StaticPassword(u))
        } else {
            None
        },
    }
}

pub fn parse_search_pick(kind: &str, uuid: &str) -> (r: Option<SearchPick>)
    ensures
        r == search_pick(kind@, uuid@),
{
    let u = match parse_uuid(uuid) {
        Some(u) => u,
        None => {
            return None;
        },
    };
    if str_eq(kind, "domain") {
        Some(SearchPick::Domain(u))
    } else if str_eq(kind, "static") {
        Some(SearchPick::StaticPassword(u))
    } else {
        None
    }
}

/// The page a pick opens: the domains (3) or the static passwords (2).
pub open spec fn pick_page(p: SearchPick) -> i32 {
    match p {
        SearchPick::Domain(_) => 3,
        SearchPick::StaticPassword(_) => 2,
    }
}

pub fn pick_sub_view(p: SearchPick) -> (r: i32)
    ensures
        r == pick_page(p),
{
    match p {
        SearchPick::Domain(_) => 3,
        SearchPick::StaticPassword(_) => 2,
    }
}

pub open spec fn pick_missing_text(p: SearchPick) -> Seq<char> {
    match p {
        SearchPick::Domain(_) => "Domínio não encontrado."@,
        SearchPick::StaticPassword(_) => "Senha estática não encontrada."@,
    }
}

/// What is said when the picked entry is gone.
pub fn pick_missing_message(p: SearchPick) -> (r: String)
    ensures
        r@ == pick_missing_text(p),
{
    match p {
        SearchPick::Domain(_) => String::from_str("Domínio não encontrado."),
        SearchPick::StaticPassword(_) => String::from_str("Senha estática não encontrada."),
    }
}

} // verus!
