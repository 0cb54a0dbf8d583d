//! The confirmation protocol: an action waiting for the user's confirmation
//! is kept as text, `tag` or `tag:arguments`, and read back when the user
//! confirms. The tag is what comes before the first `:`.

use vstd::prelude::*;
use crate::ids::{uuid_text, uuid_parse, parse_uuid, uuid_string, lemma_uuid_text};
use crate::number::{
    parse_uint, parse_uint_chars, usize_max, dec, push_dec, lemma_parse_dec, lemma_parse_bounded,
    lemma_dec_digits, IntErrorKind,
};
use crate::text::{chars_of, chars_eq, string_from_chars, push_str, trim, trim_chars, sub_chars};

verus! {

// ---------------------------------------------------------------------------
// Splitting at the first colon

/// Where the first `:` of `s` is, if there is one.
pub open spec fn colon_at(s: Seq<char>) -> Option<nat>
    decreases s.len(),
{
    if s.len() == 0 {
        None
    } else if s[0] == ':' {
        Some(0)
    } else {
        match colon_at(s.drop_first()) {
            Some(k) => Some(k + 1),
            None => None,
        }
    }
}

/// What comes before the first `:` (all of `s` when it has none).
pub open spec fn head(s: Seq<char>) -> Seq<char> {
    match colon_at(s) {
        Some(k) => s.take(k as int),
        None => s,
    }
}

/// What comes after the first `:`, if there is one.
pub open spec fn tail(s: Seq<char>) -> Option<Seq<char>> {
    match colon_at(s) {
        Some(k) => Some(s.skip(k as int + 1)),
        None => None,
    }
}

proof fn lemma_colon_at(s: Seq<char>, k: int)
    requires
        0 <= k <= s.len(),
        forall|j: int| 0 <= j < k ==> s[j] != ':',
        k < s.len() ==> s[k] == ':',
    ensures
        colon_at(s) == (if k < s.len() {
            Some(k as nat)
        } else {
            None
        }),
    decreases k,
{
    if k > 0 {
        assert forall|j: int| 0 <= j < k - 1 implies s.drop_first()[j] != ':' by {
            assert(s.drop_first()[j] == s[j + 1]);
        }
        if k < s.len() {
            assert(s.drop_first()[k - 1] == s[k]);
        }
        lemma_colon_at(s.drop_first(), k - 1);
    }
}

/// Text without a colon, then a colon, then anything: the first colon is the
/// one after the text.
pub proof fn lemma_split_join(t: Seq<char>, r: Seq<char>)
    requires
        forall|j: int| 0 <= j < t.len() ==> t[j] != ':',
    ensures
        head(t + ":"@ + r) == t,
        tail(t + ":"@ + r) == Some(r),
        head(t) == t,
        tail(t) is None,
{
    reveal_strlit(":");
    let s = t + ":"@ + r;
    assert forall|j: int| 0 <= j < t.len() implies s[j] != ':' by {
        assert(s[j] == t[j]);
    }
    assert(s[t.len() as int] == ':');
    lemma_colon_at(s, t.len() as int);
    lemma_colon_at(t, t.len() as int);
    assert(s.take(t.len() as int) =~= t);
    assert(s.skip(t.len() as int + 1) =~= r);
}

/// `v` split at its first colon.
pub(crate) fn split_at_colon(v: &Vec<char>) -> (r: (Vec<char>, Option<Vec<char>>))
    ensures
        r.0@ == head(v@),
        match r.1 {
            Some(t) => tail(v@) == Some(t@),
            None => tail(v@) is None,
        },
{
    let mut i: usize = 0;
    while i < v.len() && v[i] != ':'
        invariant
            i <= v.len(),
            forall|j: int| 0 <= j < i ==> v@[j] != ':',
        decreases v.len() - i,
    {
        i = i + 1;
    }
    proof {
        lemma_colon_at(v@, i as int);
    }
    if i < v.len() {
        let a = sub_chars(v, 0, i);
        let b = sub_chars(v, i + 1, v.len());
        assert(a@ =~= v@.take(i as int));
        assert(b@ =~= v@.skip(i + 1));
        (a, Some(b))
    } else {
        let a = sub_chars(v, 0, v.len());
        assert(a@ =~= v@);
        (a, None)
    }
}

// ---------------------------------------------------------------------------
// Actions

/// An action that waits for the user's confirmation.
pub enum ConfirmAction {
    RemoveDevice(u128),
    RemoveRestriction(u128),
    ClearSequence(u128),
    /// A restriction and the index of the position to remove.
    RemovePosition(u128, usize),
    /// A restriction and the character list to remove.
    RemoveCharList(u128, u128),
    RemoveDomain(u128),
    /// A domain and the frozen record to delete.
    DeleteFrozen(u128, u128),
    RemoveStatic(u128),
    /// The folder to remove is kept aside, not in the text.
    RemoveFolder,
    RegenerateSalt,
    RotateKeys,
    DeleteLocalState,
    DeleteSessionFile,
    UseLastSessionPath(String),
}

pub ghost enum ConfirmView {
    RemoveDevice(u128),
    RemoveRestriction(u128),
    ClearSequence(u128),
    RemovePosition(u128, nat),
    RemoveCharList(u128, u128),
    RemoveDomain(u128),
    DeleteFrozen(u128, u128),
    RemoveStatic(u128),
    RemoveFolder,
    RegenerateSalt,
    RotateKeys,
    DeleteLocalState,
    DeleteSessionFile,
    UseLastSessionPath(Seq<char>),
}

impl ConfirmAction {
    pub open spec fn view(&self) -> ConfirmView {
        match self {
            ConfirmAction::RemoveDevice(u) => ConfirmView::RemoveDevice(*u),
            ConfirmAction::RemoveRestriction(u) => ConfirmView::RemoveRestriction(*u),
            ConfirmAction::ClearSequence(u) => ConfirmView::ClearSequence(*u),
            ConfirmAction::RemovePosition(u, i) => ConfirmView::RemovePosition(*u, *i as nat),
            ConfirmAction::RemoveCharList(a, b) => ConfirmView::RemoveCharList(*a, *b),
            ConfirmAction::RemoveDomain(u) => ConfirmView::RemoveDomain(*u),
            ConfirmAction::DeleteFrozen(a, b) => ConfirmView::DeleteFrozen(*a, *b),
            ConfirmAction::RemoveStatic(u) => ConfirmView::RemoveStatic(*u),
            ConfirmAction::RemoveFolder => ConfirmView::RemoveFolder,
            ConfirmAction::RegenerateSalt => ConfirmView::RegenerateSalt,
            ConfirmAction::RotateKeys => ConfirmView::RotateKeys,
            ConfirmAction::DeleteLocalState => ConfirmView::DeleteLocalState,
            ConfirmAction::DeleteSessionFile => ConfirmView::DeleteSessionFile,
            ConfirmAction::UseLastSessionPath(p) => ConfirmView::UseLastSessionPath(p@),
        }
    }
}

/// The tag of an action.
pub open spec fn action_tag(a: ConfirmView) -> Seq<char> {
    match a {
        ConfirmView::RemoveDevice(_) => "remove-device"@,
        ConfirmView::RemoveRestriction(_) => "remove-restriction"@,
        ConfirmView::ClearSequence(_) => "clear-sequence"@,
        ConfirmView::RemovePosition(_, _) => "remove-position"@,
        ConfirmView::RemoveCharList(_, _) => "remove-charlist"@,
        ConfirmView::RemoveDomain(_) => "remove-domain"@,
        ConfirmView::DeleteFrozen(_, _) => "delete-frozen"@,
        ConfirmView::RemoveStatic(_) => "remove-static"@,
        ConfirmView::RemoveFolder => "remove-folder"@,
        ConfirmView::RegenerateSalt => "regenerate-salt"@,
        ConfirmView::RotateKeys => "rotate-keys"@,
        ConfirmView::DeleteLocalState => "delete-local-state"@,
        ConfirmView::DeleteSessionFile => "delete-session-file"@,
        ConfirmView::UseLastSessionPath(_) => "use-last-session-path"@,
    }
}

/// The arguments of an action, after its tag and a colon.
pub open spec fn action_args(a: ConfirmView) -> Option<Seq<char>> {
    match a {
        ConfirmView::RemoveDevice(u) => Some(uuid_text(u)),
        ConfirmView::RemoveRestriction(u) => Some(uuid_text(u)),
        ConfirmView::ClearSequence(u) => Some(uuid_text(u)),
        ConfirmView::RemovePosition(u, i) => Some(uuid_text(u) + ":"@ + dec(i)),
        ConfirmView::RemoveCharList(x, y) => Some(uuid_text(x) + ":"@ + uuid_text(y)),
        ConfirmView::RemoveDomain(u) => Some(uuid_text(u)),
        ConfirmView::DeleteFrozen(x, y) => Some(uuid_text(x) + ":"@ + uuid_text(y)),
        ConfirmView::RemoveStatic(u) => Some(uuid_text(u)),
        ConfirmView::UseLastSessionPath(p) => Some(p),
        _ => None,
    }
}

/// The text of an action.
pub open spec fn action_text(a: ConfirmView) -> Seq<char> {
    match action_args(a) {
        Some(r) => action_tag(a) + ":"@ + r,
        None => action_tag(a),
    }
}

/// The text that waits for confirmation of `a`.
pub fn action_string(a: &ConfirmAction) -> (r: String)
    ensures
        r@ == action_text(a.view()),
{
    let mut s = String::new();
    match a {
        ConfirmAction::RemoveDevice(u) => {
            push_str(&mut s, "remove-device");
            push_str(&mut s, ":");
            push_str(&mut s, uuid_string(*u).as_str());
        },
        ConfirmAction::RemoveRestriction(u) => {
            push_str(&mut s, "remove-restriction");
            push_str(&mut s, ":");
            push_str(&mut s, uuid_string(*u).as_str());
        },
        ConfirmAction::ClearSequence(u) => {
            push_str(&mut s, "clear-sequence");
            push_str(&mut s, ":");
            push_str(&mut s, uuid_string(*u).as_str());
        },
        ConfirmAction::RemovePosition(u, i) => {
            push_str(&mut s, "remove-position");
            push_str(&mut s, ":");
            push_str(&mut s, uuid_string(*u).as_str());
            push_str(&mut s, ":");
            push_dec(&mut s, *i as u128);
        },
        ConfirmAction::RemoveCharList(x, y) => {
            push_str(&mut s, "remove-charlist");
            push_str(&mut s, ":");
            push_str(&mut s, uuid_string(*x).as_str());
            push_str(&mut s, ":");
            push_str(&mut s, uuid_string(*y).as_str());
        },
        ConfirmAction::RemoveDomain(u) => {
            push_str(&mut s, "remove-domain");
            push_str(&mut s, ":");
            push_str(&mut s, uuid_string(*u).as_str());
        },
        ConfirmAction::DeleteFrozen(x, y) => {
            push_str(&mut s, "delete-frozen");
            push_str(&mut s, ":");
            push_str(&mut s, uuid_string(*x).as_str());
            push_str(&mut s, ":");
            push_str(&mut s, uuid_string(*y).as_str());
        },
        ConfirmAction::RemoveStatic(u) => {
            push_str(&mut s, "remove-static");
            push_str(&mut s, ":");
            push_str(&mut s, uuid_string(*u).as_str());
        },
        ConfirmAction::RemoveFolder => {
            push_str(&mut s, "remove-folder");
        },
        ConfirmAction::RegenerateSalt => {
            push_str(&mut s, "regenerate-salt");
        },
        ConfirmAction::RotateKeys => {
            push_str(&mut s, "rotate-keys");
        },
        ConfirmAction::DeleteLocalState => {
            push_str(&mut s, "delete-local-state");
        },
        ConfirmAction::DeleteSessionFile => {
            push_str(&mut s, "delete-session-file");
        },
        ConfirmAction::UseLastSessionPath(p) => {
            push_str(&mut s, "use-last-session-path");
            push_str(&mut s, ":");
            push_str(&mut s, p.as_str());
        },
    }
    assert(s@ =~= action_text(a.view()));
    s
}

/// The text asking to remove position `index` (as the user interface gives
/// it, possibly negative) of restriction `u`.
pub fn remove_position_request(u: u128, index: i32) -> (r: String)
    ensures
        index >= 0 ==> r@ == action_text(ConfirmView::RemovePosition(u, index as nat)),
        index < 0 ==> r@ == "remove-position"@ + ":"@ + uuid_text(u) + ":"@ + "-"@ + dec((-index) as nat),
{
    let mut s = String::new();
    push_str(&mut s, "remove-position");
    push_str(&mut s, ":");
    push_str(&mut s, uuid_string(u).as_str());
    push_str(&mut s, ":");
    if index < 0 {
        push_str(&mut s, "-");
        let m: i64 = -(index as i64);
        push_dec(&mut s, m as u128);
    } else {
        push_dec(&mut s, index as u128);
    }
    s
}

// ---------------------------------------------------------------------------
// Reading an action back

/// What confirming an action text does.
pub enum ConfirmDispatch {
    /// Carry out the action.
    Run(ConfirmAction),
    /// A known tag whose arguments do not read: nothing happens.
    Ignored,
    /// An unknown tag: the user is told so.
    Unknown,
}

pub ghost enum DispatchView {
    Run(ConfirmView),
    Ignored,
    Unknown,
}

impl ConfirmDispatch {
    pub open spec fn view(&self) -> DispatchView {
        match self {
            ConfirmDispatch::Run(a) => DispatchView::Run(a.view()),
            ConfirmDispatch::Ignored => DispatchView::Ignored,
            ConfirmDispatch::Unknown => DispatchView::Unknown,
        }
    }
}

/// An action with one identifier argument.
pub open spec fn on_uuid(rest: Option<Seq<char>>, f: spec_fn(u128) -> ConfirmView) -> DispatchView {
    match rest {
        Some(r) => match uuid_parse(r) {
            Some(u) => DispatchView::Run(f(u)),
            None => DispatchView::Ignored,
        },
        None => DispatchView::Ignored,
    }
}

/// An action with two identifier arguments.
pub open spec fn on_two_uuids(rest: Option<Seq<char>>, f: spec_fn(u128, u128) -> ConfirmView) -> DispatchView {
    match rest {
        Some(r) => match tail(r) {
            Some(b) => match (uuid_parse(head(r)), uuid_parse(b)) {
                (Some(x), Some(y)) => DispatchView::Run(f(x, y)),
                _ => DispatchView::Ignored,
            },
            None => DispatchView::Ignored,
        },
        None => DispatchView::Ignored,
    }
}

/// Removing a position: an identifier and a decimal index.
pub open spec fn on_position(rest: Option<Seq<char>>) -> DispatchView {
    match rest {
        Some(r) => match tail(r) {
            Some(b) => match (uuid_parse(head(r)), parse_uint(b, 10, usize_max())) {
                (Some(x), Ok(i)) => DispatchView::Run(ConfirmView::RemovePosition(x, i)),
                _ => DispatchView::Ignored,
            },
            None => DispatchView::Ignored,
        },
        None => DispatchView::Ignored,
    }
}

/// What the tag `tag` with arguments `rest` asks for.
pub open spec fn dispatch_by_tag(tag: Seq<char>, rest: Option<Seq<char>>) -> DispatchView {
    if tag == "remove-device"@ {
        on_uuid(rest, |u: u128| ConfirmView::RemoveDevice(u))
    } else if tag == "remove-restriction"@ {
        on_uuid(rest, |u: u128| ConfirmView::RemoveRestriction(u))
    } else if tag == "clear-sequence"@ {
        on_uuid(rest, |u: u128| ConfirmView::ClearSequence(u))
    } else if tag == "remove-position"@ {
        on_position(rest)
    } else if tag == "remove-charlist"@ {
        on_two_uuids(rest, |x: u128, y: u128| ConfirmView::RemoveCharList(x, y))
    } else if tag == "remove-domain"@ {
        on_uuid(rest, |u: u128| ConfirmView::RemoveDomain(u))
    } else if tag == "delete-frozen"@ {
        on_two_uuids(rest, |x: u128, y: u128| ConfirmView::DeleteFrozen(x, y))
    } else if tag == "remove-static"@ {
        on_uuid(rest, |u: u128| ConfirmView::RemoveStatic(u))
    } else if tag == "remove-folder"@ {
        DispatchView::Run(ConfirmView::RemoveFolder)
    } else if tag == "regenerate-salt"@ {
        DispatchView::Run(ConfirmView::RegenerateSalt)
    } else if tag == "rotate-keys"@ {
        DispatchView::Run(ConfirmView::RotateKeys)
    } else if tag == "delete-local-state"@ {
        DispatchView::Run(ConfirmView::DeleteLocalState)
    } else if tag == "delete-session-file"@ {
        DispatchView::Run(ConfirmView::DeleteSessionFile)
    } else if tag == "use-last-session-path"@ {
        match rest {
            Some(p) => if trim(p).len() > 0 {
                DispatchView::Run(ConfirmView::UseLastSessionPath(p))
            } else {
                DispatchView::Ignored
            },
            None => DispatchView::Ignored,
        }
    } else {
        DispatchView::Unknown
    }
}

/// What confirming the action text `s` does.
pub open spec fn dispatch_spec(s: Seq<char>) -> DispatchView {
    dispatch_by_tag(head(s), tail(s))
}

/// An action whose text reads back as itself: a path to use must hold more
/// than white space, and a position index must fit in `usize`.
pub open spec fn sendable(a: ConfirmView) -> bool {
    &&& a matches ConfirmView::UseLastSessionPath(p) ==> trim(p).len() > 0
    &&& a matches ConfirmView::RemovePosition(_, i) ==> i <= usize_max()
}

proof fn lemma_tags()
    ensures
        "remove-device"@.len() == 13 && "remove-device"@[9] == 'v',
        "remove-restriction"@.len() == 18 && "remove-restriction"@[9] == 's',
        "clear-sequence"@.len() == 14,
        "remove-position"@.len() == 15 && "remove-position"@[9] == 's',
        "remove-charlist"@.len() == 15 && "remove-charlist"@[9] == 'a',
        "remove-domain"@.len() == 13 && "remove-domain"@[9] == 'm',
        "delete-frozen"@.len() == 13 && "delete-frozen"@[9] == 'o',
        "remove-static"@.len() == 13 && "remove-static"@[9] == 'a',
        "remove-folder"@.len() == 13 && "remove-folder"@[9] == 'l',
        "regenerate-salt"@.len() == 15 && "regenerate-salt"@[9] == 'e',
        "rotate-keys"@.len() == 11,
        "delete-local-state"@.len() == 18 && "delete-local-state"@[9] == 'c',
        "delete-session-file"@.len() == 19,
        "use-last-session-path"@.len() == 21,
{
    reveal_strlit("remove-device");
    reveal_strlit("remove-restriction");
    reveal_strlit("clear-sequence");
    reveal_strlit("remove-position");
    reveal_strlit("remove-charlist");
    reveal_strlit("remove-domain");
    reveal_strlit("delete-frozen");
    reveal_strlit("remove-static");
    reveal_strlit("remove-folder");
    reveal_strlit("regenerate-salt");
    reveal_strlit("rotate-keys");
    reveal_strlit("delete-local-state");
    reveal_strlit("delete-session-file");
    reveal_strlit("use-last-session-path");
}

/// No tag holds a colon.
proof fn lemma_tag_no_colon(a: ConfirmView)
    ensures
        forall|j: int| 0 <= j < action_tag(a).len() ==> action_tag(a)[j] != ':',
{
    reveal_strlit("remove-device");
    reveal_strlit("remove-restriction");
    reveal_strlit("clear-sequence");
    reveal_strlit("remove-position");
    reveal_strlit("remove-charlist");
    reveal_strlit("remove-domain");
    reveal_strlit("delete-frozen");
    reveal_strlit("remove-static");
    reveal_strlit("remove-folder");
    reveal_strlit("regenerate-salt");
    reveal_strlit("rotate-keys");
    reveal_strlit("delete-local-state");
    reveal_strlit("delete-session-file");
    reveal_strlit("use-last-session-path");
}

/// The text of an action splits into its tag and its arguments; two
/// arguments split at the colon between them.
proof fn lemma_text_split(a: ConfirmView)
    ensures
        head(action_text(a)) == action_tag(a),
        tail(action_text(a)) == action_args(a),
        a matches ConfirmView::RemovePosition(u, i) ==> (head(uuid_text(u) + ":"@ + dec(i)) == uuid_text(u)
            && tail(uuid_text(u) + ":"@ + dec(i)) == Some(dec(i))),
        a matches ConfirmView::RemoveCharList(x, y) ==> (head(uuid_text(x) + ":"@ + uuid_text(y))
            == uuid_text(x) && tail(uuid_text(x) + ":"@ + uuid_text(y)) == Some(uuid_text(y))),
        a matches ConfirmView::DeleteFrozen(x, y) ==> (head(uuid_text(x) + ":"@ + uuid_text(y))
            == uuid_text(x) && tail(uuid_text(x) + ":"@ + uuid_text(y)) == Some(uuid_text(y))),
{
    lemma_tag_no_colon(a);
    match action_args(a) {
        Some(r) => lemma_split_join(action_tag(a), r),
        None => lemma_split_join(action_tag(a), seq![]),
    }
    match a {
        ConfirmView::RemovePosition(u, i) => {
            lemma_uuid_text(u);
            lemma_split_join(uuid_text(u), dec(i));
        },
        ConfirmView::RemoveCharList(x, y) => {
            lemma_uuid_text(x);
            lemma_split_join(uuid_text(x), uuid_text(y));
        },
        ConfirmView::DeleteFrozen(x, y) => {
            lemma_uuid_text(x);
            lemma_split_join(uuid_text(x), uuid_text(y));
        },
        _ => {},
    }
}

/// Reads the action text `action` back: the tag before the first `:` picks
/// the action, and its arguments must read (identifiers, a decimal index, a
/// path with more than white space); else nothing happens. An unknown tag is
/// reported. The text of any action (with a usable path) reads back as that
/// action.
pub fn dispatch_confirm_action(action: &str) -> (r: ConfirmDispatch)
    ensures
        r.view() == dispatch_spec(action@),
        forall|a: ConfirmView| action@ == action_text(a) && sendable(a) ==> r.view() == DispatchView::Run(a),
{
    let v = chars_of(action);
    let (tag, rest) = split_at_colon(&v);
    // The arguments, read every way an action may read them.
    let mut one: Option<u128> = None;
    let mut first: Option<u128> = None;
    let mut second: Option<u128> = None;
    let mut index: Option<usize> = None;
    let mut two = false;
    let mut path_ok = false;
    match &rest {
        Some(r) => {
            let rs = string_from_chars(r);
            one = parse_uuid(rs.as_str());
            let t = trim_chars(r);
            path_ok = t.len() > 0;
            let (x, y) = split_at_colon(r);
            match &y {
                Some(yv) => {
                    two = true;
                    let xs = string_from_chars(&x);
                    let ys = string_from_chars(yv);
                    first = parse_uuid(xs.as_str());
                    second = parse_uuid(ys.as_str());
                    proof {
                        lemma_parse_bounded(yv@, 10, usize_max());
                    }
                    index = match parse_uint_chars(yv, 10, usize::MAX as u128) {
                        Ok(n) => Some(n as usize),
                        Err(_) => None,
                    };
                },
                None => {},
            }
        },
        None => {},
    }
    proof {
        lemma_tags();
    }
    let ghost rv: Option<Seq<char>> = match &rest {
        Some(r) => Some(r@),
        None => None,
    };
    assert(rv == tail(v@));
    let r = if chars_eq(&tag, &chars_of("remove-device")) {
        match one {
            Some(u) => ConfirmDispatch::Run(ConfirmAction::RemoveDevice(u)),
            None => ConfirmDispatch::Ignored,
        }
    } else if chars_eq(&tag, &chars_of("remove-restriction")) {
        match one {
            Some(u) => ConfirmDispatch::Run(ConfirmAction::RemoveRestriction(u)),
            None => ConfirmDispatch::Ignored,
        }
    } else if chars_eq(&tag, &chars_of("clear-sequence")) {
        match one {
            Some(u) => ConfirmDispatch::Run(ConfirmAction::ClearSequence(u)),
            None => ConfirmDispatch::Ignored,
        }
    } else if chars_eq(&tag, &chars_of("remove-position")) {
        match (first, index) {
            (Some(u), Some(i)) => ConfirmDispatch::Run(ConfirmAction::RemovePosition(u, i)),
            _ => ConfirmDispatch::Ignored,
        }
    } else if chars_eq(&tag, &chars_of("remove-charlist")) {
        match (first, second) {
            (Some(x), Some(y)) => ConfirmDispatch::Run(ConfirmAction::RemoveCharList(x, y)),
            _ => ConfirmDispatch::Ignored,
        }
    } else if chars_eq(&tag, &chars_of("remove-domain")) {
        match one {
            Some(u) => ConfirmDispatch::Run(ConfirmAction::RemoveDomain(u)),
            None => ConfirmDispatch::Ignored,
        }
    } else if chars_eq(&tag, &chars_of("delete-frozen")) {
        match (first, second) {
            (Some(x), Some(y)) => ConfirmDispatch::Run(ConfirmAction::DeleteFrozen(x, y)),
            _ => ConfirmDispatch::Ignored,
        }
    } else if chars_eq(&tag, &chars_of("remove-static")) {
        match one {
            Some(u) => ConfirmDispatch::Run(ConfirmAction::RemoveStatic(u)),
            None => ConfirmDispatch::Ignored,
        }
    } else if chars_eq(&tag, &chars_of("remove-folder")) {
        ConfirmDispatch::Run(ConfirmAction::RemoveFolder)
    } else if chars_eq(&tag, &chars_of("regenerate-salt")) {
        ConfirmDispatch::Run(ConfirmAction::RegenerateSalt)
    } else if chars_eq(&tag, &chars_of("rotate-keys")) {
        ConfirmDispatch::Run(ConfirmAction::RotateKeys)
    } else if chars_eq(&tag, &chars_of("delete-local-state")) {
        ConfirmDispatch::Run(ConfirmAction::DeleteLocalState)
    } else if chars_eq(&tag, &chars_of("delete-session-file")) {
        ConfirmDispatch::Run(ConfirmAction::DeleteSessionFile)
    } else if chars_eq(&tag, &chars_of("use-last-session-path")) {
        match &rest {
            Some(p) => if path_ok {
                ConfirmDispatch::Run(ConfirmAction::UseLastSessionPath(string_from_chars(p)))
            } else {
                ConfirmDispatch::Ignored
            },
            None => ConfirmDispatch::Ignored,
        }
    } else {
        ConfirmDispatch::Unknown
    };
    proof {
        assert forall|a: ConfirmView| action@ == action_text(a) && sendable(a) implies r.view()
            == DispatchView::Run(a) by {
            lemma_text_split(a);
            match a {
                ConfirmView::RemovePosition(u, i) => {
                    lemma_parse_dec(i, usize_max());
                },
                _ => {},
            }
        }
    }
    r
}

/// A confirmed action with a negative position index does nothing.
pub proof fn law_negative_position_ignored(u: u128, k: nat)
    requires
        k > 0,
    ensures
        dispatch_spec("remove-position"@ + ":"@ + uuid_text(u) + ":"@ + "-"@ + dec(k))
            == DispatchView::Ignored,
{
    reveal_strlit("-");
    lemma_tags();
    lemma_dec_digits(k);
    lemma_tag_no_colon(ConfirmView::RemovePosition(u, 0));
    assert(action_tag(ConfirmView::RemovePosition(u, 0)) == "remove-position"@);
    lemma_uuid_text(u);
    let b = "-"@ + dec(k);
    let args = uuid_text(u) + ":"@ + b;
    assert("remove-position"@ + ":"@ + uuid_text(u) + ":"@ + "-"@ + dec(k) =~= "remove-position"@ + ":"@
        + args);
    lemma_split_join("remove-position"@, args);
    lemma_split_join(uuid_text(u), b);
    assert(b[0] == '-' && b.len() > 1);
    assert(parse_uint(b, 10, usize_max()) is Err);
}

/// What the user is told of an unknown action.
pub fn unknown_action_message(action: &str) -> (r: String)
    ensures
        r@ == "Acção de confirmação desconhecida: "@ + action@,
{
    let mut s = String::from_str("Acção de confirmação desconhecida: ");
    push_str(&mut s, action);
    s
}

} // verus!
