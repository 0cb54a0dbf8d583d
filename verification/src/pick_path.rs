//! The path that the file picker of the Android build hands back: files live
//! in the app's own folder, and a save keeps the name already typed.

use vstd::prelude::*;
use crate::text::{trim, trim_chars, chars_of, sub_chars, string_from_chars, push_str, push_chars, str_eq};

verus! {

pub open spec fn is_separator(c: char) -> bool {
    c == '/' || c == '\\'
}

/// What follows the last `/` or `\` of a path (all of it when there is none).
pub open spec fn last_segment(s: Seq<char>) -> Seq<char>
    decreases s.len(),
{
    if s.len() == 0 {
        s
    } else if is_separator(s.last()) {
        seq![]
    } else {
        last_segment(s.drop_last()).push(s.last())
    }
}

/// A folder path without its trailing `/`s.
pub open spec fn without_trailing_slashes(s: Seq<char>) -> Seq<char>
    decreases s.len(),
{
    if s.len() > 0 && s.last() == '/' {
        without_trailing_slashes(s.drop_last())
    } else {
        s
    }
}

/// The name a saved session keeps: the last part of the typed path, or
/// `session.vaultseed` when that is empty.
pub open spec fn kept_file_name(current: Seq<char>) -> Seq<char> {
    if last_segment(trim(current)).len() == 0 {
        "session.vaultseed"@
    } else {
        last_segment(trim(current))
    }
}

/// The path put back in the field after the picker of kind `kind`, where
/// `app_dir` is the app's own folder (empty when unknown): a folder pick
/// gives that folder; a save gives that folder and the kept name; anything
/// else leaves the field as it was.
pub open spec fn android_pick(kind: Seq<char>, current: Seq<char>, app_dir: Seq<char>) -> Seq<char> {
    if kind == "folder"@ && app_dir.len() > 0 {
        app_dir
    } else if kind == "save-file"@ && app_dir.len() > 0 {
        without_trailing_slashes(app_dir) + "/"@ + kept_file_name(current)
    } else {
        current
    }
}

fn last_segment_start(v: &Vec<char>) -> (r: usize)
    ensures
        r <= v.len(),
        v@.subrange(r as int, v.len() as int) == last_segment(v@),
{
    let mut k: usize = v.len();
    assert(v@.subrange(k as int, k as int) =~= seq![]);
    assert(v@.subrange(0, k as int) =~= v@);
    assert(last_segment(v@) + seq![] =~= last_segment(v@));
    while k > 0 && !(v[k - 1] == '/' || v[k - 1] == '\\')
        invariant
            k <= v.len(),
            last_segment(v@) == last_segment(v@.subrange(0, k as int)) + v@.subrange(k as int, v.len() as int),
        decreases k,
    {
        let ghost pre = v@.subrange(0, k as int);
        assert(pre.drop_last() =~= v@.subrange(0, k as int - 1));
        assert(v@.subrange(k as int - 1, v.len() as int) =~= seq![v@[k as int - 1]] + v@.subrange(
            k as int,
            v.len() as int,
        ));
        assert(last_segment(pre) == last_segment(pre.drop_last()).push(pre.last()));
        assert(last_segment(pre.drop_last()).push(pre.last()) + v@.subrange(k as int, v.len() as int)
            =~= last_segment(pre.drop_last()) + v@.subrange(k as int - 1, v.len() as int));
        k = k - 1;
    }
    let ghost pre = v@.subrange(0, k as int);
    if k > 0 {
        assert(pre.last() == v@[k as int - 1]);
        assert(last_segment(pre) =~= seq![]);
    } else {
        assert(pre =~= seq![]);
    }
    assert(seq![] + v@.subrange(k as int, v.len() as int) =~= v@.subrange(k as int, v.len() as int));
    k
}

fn trailing_slash_end(v: &Vec<char>) -> (r: usize)
    ensures
        r <= v.len(),
        v@.subrange(0, r as int) == without_trailing_slashes(v@),
{
    let mut k: usize = v.len();
    assert(v@.subrange(0, k as int) =~= v@);
    while k > 0 && v[k - 1] == '/'
        invariant
            k <= v.len(),
            without_trailing_slashes(v@) == without_trailing_slashes(v@.subrange(0, k as int)),
        decreases k,
    {
        assert(v@.subrange(0, k as int).drop_last() =~= v@.subrange(0, k as int - 1));
        k = k - 1;
    }
    k
}

/// The field's new text after the Android picker of kind `kind`; the
/// caller has already launched the system picker for `open-file`.
pub fn android_picked_path(kind: &str, current: &str, app_dir: &str) -> (r: String)
    ensures
        r@ == android_pick(kind@, current@, app_dir@),
{
    let dir_empty = app_dir.unicode_len() == 0;
    if str_eq(kind, "folder") && !dir_empty {
        return String::from_str(app_dir);
    }
    if str_eq(kind, "save-file") && !dir_empty {
        let d = chars_of(app_dir);
        let end = trailing_slash_end(&d);
        let mut out = string_from_chars(&sub_chars(&d, 0, end));
        push_str(&mut out, "/");
        let t = trim_chars(&chars_of(current));
        let start = last_segment_start(&t);
        if start == t.len() {
            push_str(&mut out, "session.vaultseed");
        } else {
            push_chars(&mut out, &sub_chars(&t, start, t.len()));
        }
        return out;
    }
    String::from_str(current)
}

} // verus!
