//! The command line: which mode or technical command the arguments ask for,
//! and how a named argument's value is found and read.

use vstd::prelude::*;
use crate::text::{views, trim, trim_chars, chars_of, str_eq, chars_start_with, string_from_chars, push_str, sub_chars};
use crate::number::{
    parse_uint, parse_uint_chars, u32_max, u128_max, dec, push_dec, lemma_parse_bounded, IntErrorKind,
};
use crate::ids::{uuid_parse, parse_uuid};
use crate::helpers::starts_with;

verus! {

// ---------------------------------------------------------------------------
// Finding arguments

/// The first index of `x` in `s`.
pub open spec fn first_index(s: Seq<Seq<char>>, x: Seq<char>) -> Option<nat>
    decreases s.len(),
{
    if s.len() == 0 {
        None
    } else if s[0] == x {
        Some(0)
    } else {
        match first_index(s.drop_first(), x) {
            Some(k) => Some(k + 1),
            None => None,
        }
    }
}

proof fn lemma_first_index(s: Seq<Seq<char>>, x: Seq<char>, k: int)
    requires
        0 <= k <= s.len(),
        forall|j: int| 0 <= j < k ==> s[j] != x,
        k < s.len() ==> s[k] == x,
    ensures
        first_index(s, x) == (if k < s.len() {
            Some(k as nat)
        } else {
            None
        }),
    decreases k,
{
    if k > 0 {
        assert forall|j: int| 0 <= j < k - 1 implies s.drop_first()[j] != x by {
            assert(s.drop_first()[j] == s[j + 1]);
        }
        if k < s.len() {
            assert(s.drop_first()[k - 1] == s[k]);
        }
        lemma_first_index(s.drop_first(), x, k - 1);
    }
}

/// Where `name` first occurs among the arguments.
fn position(args: &[String], name: &str) -> (r: Option<usize>)
    ensures
        match r {
            Some(k) => k < args@.len() && first_index(views(args@), name@) == Some(k as nat),
            None => first_index(views(args@), name@) is None,
        },
{
    let mut i: usize = 0;
    while i < args.len()
        invariant
            i <= args.len(),
            forall|j: int| 0 <= j < i ==> views(args@)[j] != name@,
        decreases args.len() - i,
    {
        if str_eq(args[i].as_str(), name) {
            proof {
                lemma_first_index(views(args@), name@, i as int);
            }
            return Some(i);
        }
        i = i + 1;
    }
    proof {
        lemma_first_index(views(args@), name@, args.len() as int);
    }
    None
}

/// The first index is there exactly when the value is, and holds it.
pub proof fn lemma_first_index_contains(s: Seq<Seq<char>>, x: Seq<char>)
    ensures
        (first_index(s, x) is Some) == s.contains(x),
        first_index(s, x) matches Some(k) ==> k < s.len() && s[k as int] == x,
    decreases s.len(),
{
    if s.len() > 0 {
        lemma_first_index_contains(s.drop_first(), x);
        if s[0] != x {
            if s.contains(x) {
                let k = choose|k: int| 0 <= k < s.len() && s[k] == x;
                assert(s.drop_first()[k - 1] == x);
            }
            if s.drop_first().contains(x) {
                let k = choose|k: int| 0 <= k < s.drop_first().len() && s.drop_first()[k] == x;
                assert(s[k + 1] == x);
            }
        } else {
            assert(s[0] == x);
        }
    }
}

/// Whether `flag` is one of the arguments.
pub fn has_flag(args: &[String], flag: &str) -> (r: bool)
    ensures
        r == views(args@).contains(flag@),
{
    let r = position(args, flag);
    proof {
        lemma_first_index_contains(views(args@), flag@);
    }
    r.is_some()
}

/// The value after the first `name`: the next argument, unless there is none
/// or it is itself an option (starts with `--`).
pub open spec fn arg_value(args: Seq<Seq<char>>, name: Seq<char>) -> Option<Seq<char>> {
    match first_index(args, name) {
        Some(i) => if i + 1 < args.len() && !starts_with(args[i as int + 1], "--"@) {
            Some(args[i as int + 1])
        } else {
            None
        },
        None => None,
    }
}

/// The argument after the first `flag`, whatever it is.
pub open spec fn flag_value(args: Seq<Seq<char>>, flag: Seq<char>) -> Option<Seq<char>> {
    match first_index(args, flag) {
        Some(i) => if i + 1 < args.len() {
            Some(args[i as int + 1])
        } else {
            None
        },
        None => None,
    }
}

pub open spec fn opt_view(r: Option<String>) -> Option<Seq<char>> {
    match r {
        Some(s) => Some(s@),
        None => None,
    }
}

/// The value of option `name`.
pub fn get_arg_str(args: &[String], name: &str) -> (r: Option<String>)
    ensures
        opt_view(r) == arg_value(views(args@), name@),
{
    match position(args, name) {
        Some(i) => {
            if i < args.len() && i + 1 < args.len() {
                let v = &args[i + 1];
                let dd = chars_of("--");
                if chars_start_with(&chars_of(v.as_str()), &dd) {
                    None
                } else {
                    Some(v.clone())
                }
            } else {
                None
            }
        },
        None => None,
    }
}

/// The argument after `flag`.
pub fn get_flag_value(args: &[String], flag: &str) -> (r: Option<String>)
    ensures
        opt_view(r) == flag_value(views(args@), flag@),
{
    match position(args, flag) {
        Some(i) => {
            if i < args.len() && i + 1 < args.len() {
                Some(args[i + 1].clone())
            } else {
                None
            }
        },
        None => None,
    }
}

pub open spec fn missing_arg_msg(name: Seq<char>) -> Seq<char> {
    "Argumento obrigatório em falta: "@ + name
}

/// The value of option `name`, which must be given.
pub fn require_arg(args: &[String], name: &str) -> (r: Result<String, String>)
    ensures
        match arg_value(views(args@), name@) {
            Some(v) => r matches Ok(s) && s@ == v,
            None => r matches Err(e) && e@ == missing_arg_msg(name@),
        },
{
    match get_arg_str(args, name) {
        Some(v) => Ok(v),
        None => {
            let mut e = String::from_str("Argumento obrigatório em falta: ");
            push_str(&mut e, name);
            Err(e)
        },
    }
}

/// A value read as a `u32` by `str::parse`.
pub open spec fn as_u32(v: Seq<char>) -> Option<nat> {
    match parse_uint(v, 10, u32_max()) {
        Ok(n) => Some(n),
        Err(_) => None,
    }
}

/// The value of option `name` as a `u32`, if it is one.
pub open spec fn arg_u32(args: Seq<Seq<char>>, name: Seq<char>) -> Option<nat> {
    match arg_value(args, name) {
        Some(v) => as_u32(v),
        None => None,
    }
}

pub fn get_arg_u32(args: &[String], name: &str) -> (r: Option<u32>)
    ensures
        match r {
            Some(n) => arg_u32(views(args@), name@) == Some(n as nat),
            None => arg_u32(views(args@), name@) is None,
        },
{
    match get_arg_str(args, name) {
        Some(v) => {
            let c = chars_of(v.as_str());
            proof {
                lemma_parse_bounded(c@, 10, u32_max());
            }
            match parse_uint_chars(&c, 10, 0xffff_ffff) {
                Ok(n) => Some(n as u32),
                Err(_) => None,
            }
        },
        None => None,
    }
}

/// The value of option `name` as an identifier, if it is one.
pub fn get_arg_uuid(args: &[String], name: &str) -> (r: Option<u128>)
    ensures
        r == (match arg_value(views(args@), name@) {
            Some(v) => uuid_parse(v),
            None => None,
        }),
{
    match get_arg_str(args, name) {
        Some(v) => parse_uuid(v.as_str()),
        None => None,
    }
}

/// What `parse_u32_token` gives: the trimmed value in hexadecimal after
/// `0x` or `0X`, else in decimal.
pub open spec fn u32_token(value: Seq<char>) -> Result<nat, Seq<char>> {
    let t = trim(value);
    if starts_with(t, "0x"@) || starts_with(t, "0X"@) {
        match parse_uint(t.skip(2), 16, u32_max()) {
            Ok(n) => Ok(n),
            Err(_) => Err("Valor hexadecimal inválido: "@ + value),
        }
    } else {
        match parse_uint(t, 10, u32_max()) {
            Ok(n) => Ok(n),
            Err(_) => Err("Valor inválido: "@ + value),
        }
    }
}

pub open spec fn u32_result_view(r: Result<u32, String>) -> Result<nat, Seq<char>> {
    match r {
        Ok(n) => Ok(n as nat),
        Err(e) => Err(e@),
    }
}

/// Reads a mask or count given in decimal or, after `0x`, in hexadecimal.
pub fn parse_u32_token(value: &str) -> (r: Result<u32, String>)
    ensures
        u32_result_view(r) == u32_token(value@),
{
    let v = chars_of(value);
    let t = trim_chars(&v);
    proof {
        reveal_strlit("0x");
        reveal_strlit("0X");
    }
    let hex = t.len() >= 2 && t[0] == '0' && (t[1] == 'x' || t[1] == 'X');
    assert(hex == (starts_with(t@, "0x"@) || starts_with(t@, "0X"@))) by {
        if t@.len() >= 2 {
            assert(t@.take(2)[0] == t@[0] && t@.take(2)[1] == t@[1]);
            if hex {
                if t@[1] == 'x' {
                    assert(t@.take(2) =~= "0x"@);
                } else {
                    assert(t@.take(2) =~= "0X"@);
                }
            }
        }
    }
    if hex {
        let digits = sub_chars(&t, 2, t.len());
        assert(digits@ =~= t@.skip(2));
        proof {
            lemma_parse_bounded(digits@, 16, u32_max());
        }
        match parse_uint_chars(&digits, 16, 0xffff_ffff) {
            Ok(n) => Ok(n as u32),
            Err(_) => {
                let mut e = String::from_str("Valor hexadecimal inválido: ");
                push_str(&mut e, value);
                Err(e)
            },
        }
    } else {
        proof {
            lemma_parse_bounded(t@, 10, u32_max());
        }
        match parse_uint_chars(&t, 10, 0xffff_ffff) {
            Ok(n) => Ok(n as u32),
            Err(_) => {
                let mut e = String::from_str("Valor inválido: ");
                push_str(&mut e, value);
                Err(e)
            },
        }
    }
}

/// The value of option `name` read by `parse_u32_token`, if the option is
/// given.
pub fn get_mask_u32(args: &[String], name: &str) -> (r: Result<Option<u32>, String>)
    ensures
        match arg_value(views(args@), name@) {
            Some(v) => match u32_token(v) {
                Ok(n) => r matches Ok(Some(k)) && k as nat == n,
                Err(e) => r matches Err(m) && m@ == e,
            },
            None => r == Ok::<Option<u32>, String>(None),
        },
{
    match get_arg_str(args, name) {
        Some(value) => {
            let p = parse_u32_token(value.as_str());
            match p {
                Ok(n) => Ok(Some(n)),
                Err(e) => Err(e),
            }
        },
        None => Ok(None),
    }
}

/// The smallest Argon2id costs that the command line accepts.
pub open spec fn argon2_floor(v: nat, floor: nat) -> nat {
    if v < floor {
        floor
    } else {
        v
    }
}

/// The Argon2id costs `(m, t, p)`: each option's value (else the default),
/// raised to at least 65536 KiB, 3 and 4.
pub fn get_argon2_params(args: &[String], defaults: Option<(u32, u32, u32)>) -> (r: (u32, u32, u32))
    ensures
        ({
            let (dm, dt, dp) = match defaults {
                Some(d) => d,
                None => (65536u32, 3u32, 4u32),
            };
            let a = views(args@);
            &&& r.0 == argon2_floor(
                match arg_u32(a, "--m-cost"@) {
                    Some(n) => n,
                    None => dm as nat,
                },
                65536,
            )
            &&& r.1 == argon2_floor(
                match arg_u32(a, "--t-cost"@) {
                    Some(n) => n,
                    None => dt as nat,
                },
                3,
            )
            &&& r.2 == argon2_floor(
                match arg_u32(a, "--p-cost"@) {
                    Some(n) => n,
                    None => dp as nat,
                },
                4,
            )
        }),
{
    let (dm, dt, dp) = match defaults {
        Some(d) => d,
        None => (65536u32, 3u32, 4u32),
    };
    let m0 = match get_arg_u32(args, "--m-cost") {
        Some(n) => n,
        None => dm,
    };
    let t0 = match get_arg_u32(args, "--t-cost") {
        Some(n) => n,
        None => dt,
    };
    let p0 = match get_arg_u32(args, "--p-cost") {
        Some(n) => n,
        None => dp,
    };
    let m = if m0 < 65536 {
        65536
    } else {
        m0
    };
    let t = if t0 < 3 {
        3
    } else {
        t0
    };
    let p = if p0 < 4 {
        4
    } else {
        p0
    };
    (m, t, p)
}

/// The first of `flags` that is given, its value read as a `u128`.
pub open spec fn alias_u128(args: Seq<Seq<char>>, flags: Seq<Seq<char>>) -> Result<Option<nat>, Seq<char>>
    decreases flags.len(),
{
    if flags.len() == 0 {
        Ok(None)
    } else {
        match flag_value(args, flags[0]) {
            Some(v) => match parse_uint(v, 10, u128_max()) {
                Ok(n) => Ok(Some(n)),
                Err(_) => Err("O valor de "@ + flags[0] + " deve ser um inteiro."@),
            },
            None => alias_u128(args, flags.drop_first()),
        }
    }
}

pub open spec fn str_views(s: Seq<&str>) -> Seq<Seq<char>> {
    s.map_values(|x: &str| x@)
}

/// The value of the first of several equivalent flags that is given.
pub fn get_u128_optional_alias(args: &[String], flags: &[&str]) -> (r: Result<Option<u128>, String>)
    ensures
        match alias_u128(views(args@), str_views(flags@)) {
            Ok(Some(n)) => r == Ok::<Option<u128>, String>(Some(n as u128)),
            Ok(None) => r == Ok::<Option<u128>, String>(None),
            Err(e) => r matches Err(m) && m@ == e,
        },
{
    let mut i: usize = 0;
    assert(str_views(flags@).skip(0) =~= str_views(flags@));
    while i < flags.len()
        invariant
            i <= flags.len(),
            alias_u128(views(args@), str_views(flags@)) == alias_u128(
                views(args@),
                str_views(flags@).skip(i as int),
            ),
        decreases flags.len() - i,
    {
        let flag = flags[i];
        assert(str_views(flags@).skip(i as int)[0] == flag@);
        assert(str_views(flags@).skip(i as int).drop_first() =~= str_views(flags@).skip(i + 1));
        match get_flag_value(args, flag) {
            Some(val) => {
                let c = chars_of(val.as_str());
                proof {
                    lemma_parse_bounded(c@, 10, u128_max());
                }
                match parse_uint_chars(&c, 10, u128::MAX) {
                    Ok(n) => {
                        return Ok(Some(n));
                    },
                    Err(_) => {
                        let mut e = String::from_str("O valor de ");
                        push_str(&mut e, flag);
                        push_str(&mut e, " deve ser um inteiro.");
                        return Err(e);
                    },
                }
            },
            None => {},
        }
        i = i + 1;
    }
    Ok(None)
}

// ---------------------------------------------------------------------------
// Modes and commands

/// A technical command of the command line.
#[derive(PartialEq, Eq, Structural, Clone, Copy, Debug)]
pub enum CliCommand {
    Calibrate,
    DeriveKey,
    DeriveKekSession,
    Kmac,
    Hmac,
    Encrypt,
    Decrypt,
    Generate,
    GenerateStatic,
    Hkdf,
}

/// The command that option `s` names.
pub open spec fn command_named(s: Seq<char>) -> Option<CliCommand> {
    if s == "--calibrate"@ {
        Some(CliCommand::Calibrate)
    } else if s == "--derive-key"@ {
        Some(CliCommand::DeriveKey)
    } else if s == "--derive-kek-session"@ {
        Some(CliCommand::DeriveKekSession)
    } else if s == "--kmac"@ {
        Some(CliCommand::Kmac)
    } else if s == "--hmac"@ {
        Some(CliCommand::Hmac)
    } else if s == "--encrypt"@ {
        Some(CliCommand::Encrypt)
    } else if s == "--decrypt"@ {
        Some(CliCommand::Decrypt)
    } else if s == "--generate"@ {
        Some(CliCommand::Generate)
    } else if s == "--generate-static"@ {
        Some(CliCommand::GenerateStatic)
    } else if s == "--hkdf"@ {
        Some(CliCommand::Hkdf)
    } else {
        None
    }
}

/// The flags that choose a mode rather than a command.
pub open spec fn is_control_flag(a: Seq<char>) -> bool {
    a == "--cli"@ || a == "--gui"@ || a == "--help"@ || a == "--pause"@
}

/// An option that names a command (known or not).
pub open spec fn is_command_arg(a: Seq<char>) -> bool {
    starts_with(a, "--"@) && !is_control_flag(a)
}

/// The first argument after the program name that names a command.
pub fn get_command(args: &[String]) -> (r: Option<String>)
    ensures
        r is None <==> forall|j: int| 1 <= j < args@.len() ==> !is_command_arg(#[trigger] views(args@)[j]),
        r matches Some(c) ==> exists|k: int|
            1 <= k < args@.len() && is_command_arg(#[trigger] views(args@)[k]) && c@ == views(args@)[k]
                && forall|j: int| 1 <= j < k ==> !is_command_arg(#[trigger] views(args@)[j]),
{
    let dd = chars_of("--");
    let mut i: usize = 1;
    while i < args.len()
        invariant
            1 <= i,
            i <= args.len() || args.len() == 0,
            dd@ == "--"@,
            forall|j: int| 1 <= j < i && j < args@.len() ==> !is_command_arg(#[trigger] views(args@)[j]),
        decreases args.len() - i,
    {
        let a = args[i].as_str();
        assert(views(args@)[i as int] == a@);
        let is_cmd = chars_start_with(&chars_of(a), &dd) && !(str_eq(a, "--cli") || str_eq(a, "--gui")
            || str_eq(a, "--help") || str_eq(a, "--pause"));
        if is_cmd {
            return Some(args[i].clone());
        }
        i = i + 1;
    }
    None
}

/// What the program does with its arguments.
pub enum Route {
    /// Print the help.
    Help,
    /// The interactive console.
    Cli,
    /// The graphical interface.
    Gui,
    /// A technical command.
    Command(CliCommand),
    /// Options but no command: nothing to do.
    NoCommand,
    /// An option that names no known command.
    Unrecognized,
}

pub ghost enum RouteView {
    Help,
    Cli,
    Gui,
    Command(CliCommand),
    NoCommand,
    Unrecognized,
}

impl Route {
    pub open spec fn view(&self) -> RouteView {
        match self {
            Route::Help => RouteView::Help,
            Route::Cli => RouteView::Cli,
            Route::Gui => RouteView::Gui,
            Route::Command(c) => RouteView::Command(*c),
            Route::NoCommand => RouteView::NoCommand,
            Route::Unrecognized => RouteView::Unrecognized,
        }
    }
}

/// The first command argument, if any.
pub open spec fn first_command(a: Seq<Seq<char>>) -> Option<Seq<char>> {
    if exists|k: int| 1 <= k < a.len() && is_command_arg(#[trigger] a[k]) {
        let k = choose|k: int|
            1 <= k < a.len() && is_command_arg(#[trigger] a[k]) && forall|j: int|
                1 <= j < k ==> !is_command_arg(#[trigger] a[j]);
        Some(a[k])
    } else {
        None
    }
}

/// The route for arguments `a` (the program name first): help wins, then the
/// console, then the graphical interface (also when there are no arguments),
/// then the first command.
pub open spec fn route_spec(a: Seq<Seq<char>>) -> RouteView {
    if a.contains("--help"@) {
        RouteView::Help
    } else if a.contains("--cli"@) {
        RouteView::Cli
    } else if a.contains("--gui"@) || a.len() <= 1 {
        RouteView::Gui
    } else {
        match first_command(a) {
            Some(c) => match command_named(c) {
                Some(k) => RouteView::Command(k),
                None => RouteView::Unrecognized,
            },
            None => RouteView::NoCommand,
        }
    }
}

/// A run of commands: the first index at which `p` holds is unique.
proof fn lemma_first_command_unique(a: Seq<Seq<char>>, k: int)
    requires
        1 <= k < a.len(),
        is_command_arg(a[k]),
        forall|j: int| 1 <= j < k ==> !is_command_arg(#[trigger] a[j]),
    ensures
        first_command(a) == Some(a[k]),
{
    let m = choose|m: int|
        1 <= m < a.len() && is_command_arg(#[trigger] a[m]) && forall|j: int|
            1 <= j < m ==> !is_command_arg(#[trigger] a[j]);
    if m < k {
        assert(!is_command_arg(a[m]));
    }
    if k < m {
        assert(!is_command_arg(a[k]));
    }
}

/// The option that runs command `c`.
pub open spec fn command_option(c: CliCommand) -> Seq<char> {
    match c {
        CliCommand::Calibrate => "--calibrate"@,
        CliCommand::DeriveKey => "--derive-key"@,
        CliCommand::DeriveKekSession => "--derive-kek-session"@,
        CliCommand::Kmac => "--kmac"@,
        CliCommand::Hmac => "--hmac"@,
        CliCommand::Encrypt => "--encrypt"@,
        CliCommand::Decrypt => "--decrypt"@,
        CliCommand::Generate => "--generate"@,
        CliCommand::GenerateStatic => "--generate-static"@,
        CliCommand::Hkdf => "--hkdf"@,
    }
}

proof fn lemma_option_literals()
    ensures
        "--calibrate"@ == seq!['-', '-', 'c', 'a', 'l', 'i', 'b', 'r', 'a', 't', 'e'],
        "--derive-key"@ == seq!['-', '-', 'd', 'e', 'r', 'i', 'v', 'e', '-', 'k', 'e', 'y'],
        "--derive-kek-session"@ == seq![
            '-', '-', 'd', 'e', 'r', 'i', 'v', 'e', '-', 'k', 'e', 'k', '-', 's', 'e', 's', 's', 'i', 'o', 'n',
        ],
        "--kmac"@ == seq!['-', '-', 'k', 'm', 'a', 'c'],
        "--hmac"@ == seq!['-', '-', 'h', 'm', 'a', 'c'],
        "--encrypt"@ == seq!['-', '-', 'e', 'n', 'c', 'r', 'y', 'p', 't'],
        "--decrypt"@ == seq!['-', '-', 'd', 'e', 'c', 'r', 'y', 'p', 't'],
        "--generate"@ == seq!['-', '-', 'g', 'e', 'n', 'e', 'r', 'a', 't', 'e'],
        "--generate-static"@ == seq![
            '-', '-', 'g', 'e', 'n', 'e', 'r', 'a', 't', 'e', '-', 's', 't', 'a', 't', 'i', 'c',
        ],
        "--hkdf"@ == seq!['-', '-', 'h', 'k', 'd', 'f'],
{
    reveal_strlit("--calibrate");
    reveal_strlit("--derive-key");
    reveal_strlit("--derive-kek-session");
    reveal_strlit("--kmac");
    reveal_strlit("--hmac");
    reveal_strlit("--encrypt");
    reveal_strlit("--decrypt");
    reveal_strlit("--generate");
    reveal_strlit("--generate-static");
    reveal_strlit("--hkdf");
}

/// Each command option names the command of the same name, and no other
/// text names that command: reading options and writing them are inverse.
pub proof fn law_command_names(c: CliCommand, s: Seq<char>)
    ensures
        command_named(command_option(c)) == Some(c),
        command_named(s) == Some(c) ==> s == command_option(c),
{
    lemma_option_literals();
    let o = command_option(c);
    assert(o.len() > 2 && o[0] == '-');
    if o != "--calibrate"@ {
        assert(o.len() != 11 || o[2] != 'c');
    }
    if o != "--derive-key"@ {
        assert(o.len() != 12 || o[3] != 'e' || o[2] != 'd');
    }
    if o != "--derive-kek-session"@ {
        assert(o.len() != 20);
    }
    if o != "--kmac"@ {
        assert(o.len() != 6 || o[2] != 'k');
    }
    if o != "--hmac"@ {
        assert(o.len() != 6 || o[2] != 'h' || o[3] != 'm');
    }
    if o != "--encrypt"@ {
        assert(o.len() != 9 || o[2] != 'e');
    }
    if o != "--decrypt"@ {
        assert(o.len() != 9 || o[2] != 'd');
    }
    if o != "--generate"@ {
        assert(o.len() != 10 || o[2] != 'g');
    }
    if o != "--generate-static"@ {
        assert(o.len() != 17);
    }
}

/// With no help, console or interface flag, arguments whose first option
/// is the option of command `c` run `c`.
pub proof fn law_route_runs_named_command(a: Seq<Seq<char>>, c: CliCommand)
    requires
        a.len() >= 2,
        a[1] == command_option(c),
        !a.contains("--help"@),
        !a.contains("--cli"@),
        !a.contains("--gui"@),
    ensures
        route_spec(a) == RouteView::Command(c),
{
    law_command_names(c, a[1]);
    lemma_option_literals();
    reveal_strlit("--");
    reveal_strlit("--cli");
    reveal_strlit("--gui");
    reveal_strlit("--help");
    reveal_strlit("--pause");
    let o = a[1];
    assert(o.take(2) =~= "--"@);
    assert(starts_with(o, "--"@));
    assert(o != "--cli"@ && o != "--gui"@ && o != "--help"@ && o != "--pause"@) by {
        assert(o.len() >= 6);
        if o.len() == 6 {
            assert(o[2] != 'h' || o[3] != 'e');
        }
    }
    assert(is_command_arg(o));
    lemma_first_command_unique(a, 1);
}

fn command_of(c: &str) -> (r: Option<CliCommand>)
    ensures
        r == command_named(c@),
{
    if str_eq(c, "--calibrate") {
        Some(CliCommand::Calibrate)
    } else if str_eq(c, "--derive-key") {
        Some(CliCommand::DeriveKey)
    } else if str_eq(c, "--derive-kek-session") {
        Some(CliCommand::DeriveKekSession)
    } else if str_eq(c, "--kmac") {
        Some(CliCommand::Kmac)
    } else if str_eq(c, "--hmac") {
        Some(CliCommand::Hmac)
    } else if str_eq(c, "--encrypt") {
        Some(CliCommand::Encrypt)
    } else if str_eq(c, "--decrypt") {
        Some(CliCommand::Decrypt)
    } else if str_eq(c, "--generate") {
        Some(CliCommand::Generate)
    } else if str_eq(c, "--generate-static") {
        Some(CliCommand::GenerateStatic)
    } else if str_eq(c, "--hkdf") {
        Some(CliCommand::Hkdf)
    } else {
        None
    }
}

/// Decides what the program does with its arguments.
pub fn route(args: &[String]) -> (r: Route)
    ensures
        r.view() == route_spec(views(args@)),
{
    if has_flag(args, "--help") {
        Route::Help
    } else if has_flag(args, "--cli") {
        Route::Cli
    } else if has_flag(args, "--gui") || args.len() <= 1 {
        Route::Gui
    } else {
        let c = get_command(args);
        match c {
            Some(c) => {
                proof {
                    let a = views(args@);
                    let k = choose|k: int|
                        1 <= k < args@.len() && is_command_arg(#[trigger] a[k]) && c@ == a[k] && forall|j: int|
                            1 <= j < k ==> !is_command_arg(#[trigger] a[j]);
                    lemma_first_command_unique(a, k);
                }
                match command_of(c.as_str()) {
                    Some(k) => Route::Command(k),
                    None => Route::Unrecognized,
                }
            },
            None => Route::NoCommand,
        }
    }
}

} // verus!
