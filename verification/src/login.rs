//! Opening a session from the login screen: what is checked before the
//! session is read, which keys and hardware factor the opening uses, and
//! how the screen answers each outcome, including a login held back until
//! the user accepts a session file without (or with a failing) HMAC.

use vstd::prelude::*;
use crate::text::{trim, trim_chars, chars_of, sub_chars, string_from_chars, push_str};
use crate::number::{dec, push_dec};
use crate::cli_inputs::{hex_ok, hex_bytes, hex_error_text, hex_decode, bytes_result_view};

verus! {

// ---------------------------------------------------------------------------
// A 32-byte value given as a file or as hexadecimal

/// The hexadecimal part of a typed value: trimmed, and without one leading
/// `0x`.
pub open spec fn without_0x(s: Seq<char>) -> Seq<char> {
    let t = trim(s);
    if t.len() >= 2 && t[0] == '0' && t[1] == 'x' {
        t.skip(2)
    } else {
        t
    }
}

pub open spec fn file_view(file: Option<Vec<u8>>) -> Option<Seq<u8>> {
    match file {
        Some(b) => Some(b@),
        None => None,
    }
}

/// A 32-byte value: the contents of the file that `input` names, where
/// there is one (`file`), else `input` read as hexadecimal.
pub open spec fn bytes32_spec(input: Seq<char>, file: Option<Seq<u8>>) -> Result<Seq<u8>, Seq<char>> {
    match file {
        Some(b) => if b.len() == 32 {
            Ok(b)
        } else {
            Err("Ficheiro tem "@ + dec(b.len()) + " bytes, esperado 32"@)
        },
        None => {
            let h = without_0x(input);
            if !hex_ok(h) {
                Err("Hex inválido: "@ + hex_error_text(h))
            } else if hex_bytes(h).len() != 32 {
                Err("Hex tem "@ + dec(hex_bytes(h).len()) + " bytes, esperado 32"@)
            } else {
                Ok(hex_bytes(h))
            }
        },
    }
}

fn without_0x_string(input: &str) -> (r: String)
    ensures
        r@ == without_0x(input@),
{
    let t = trim_chars(&chars_of(input));
    if t.len() >= 2 && t[0] == '0' && t[1] == 'x' {
        let rest = sub_chars(&t, 2, t.len());
        proof {
            assert(rest@ =~= t@.skip(2));
        }
        string_from_chars(&rest)
    } else {
        string_from_chars(&t)
    }
}

/// Reads a 32-byte value: `file` holds the contents of the file that
/// `input` names, where one could be read; otherwise `input` is taken as
/// hexadecimal.
pub fn read_32_bytes(input: &str, file: Option<Vec<u8>>) -> (r: Result<Vec<u8>, String>)
    ensures
        bytes_result_view(r) == bytes32_spec(input@, file_view(file)),
{
    match file {
        Some(b) => {
            if b.len() == 32 {
                Ok(b)
            } else {
                let mut e = String::from_str("Ficheiro tem ");
                push_dec(&mut e, b.len() as u128);
                push_str(&mut e, " bytes, esperado 32");
                Err(e)
            }
        },
        None => {
            let h = without_0x_string(input);
            match hex_decode(h.as_str()) {
                Err(msg) => {
                    let mut e = String::from_str("Hex inválido: ");
                    push_str(&mut e, msg.as_str());
                    Err(e)
                },
                Ok(b) => {
                    if b.len() != 32 {
                        let mut e = String::from_str("Hex tem ");
                        push_dec(&mut e, b.len() as u128);
                        push_str(&mut e, " bytes, esperado 32");
                        Err(e)
                    } else {
                        Ok(b)
                    }
                },
            }
        },
    }
}

/// An optional hardware factor, as typed when a session is saved: none when
/// the field is empty, else the 32-byte value it gives.
pub open spec fn optional_k_ext_spec(input: Seq<char>, file: Option<Seq<u8>>) -> Result<Option<Seq<u8>>, Seq<char>> {
    if input.len() == 0 {
        Ok(None)
    } else {
        match bytes32_spec(input, file) {
            Ok(b) => Ok(Some(b)),
            Err(e) => Err("K_ext inválido: "@ + e),
        }
    }
}

pub open spec fn opt_bytes_result_view(r: Result<Option<Vec<u8>>, String>) -> Result<Option<Seq<u8>>, Seq<char>> {
    match r {
        Ok(b) => Ok(file_view(b)),
        Err(e) => Err(e@),
    }
}

/// Reads the K_ext field of the save form; `file` holds the contents of the
/// file that it names, where one could be read.
pub fn optional_k_ext(input: &str, file: Option<Vec<u8>>) -> (r: Result<Option<Vec<u8>>, String>)
    ensures
        opt_bytes_result_view(r) == optional_k_ext_spec(input@, file_view(file)),
{
    if input.unicode_len() == 0 {
        return Ok(None);
    }
    match read_32_bytes(input, file) {
        Ok(b) => Ok(Some(b)),
        Err(e) => {
            let mut m = String::from_str("K_ext inválido: ");
            push_str(&mut m, e.as_str());
            Err(m)
        },
    }
}

// ---------------------------------------------------------------------------
// The login request

/// What the login form hands over.
pub struct LoginRequest {
    pub path: String,
    pub k1: String,
    pub k2: String,
    pub k_ext: String,
    pub xor_path_a: String,
    pub xor_path_b: String,
}

pub ghost struct LoginRequestView {
    pub path: Seq<char>,
    pub k1: Seq<char>,
    pub k2: Seq<char>,
    pub k_ext: Seq<char>,
    pub xor_path_a: Seq<char>,
    pub xor_path_b: Seq<char>,
}

impl LoginRequest {
    pub open spec fn view(&self) -> LoginRequestView {
        LoginRequestView {
            path: self.path@,
            k1: self.k1@,
            k2: self.k2@,
            k_ext: self.k_ext@,
            xor_path_a: self.xor_path_a@,
            xor_path_b: self.xor_path_b@,
        }
    }
}

/// A login is refused before anything is read when neither K1 nor the first
/// XOR file is given and no XOR files were loaded in the browser.
pub open spec fn login_needs_keys(k1: Seq<char>, xor_path_a: Seq<char>, has_loaded_xor: bool) -> bool {
    trim(k1).len() == 0 && trim(xor_path_a).len() == 0 && !has_loaded_xor
}

pub open spec fn needs_keys_message() -> Seq<char> {
    "Introduza K1 ou os ficheiros XOR."@
}

pub fn check_login_request(k1: &str, xor_path_a: &str, has_loaded_xor: bool) -> (r: Result<(), String>)
    ensures
        r is Err <==> login_needs_keys(k1@, xor_path_a@, has_loaded_xor),
        r matches Err(e) ==> e@ == needs_keys_message(),
{
    let k = trim_chars(&chars_of(k1));
    let a = trim_chars(&chars_of(xor_path_a));
    if k.len() == 0 && a.len() == 0 && !has_loaded_xor {
        Err(String::from_str("Introduza K1 ou os ficheiros XOR."))
    } else {
        Ok(())
    }
}

/// Where the keys of an opening come from.
#[derive(PartialEq, Eq, Structural, Clone, Copy, Debug)]
pub enum KeySource {
    /// The two XOR files loaded in the browser.
    LoadedXor,
    /// The two XOR files named in the form.
    XorFiles,
    /// K1 and K2 as typed.
    Typed,
}

/// What to do with a session file that was read.
pub enum LoginPlan {
    /// The file has no HMAC: ask before opening it unverified.
    AskHmac,
    Fail(String),
    /// Open it with these keys and, where the session requires one, this
    /// hardware factor.
    Open { k_ext: Option<Vec<u8>>, keys: KeySource },
}

pub ghost enum LoginPlanView {
    AskHmac,
    Fail(Seq<char>),
    Open(Option<Seq<u8>>, KeySource),
}

pub open spec fn plan_view(p: LoginPlan) -> LoginPlanView {
    match p {
        LoginPlan::AskHmac => LoginPlanView::AskHmac,
        LoginPlan::Fail(e) => LoginPlanView::Fail(e@),
        LoginPlan::Open { k_ext, keys } => LoginPlanView::Open(file_view(k_ext), keys),
    }
}

pub open spec fn k_ext_required_message() -> Seq<char> {
    "Esta sessão requer fator físico (K_ext). Introduza o ficheiro ou hex."@
}

/// The keys: the loaded XOR files first, then the two named XOR files, then
/// K1 and K2, of which K1 must not be empty.
pub open spec fn key_choice(
    has_loaded_xor: bool,
    xor_path_a: Seq<char>,
    xor_path_b: Seq<char>,
    k1: Seq<char>,
) -> Result<KeySource, Seq<char>> {
    if has_loaded_xor {
        Ok(KeySource::LoadedXor)
    } else if xor_path_a.len() > 0 && xor_path_b.len() > 0 {
        Ok(KeySource::XorFiles)
    } else if k1.len() == 0 {
        Err("K1 não pode estar vazio."@)
    } else {
        Ok(KeySource::Typed)
    }
}

/// The plan for a session file that was read: with `verify_hmac`, a file
/// without HMAC is first confirmed; a session with the hardware factor
/// needs a valid 32-byte K_ext; then the keys are chosen.
pub open spec fn login_plan(
    req: LoginRequestView,
    verify_hmac: bool,
    has_hmac: bool,
    hardware_enabled: bool,
    k_ext_file: Option<Seq<u8>>,
    has_loaded_xor: bool,
) -> LoginPlanView {
    if verify_hmac && !has_hmac {
        LoginPlanView::AskHmac
    } else if hardware_enabled && req.k_ext.len() == 0 {
        LoginPlanView::Fail(k_ext_required_message())
    } else if hardware_enabled && bytes32_spec(req.k_ext, k_ext_file) is Err {
        LoginPlanView::Fail("K_ext inválido: "@ + bytes32_spec(req.k_ext, k_ext_file)->Err_0)
    } else {
        let k_ext = if hardware_enabled {
            Some(bytes32_spec(req.k_ext, k_ext_file)->Ok_0)
        } else {
            None
        };
        match key_choice(has_loaded_xor, req.xor_path_a, req.xor_path_b, req.k1) {
            Err(e) => LoginPlanView::Fail(e),
            Ok(src) => LoginPlanView::Open(k_ext, src),
        }
    }
}

/// Decides how a session file that was read is opened; `k_ext_file` holds
/// the contents of the file that the K_ext field names, where one could be
/// read.
pub fn plan_login(
    req: &LoginRequest,
    verify_hmac: bool,
    has_hmac: bool,
    hardware_enabled: bool,
    k_ext_file: Option<Vec<u8>>,
    has_loaded_xor: bool,
) -> (r: LoginPlan)
    ensures
        plan_view(r) == login_plan(
            req.view(),
            verify_hmac,
            has_hmac,
            hardware_enabled,
            file_view(k_ext_file),
            has_loaded_xor,
        ),
{
    if verify_hmac && !has_hmac {
        return LoginPlan::AskHmac;
    }
    let ghost kf = file_view(k_ext_file);
    let k_ext = if hardware_enabled {
        if req.k_ext.as_str().unicode_len() == 0 {
            return LoginPlan::Fail(
                String::from_str("Esta sessão requer fator físico (K_ext). Introduza o ficheiro ou hex."),
            );
        }
        match read_32_bytes(req.k_ext.as_str(), k_ext_file) {
            Ok(b) => Some(b),
            Err(e) => {
                let mut m = String::from_str("K_ext inválido: ");
                push_str(&mut m, e.as_str());
                return LoginPlan::Fail(m);
            },
        }
    } else {
        None
    };
    let keys = if has_loaded_xor {
        KeySource::LoadedXor
    } else if req.xor_path_a.as_str().unicode_len() > 0 && req.xor_path_b.as_str().unicode_len() > 0 {
        KeySource::XorFiles
    } else if req.k1.as_str().unicode_len() == 0 {
        return LoginPlan::Fail(String::from_str("K1 não pode estar vazio."));
    } else {
        KeySource::Typed
    };
    LoginPlan::Open { k_ext, keys }
}

/// Where the keys come from: XOR files loaded in the browser win; otherwise,
/// when both XOR files are named, the keys come from them whatever K1 holds
/// (the plan is then the same for any K1); typed keys are used only with a
/// K1 and without both XOR files.
pub proof fn law_login_key_source(
    req: LoginRequestView,
    verify_hmac: bool,
    has_hmac: bool,
    hardware_enabled: bool,
    k_ext_file: Option<Seq<u8>>,
    has_loaded_xor: bool,
    other_k1: Seq<char>,
)
    ensures
        has_loaded_xor ==> match login_plan(req, verify_hmac, has_hmac, hardware_enabled, k_ext_file, true) {
            LoginPlanView::Open(_, keys) => keys == KeySource::LoadedXor,
            _ => true,
        },
        !has_loaded_xor && req.xor_path_a.len() > 0 && req.xor_path_b.len() > 0 ==> match login_plan(
            req,
            verify_hmac,
            has_hmac,
            hardware_enabled,
            k_ext_file,
            false,
        ) {
            LoginPlanView::Open(_, keys) => keys == KeySource::XorFiles,
            _ => true,
        },
        !has_loaded_xor && req.xor_path_a.len() > 0 && req.xor_path_b.len() > 0 ==> login_plan(
            req,
            verify_hmac,
            has_hmac,
            hardware_enabled,
            k_ext_file,
            false,
        ) == login_plan(
            LoginRequestView { k1: other_k1, ..req },
            verify_hmac,
            has_hmac,
            hardware_enabled,
            k_ext_file,
            false,
        ),
        match login_plan(req, verify_hmac, has_hmac, hardware_enabled, k_ext_file, has_loaded_xor) {
            LoginPlanView::Open(_, keys) => keys == KeySource::Typed ==> !has_loaded_xor
                && req.k1.len() > 0 && !(req.xor_path_a.len() > 0 && req.xor_path_b.len() > 0),
            _ => true,
        },
{
}

/// A step of the opening that failed, with the error it gave.
#[derive(PartialEq, Eq, Structural, Clone, Copy, Debug)]
pub enum LoginFailure {
    /// The session file could not be read.
    Load,
    /// The XOR files could not be read or combined.
    XorFiles,
    /// The keys were refused.
    Keys,
}

pub open spec fn failure_prefix(kind: LoginFailure) -> Seq<char> {
    match kind {
        LoginFailure::Load => "Erro ao carregar ficheiro: "@,
        LoginFailure::XorFiles => "Erro nos ficheiros XOR: "@,
        LoginFailure::Keys => "Chaves inválidas: "@,
    }
}

pub fn failure_message(kind: LoginFailure, detail: &str) -> (r: String)
    ensures
        r@ == failure_prefix(kind) + detail@,
{
    let mut m = match kind {
        LoginFailure::Load => String::from_str("Erro ao carregar ficheiro: "),
        LoginFailure::XorFiles => String::from_str("Erro nos ficheiros XOR: "),
        LoginFailure::Keys => String::from_str("Chaves inválidas: "),
    };
    push_str(&mut m, detail);
    m
}

/// How opening the session ended.
pub enum OpenOutcome {
    Opened,
    /// The HMAC did not match.
    Tampered,
    Failed(String),
}

/// The result of a login attempt.
pub enum LoginResult {
    /// Opened; the session's path.
    Unlocked(String),
    /// The file has no HMAC.
    NoHmac,
    /// The file's HMAC did not match.
    HmacFail,
    Failed(String),
}

pub ghost enum LoginResultView {
    Unlocked(Seq<char>),
    NoHmac,
    HmacFail,
    Failed(Seq<char>),
}

pub open spec fn result_view(r: LoginResult) -> LoginResultView {
    match r {
        LoginResult::Unlocked(p) => LoginResultView::Unlocked(p@),
        LoginResult::NoHmac => LoginResultView::NoHmac,
        LoginResult::HmacFail => LoginResultView::HmacFail,
        LoginResult::Failed(e) => LoginResultView::Failed(e@),
    }
}

/// The result of an opening of the session at `path`.
pub fn login_result(path: &str, outcome: OpenOutcome) -> (r: LoginResult)
    ensures
        result_view(r) == match outcome {
            OpenOutcome::Opened => LoginResultView::Unlocked(path@),
            OpenOutcome::Tampered => LoginResultView::HmacFail,
            OpenOutcome::Failed(e) => LoginResultView::Failed(e@),
        },
{
    match outcome {
        OpenOutcome::Opened => LoginResult::Unlocked(String::from_str(path)),
        OpenOutcome::Tampered => LoginResult::HmacFail,
        OpenOutcome::Failed(e) => LoginResult::Failed(e),
    }
}

// ---------------------------------------------------------------------------
// The login screen

/// What the login screen shows, and the login held back for confirmation.
pub struct LoginScreen {
    pub error: String,
    pub hmac_warning: bool,
    pub hmac_tampered: bool,
    pub unlocked: bool,
    pub session_path: String,
    pub pending: Option<LoginRequest>,
}

pub ghost struct LoginScreenView {
    pub error: Seq<char>,
    pub hmac_warning: bool,
    pub hmac_tampered: bool,
    pub unlocked: bool,
    pub session_path: Seq<char>,
    pub pending: Option<LoginRequestView>,
}

pub open spec fn pending_view(p: Option<LoginRequest>) -> Option<LoginRequestView> {
    match p {
        Some(r) => Some(r.view()),
        None => None,
    }
}

pub open spec fn unexpected_message() -> Seq<char> {
    "Erro inesperado ao abrir sessão."@
}

/// The screen after the first attempt ends with `result` for `req`.
pub open spec fn after_attempt(s: LoginScreenView, req: LoginRequestView, result: LoginResultView) -> LoginScreenView {
    match result {
        LoginResultView::Unlocked(p) => LoginScreenView {
            error: seq![],
            hmac_warning: false,
            unlocked: true,
            session_path: p,
            ..s
        },
        LoginResultView::NoHmac => LoginScreenView {
            hmac_warning: true,
            hmac_tampered: false,
            pending: Some(req),
            ..s
        },
        LoginResultView::HmacFail => LoginScreenView {
            hmac_warning: false,
            hmac_tampered: true,
            pending: Some(req),
            ..s
        },
        LoginResultView::Failed(e) => LoginScreenView { error: e, ..s },
    }
}

/// The screen after the attempt that the user confirmed ends with `result`.
pub open spec fn after_confirmed(s: LoginScreenView, result: LoginResultView) -> LoginScreenView {
    match result {
        LoginResultView::Unlocked(p) => LoginScreenView {
            error: seq![],
            hmac_warning: false,
            unlocked: true,
            session_path: p,
            ..s
        },
        LoginResultView::Failed(e) => LoginScreenView { error: e, ..s },
        _ => LoginScreenView { error: unexpected_message(), ..s },
    }
}

impl LoginScreen {
    pub open spec fn view(&self) -> LoginScreenView {
        LoginScreenView {
            error: self.error@,
            hmac_warning: self.hmac_warning,
            hmac_tampered: self.hmac_tampered,
            unlocked: self.unlocked,
            session_path: self.session_path@,
            pending: pending_view(self.pending),
        }
    }

    /// The locked screen, with nothing shown.
    pub fn new() -> (r: LoginScreen)
        ensures
            r.view() == (LoginScreenView {
                error: seq![],
                hmac_warning: false,
                hmac_tampered: false,
                unlocked: false,
                session_path: seq![],
                pending: None,
            }),
    {
        LoginScreen {
            error: String::new(),
            hmac_warning: false,
            hmac_tampered: false,
            unlocked: false,
            session_path: String::new(),
            pending: None,
        }
    }

    /// The login button: refuses a request without keys (and says so), or
    /// clears the error and lets the attempt go ahead.
    pub fn submit(&mut self, k1: &str, xor_path_a: &str, has_loaded_xor: bool) -> (go: bool)
        ensures
            go == !login_needs_keys(k1@, xor_path_a@, has_loaded_xor),
            final(self).view() == (LoginScreenView {
                error: if go {
                    seq![]
                } else {
                    needs_keys_message()
                },
                ..old(self).view()
            }),
    {
        match check_login_request(k1, xor_path_a, has_loaded_xor) {
            Ok(()) => {
                self.error = String::new();
                true
            },
            Err(e) => {
                self.error = e;
                false
            },
        }
    }

    /// The first attempt for `req` ended with `result`.
    pub fn finish_attempt(&mut self, req: LoginRequest, result: LoginResult)
        ensures
            final(self).view() == after_attempt(old(self).view(), req.view(), result_view(result)),
    {
        match result {
            LoginResult::Unlocked(p) => {
                self.session_path = p;
                self.unlocked = true;
                self.error = String::new();
                self.hmac_warning = false;
            },
            LoginResult::NoHmac => {
                self.hmac_warning = true;
                self.hmac_tampered = false;
                self.pending = Some(req);
            },
            LoginResult::HmacFail => {
                self.hmac_tampered = true;
                self.hmac_warning = false;
                self.pending = Some(req);
            },
            LoginResult::Failed(e) => {
                self.error = e;
            },
        }
    }

    /// The user accepts the file without a valid HMAC: the warnings close,
    /// and the login held back (if any) is handed out to be retried.
    pub fn confirm_no_hmac(&mut self) -> (r: Option<LoginRequest>)
        ensures
            pending_view(r) == old(self).view().pending,
            final(self).view() == (LoginScreenView {
                hmac_warning: false,
                hmac_tampered: false,
                pending: None,
                ..old(self).view()
            }),
    {
        self.hmac_warning = false;
        self.hmac_tampered = false;
        self.pending.take()
    }

    /// The confirmed attempt ended with `result`.
    pub fn finish_confirmed(&mut self, result: LoginResult)
        ensures
            final(self).view() == after_confirmed(old(self).view(), result_view(result)),
    {
        match result {
            LoginResult::Unlocked(p) => {
                self.session_path = p;
                self.unlocked = true;
                self.error = String::new();
                self.hmac_warning = false;
            },
            LoginResult::Failed(e) => {
                self.error = e;
            },
            _ => {
                self.error = String::from_str("Erro inesperado ao abrir sessão.");
            },
        }
    }
}

/// A login held back because the file has no HMAC, or a failing one, is
/// the one retried once the user accepts: same path, keys and files.
pub proof fn law_held_login_is_retried(s: LoginScreenView, req: LoginRequestView, result: LoginResultView)
    requires
        result is NoHmac || result is HmacFail,
    ensures
        after_attempt(s, req, result).pending == Some(req),
        after_attempt(s, req, result).hmac_warning || after_attempt(s, req, result).hmac_tampered,
        !after_attempt(s, req, result).unlocked || s.unlocked,
{
}

/// A confirmed attempt never asks again: whatever it ends with, no warning
/// is left open and nothing is held back.
pub proof fn law_confirmed_attempt_is_final(s: LoginScreenView, result: LoginResultView)
    requires
        !s.hmac_warning,
        !s.hmac_tampered,
        s.pending is None,
    ensures
        !after_confirmed(s, result).hmac_warning,
        !after_confirmed(s, result).hmac_tampered,
        after_confirmed(s, result).pending is None,
        after_confirmed(s, result).unlocked <==> (s.unlocked || result is Unlocked),
{
}

} // verus!
