//! The first-run wizard: choose where the session goes and name the device,
//! calibrate Argon2id for the device and the session, name the first domain,
//! enter K1 and K2 and then confirm them, create everything, check the keys
//! by generating the domain's password, and save. Each event moves the wizard
//! from one state to the next; the work between events (file checks,
//! calibration, creating and saving the session) is done by the caller.

use vstd::prelude::*;
use crate::text::{trim, trim_chars, chars_of, string_from_chars, str_eq, push_str};
use crate::number::parse_uint;

verus! {

/// Argon2id costs: memory (KiB), iterations and parallelism.
#[derive(PartialEq, Eq, Structural, Clone, Copy, Debug)]
pub struct Argon2Costs {
    pub m: u32,
    pub t: u32,
    pub p: u32,
}

/// The wizard's state.
pub struct Tutorial {
    pub step: i32,
    pub error: String,
    pub file_warning: String,
    pub session_path: String,
    pub device_name: String,
    pub domain_name: String,
    pub domain_uuid: Option<u128>,
    pub k1_pending: String,
    pub k2_pending: String,
    pub device_argon2: Option<Argon2Costs>,
    pub session_argon2: Option<Argon2Costs>,
    pub path_warning_seen: Option<String>,
    pub loading: bool,
    pub password: String,
}

pub ghost struct TutorialView {
    pub step: int,
    pub error: Seq<char>,
    pub file_warning: Seq<char>,
    pub session_path: Seq<char>,
    pub device_name: Seq<char>,
    pub domain_name: Seq<char>,
    pub domain_uuid: Option<u128>,
    pub k1_pending: Seq<char>,
    pub k2_pending: Seq<char>,
    pub device_argon2: Option<Argon2Costs>,
    pub session_argon2: Option<Argon2Costs>,
    pub path_warning_seen: Option<Seq<char>>,
    pub loading: bool,
    pub password: Seq<char>,
}

pub open spec fn opt_text(o: Option<String>) -> Option<Seq<char>> {
    match o {
        Some(s) => Some(s@),
        None => None,
    }
}

/// The state of a fresh (or abandoned) wizard.
pub open spec fn initial_view() -> TutorialView {
    TutorialView {
        step: 0,
        error: seq![],
        file_warning: seq![],
        session_path: seq![],
        device_name: seq![],
        domain_name: seq![],
        domain_uuid: None,
        k1_pending: seq![],
        k2_pending: seq![],
        device_argon2: None,
        session_argon2: None,
        path_warning_seen: None,
        loading: false,
        password: seq![],
    }
}

/// What the caller does to create the session, once the keys are confirmed.
pub struct SessionCreation {
    pub session_path: String,
    pub device_name: String,
    pub domain_name: String,
    pub k1: String,
    pub k2: String,
    pub session_argon2: Argon2Costs,
    pub device_argon2: Argon2Costs,
}

/// The keys and costs a session is created with.
pub ghost struct CreationView {
    pub session_path: Seq<char>,
    pub device_name: Seq<char>,
    pub domain_name: Seq<char>,
    pub k1: Seq<char>,
    pub k2: Seq<char>,
    pub session_argon2: Argon2Costs,
    pub device_argon2: Argon2Costs,
}

impl SessionCreation {
    pub open spec fn view(&self) -> CreationView {
        CreationView {
            session_path: self.session_path@,
            device_name: self.device_name@,
            domain_name: self.domain_name@,
            k1: self.k1@,
            k2: self.k2@,
            session_argon2: self.session_argon2,
            device_argon2: self.device_argon2,
        }
    }
}

/// Keys entered (step 3): both must be given.
pub open spec fn step3_spec(v: TutorialView, k1: Seq<char>, k2: Seq<char>) -> TutorialView {
    if k1.len() == 0 {
        TutorialView { error: "K1 não pode estar vazio."@, ..v }
    } else if k2.len() == 0 {
        TutorialView { error: "K2 não pode estar vazio."@, ..v }
    } else {
        TutorialView { k1_pending: k1, k2_pending: k2, error: seq![], step: 6, ..v }
    }
}

/// Keys confirmed (step 4): they must be the ones entered, and both
/// calibrations must be there; then the session is created.
pub open spec fn step4_spec(v: TutorialView, c1: Seq<char>, c2: Seq<char>) -> (TutorialView, Option<CreationView>) {
    if c1 != v.k1_pending {
        (TutorialView { error: "K1 não coincide com o valor introduzido anteriormente."@, ..v }, None)
    } else if c2 != v.k2_pending {
        (TutorialView { error: "K2 não coincide com o valor introduzido anteriormente."@, ..v }, None)
    } else {
        let cleared = TutorialView { k1_pending: seq![], k2_pending: seq![], ..v };
        match (v.device_argon2, v.session_argon2) {
            (None, _) => (
                TutorialView { error: "Erro interno: calibração do dispositivo em falta."@, ..cleared },
                None,
            ),
            (Some(_), None) => (
                TutorialView { error: "Erro interno: calibração da sessão em falta."@, ..cleared },
                None,
            ),
            (Some(d), Some(s)) => (
                TutorialView { step: 7, loading: true, error: seq![], ..cleared },
                Some(
                    CreationView {
                        session_path: v.session_path,
                        device_name: v.device_name,
                        domain_name: v.domain_name,
                        k1: c1,
                        k2: c2,
                        session_argon2: s,
                        device_argon2: d,
                    },
                ),
            ),
        }
    }
}

/// The device name: the one given (trimmed), else the suggested one.
pub open spec fn device_name_spec(name: Seq<char>, suggested: Seq<char>) -> Seq<char> {
    if trim(name).len() == 0 {
        suggested
    } else {
        trim(name)
    }
}

pub fn resolve_device_name(name: &str, suggested: &str) -> (r: String)
    ensures
        r@ == device_name_spec(name@, suggested@),
{
    let t = trim_chars(&chars_of(name));
    if t.len() == 0 {
        String::from_str(suggested)
    } else {
        string_from_chars(&t)
    }
}

/// A cost typed in the wizard: the trimmed number, or 0 when it is none.
pub open spec fn cost_or_zero(s: Seq<char>) -> nat {
    match parse_uint(trim(s), 10, 0xffff_ffff) {
        Ok(n) => n,
        Err(_) => 0,
    }
}

pub fn parse_cost(s: &str) -> (r: u32)
    ensures
        r as nat == cost_or_zero(s@),
{
    let t = trim_chars(&chars_of(s));
    proof {
        crate::number::lemma_parse_bounded(t@, 10, 0xffff_ffff);
    }
    match crate::number::parse_uint_chars(&t, 10, 0xffff_ffff) {
        Ok(n) => n as u32,
        Err(_) => 0,
    }
}

/// The target window (milliseconds) of the session's calibration: shorter
/// in the browser, whose resources are scarcer.
pub fn session_calibration_window(in_browser: bool) -> (r: (u128, u128))
    ensures
        r == (if in_browser {
            (1000u128, 5000u128)
        } else {
            (10000u128, 15000u128)
        }),
{
    if in_browser {
        (1000, 5000)
    } else {
        (10000, 15000)
    }
}

/// What the caller does when the wizard is finished.
pub enum FinishAction {
    /// Leave the wizard and unlock (already saved).
    CloseAndUnlock,
    /// Save the session at this path with the keys given.
    Save(String),
    /// Nothing: the error says why.
    Nothing,
}

impl Tutorial {
    pub open spec fn view(&self) -> TutorialView {
        TutorialView {
            step: self.step as int,
            error: self.error@,
            file_warning: self.file_warning@,
            session_path: self.session_path@,
            device_name: self.device_name@,
            domain_name: self.domain_name@,
            domain_uuid: self.domain_uuid,
            k1_pending: self.k1_pending@,
            k2_pending: self.k2_pending@,
            device_argon2: self.device_argon2,
            session_argon2: self.session_argon2,
            path_warning_seen: opt_text(self.path_warning_seen),
            loading: self.loading,
            password: self.password@,
        }
    }

    pub fn new() -> (r: Tutorial)
        ensures
            r.view() == initial_view(),
    {
        Tutorial {
            step: 0,
            error: String::new(),
            file_warning: String::new(),
            session_path: String::new(),
            device_name: String::new(),
            domain_name: String::new(),
            domain_uuid: None,
            k1_pending: String::new(),
            k2_pending: String::new(),
            device_argon2: None,
            session_argon2: None,
            path_warning_seen: None,
            loading: false,
            password: String::new(),
        }
    }

    /// The wizard is abandoned (or closed): everything is forgotten.
    pub fn cancel(&mut self)
        ensures
            final(self).view() == initial_view(),
    {
        *self = Tutorial::new();
    }

    /// From the welcome page to the first step.
    pub fn step0_next(&mut self)
        ensures
            final(self).view() == (TutorialView { error: seq![], step: 1, ..old(self).view() }),
    {
        self.error = String::new();
        self.step = 1;
    }

    /// Where the session goes and the device's name. The caller resolves the
    /// path and says whether its folder exists and whether a file is there.
    /// An existing file is replaced only once the warning was acknowledged for
    /// this same path.
    pub fn step1(&mut self, path: &str, device: &str, parent_exists: bool, file_exists: bool)
        ensures
            ({
                let v = old(self).view();
                let w = final(self).view();
                if path@.len() == 0 {
                    w == TutorialView { error: "O caminho da sessão não pode estar vazio."@, ..v }
                } else if device@.len() == 0 {
                    w == TutorialView { error: "O nome do dispositivo não pode estar vazio."@, ..v }
                } else if !parent_exists {
                    w == TutorialView { error: "A pasta de destino não existe."@, ..v }
                } else if file_exists && v.path_warning_seen != Some(path@) {
                    w == TutorialView {
                        session_path: path@,
                        device_name: device@,
                        file_warning: "O ficheiro '"@ + path@ + "' já existe e será substituído."@,
                        error: seq![],
                        ..v
                    }
                } else {
                    w == TutorialView {
                        session_path: path@,
                        device_name: device@,
                        path_warning_seen: None,
                        error: seq![],
                        file_warning: seq![],
                        step: 2,
                        ..v
                    }
                }
            }),
    {
        if path.unicode_len() == 0 {
            self.error = String::from_str("O caminho da sessão não pode estar vazio.");
            return;
        }
        if device.unicode_len() == 0 {
            self.error = String::from_str("O nome do dispositivo não pode estar vazio.");
            return;
        }
        if !parent_exists {
            self.error = String::from_str("A pasta de destino não existe.");
            return;
        }
        let acknowledged = match &self.path_warning_seen {
            Some(p) => str_eq(p.as_str(), path),
            None => false,
        };
        if file_exists && !acknowledged {
            self.session_path = String::from_str(path);
            self.device_name = String::from_str(device);
            let mut w = String::from_str("O ficheiro '");
            push_str(&mut w, path);
            push_str(&mut w, "' já existe e será substituído.");
            self.file_warning = w;
            self.error = String::new();
            return;
        }
        self.session_path = String::from_str(path);
        self.device_name = String::from_str(device);
        self.path_warning_seen = None;
        self.error = String::new();
        self.file_warning = String::new();
        self.step = 2;
    }

    /// The user read the warning about replacing the file.
    pub fn acknowledge_warning(&mut self)
        ensures
            final(self).view() == (TutorialView {
                path_warning_seen: Some(old(self).view().session_path),
                ..old(self).view()
            }),
    {
        self.path_warning_seen = Some(self.session_path.clone());
    }

    /// The user chose to replace the file anyway.
    pub fn step1_override(&mut self)
        ensures
            final(self).view() == (TutorialView {
                file_warning: seq![],
                error: seq![],
                step: 2,
                ..old(self).view()
            }),
    {
        self.file_warning = String::new();
        self.error = String::new();
        self.step = 2;
    }

    /// The device's Argon2id costs, once the caller checked them.
    pub fn device_calibrate_next(&mut self, costs: Argon2Costs, check: Result<(), String>)
        ensures
            match check {
                Err(e) => final(self).view() == (TutorialView { error: e@, ..old(self).view() }),
                Ok(()) => final(self).view() == (TutorialView {
                    device_argon2: Some(costs),
                    error: seq![],
                    step: 3,
                    ..old(self).view()
                }),
            },
    {
        match check {
            Err(e) => {
                self.error = e;
            },
            Ok(()) => {
                self.device_argon2 = Some(costs);
                self.error = String::new();
                self.step = 3;
            },
        }
    }

    /// The first domain's identifier (kept as typed, but not blank).
    pub fn step2(&mut self, domain: &str)
        ensures
            trim(domain@).len() == 0 ==> final(self).view() == (TutorialView {
                error: "O identificador do domínio não pode estar vazio."@,
                ..old(self).view()
            }),
            trim(domain@).len() > 0 ==> final(self).view() == (TutorialView {
                domain_name: domain@,
                error: seq![],
                step: 4,
                ..old(self).view()
            }),
    {
        if trim_chars(&chars_of(domain)).len() == 0 {
            self.error = String::from_str("O identificador do domínio não pode estar vazio.");
            return;
        }
        self.domain_name = String::from_str(domain);
        self.error = String::new();
        self.step = 4;
    }

    /// The session's Argon2id costs, once the caller checked them.
    pub fn session_calibrate_next(&mut self, costs: Argon2Costs, check: Result<(), String>)
        ensures
            match check {
                Err(e) => final(self).view() == (TutorialView { error: e@, ..old(self).view() }),
                Ok(()) => final(self).view() == (TutorialView {
                    session_argon2: Some(costs),
                    error: seq![],
                    step: 5,
                    ..old(self).view()
                }),
            },
    {
        match check {
            Err(e) => {
                self.error = e;
            },
            Ok(()) => {
                self.session_argon2 = Some(costs);
                self.error = String::new();
                self.step = 5;
            },
        }
    }

    /// K1 and K2 entered.
    pub fn step3(&mut self, k1: &str, k2: &str)
        ensures
            final(self).view() == step3_spec(old(self).view(), k1@, k2@),
    {
        if k1.unicode_len() == 0 {
            self.error = String::from_str("K1 não pode estar vazio.");
            return;
        }
        if k2.unicode_len() == 0 {
            self.error = String::from_str("K2 não pode estar vazio.");
            return;
        }
        self.k1_pending = String::from_str(k1);
        self.k2_pending = String::from_str(k2);
        self.error = String::new();
        self.step = 6;
    }

    /// K1 and K2 typed again. When they match what was entered, and both
    /// calibrations are there, the wizard hands out what creates the session.
    pub fn step4(&mut self, k1_confirm: &str, k2_confirm: &str) -> (r: Option<SessionCreation>)
        ensures
            final(self).view() == step4_spec(old(self).view(), k1_confirm@, k2_confirm@).0,
            match (r, step4_spec(old(self).view(), k1_confirm@, k2_confirm@).1) {
                (Some(c), Some(w)) => c.view() == w,
                (None, None) => true,
                _ => false,
            },
    {
        if !str_eq(k1_confirm, self.k1_pending.as_str()) {
            self.error = String::from_str("K1 não coincide com o valor introduzido anteriormente.");
            return None;
        }
        if !str_eq(k2_confirm, self.k2_pending.as_str()) {
            self.error = String::from_str("K2 não coincide com o valor introduzido anteriormente.");
            return None;
        }
        self.k1_pending = String::new();
        self.k2_pending = String::new();
        let device_argon2 = match self.device_argon2 {
            Some(a) => a,
            None => {
                self.error = String::from_str("Erro interno: calibração do dispositivo em falta.");
                return None;
            },
        };
        let session_argon2 = match self.session_argon2 {
            Some(a) => a,
            None => {
                self.error = String::from_str("Erro interno: calibração da sessão em falta.");
                return None;
            },
        };
        self.step = 7;
        self.loading = true;
        self.error = String::new();
        Some(
            SessionCreation {
                session_path: self.session_path.clone(),
                device_name: self.device_name.clone(),
                domain_name: self.domain_name.clone(),
                k1: String::from_str(k1_confirm),
                k2: String::from_str(k2_confirm),
                session_argon2,
                device_argon2,
            },
        )
    }

    /// The session was created (with the new domain's identifier), or not.
    pub fn creation_done(&mut self, result: Result<u128, String>)
        ensures
            match result {
                Ok(u) => final(self).view() == (TutorialView {
                    loading: false,
                    domain_uuid: Some(u),
                    step: 8,
                    error: seq![],
                    ..old(self).view()
                }),
                Err(e) => final(self).view() == (TutorialView {
                    loading: false,
                    step: 6,
                    error: e@,
                    ..old(self).view()
                }),
            },
    {
        self.loading = false;
        match result {
            Ok(u) => {
                self.domain_uuid = Some(u);
                self.step = 8;
                self.error = String::new();
            },
            Err(e) => {
                self.step = 6;
                self.error = e;
            },
        }
    }

    /// The user asks to check the keys: the domain whose password the caller
    /// generates with them.
    pub fn step7_verify(&mut self, k1: &str, k2: &str) -> (r: Option<u128>)
        ensures
            ({
                let v = old(self).view();
                if k1@.len() == 0 || k2@.len() == 0 {
                    r is None && final(self).view() == TutorialView {
                        error: "Introduza K1 e K2 para verificar."@,
                        ..v
                    }
                } else if v.domain_uuid is None {
                    r is None && final(self).view() == TutorialView {
                        error: "Erro interno: domínio não encontrado."@,
                        ..v
                    }
                } else {
                    r == v.domain_uuid && final(self).view() == TutorialView {
                        loading: true,
                        error: seq![],
                        ..v
                    }
                }
            }),
    {
        if k1.unicode_len() == 0 || k2.unicode_len() == 0 {
            self.error = String::from_str("Introduza K1 e K2 para verificar.");
            return None;
        }
        match self.domain_uuid {
            Some(u) => {
                self.loading = true;
                self.error = String::new();
                Some(u)
            },
            None => {
                self.error = String::from_str("Erro interno: domínio não encontrado.");
                None
            },
        }
    }

    /// The password generated with the keys, or why it could not be.
    pub fn verify_done(&mut self, result: Result<String, String>)
        ensures
            match result {
                Ok(p) => final(self).view() == (TutorialView {
                    loading: false,
                    password: p@,
                    error: seq![],
                    ..old(self).view()
                }),
                Err(e) => final(self).view() == (TutorialView {
                    loading: false,
                    error: "Chaves incorretas ou sessão inválida: "@ + e@,
                    password: seq![],
                    ..old(self).view()
                }),
            },
    {
        self.loading = false;
        match result {
            Ok(p) => {
                self.password = p;
                self.error = String::new();
            },
            Err(e) => {
                let mut m = String::from_str("Chaves incorretas ou sessão inválida: ");
                push_str(&mut m, e.as_str());
                self.error = m;
                self.password = String::new();
            },
        }
    }

    /// Start again from the welcome page (the session is closed).
    pub fn step7_restart(&mut self)
        ensures
            final(self).view() == (TutorialView {
                domain_uuid: None,
                step: 0,
                error: seq![],
                password: seq![],
                loading: false,
                ..old(self).view()
            }),
    {
        self.domain_uuid = None;
        self.step = 0;
        self.error = String::new();
        self.password = String::new();
        self.loading = false;
    }

    /// The user finishes: after the session was created (steps 8 and 9) the
    /// wizard closes; otherwise the session is saved with the keys given,
    /// which must both be there.
    pub fn finish(&mut self, k1: &str, k2: &str) -> (r: FinishAction)
        ensures
            ({
                let v = old(self).view();
                if v.step == 8 || v.step == 9 {
                    r is CloseAndUnlock && final(self).view() == initial_view()
                } else if k1@.len() == 0 || k2@.len() == 0 {
                    r is Nothing && final(self).view() == TutorialView {
                        error: "Verifique as chaves antes de gravar."@,
                        ..v
                    }
                } else {
                    (r matches FinishAction::Save(p) && p@ == v.session_path) && final(self).view()
                        == TutorialView { loading: true, error: seq![], ..v }
                }
            }),
    {
        if self.step == 8 || self.step == 9 {
            self.cancel();
            return FinishAction::CloseAndUnlock;
        }
        if k1.unicode_len() == 0 || k2.unicode_len() == 0 {
            self.error = String::from_str("Verifique as chaves antes de gravar.");
            return FinishAction::Nothing;
        }
        self.loading = true;
        self.error = String::new();
        FinishAction::Save(self.session_path.clone())
    }

    /// The session was saved (the wizard closes) or not.
    pub fn finish_done(&mut self, result: Result<(), String>)
        ensures
            match result {
                Ok(()) => final(self).view() == initial_view(),
                Err(e) => final(self).view() == (TutorialView {
                    loading: false,
                    step: 8,
                    error: "Erro ao gravar sessão: "@ + e@,
                    ..old(self).view()
                }),
            },
    {
        match result {
            Ok(()) => {
                self.cancel();
            },
            Err(e) => {
                self.loading = false;
                self.step = 8;
                let mut m = String::from_str("Erro ao gravar sessão: ");
                push_str(&mut m, e.as_str());
                self.error = m;
            },
        }
    }
}

/// The session is created only with the keys that were entered and then
/// typed again: once K1 and K2 are entered (step 3) and both calibrations are
/// there, confirming (step 4) creates the session exactly when the confirmed
/// keys are the entered ones, and then with those keys.
pub proof fn law_keys_confirmed_before_creation(
    v: TutorialView,
    k1: Seq<char>,
    k2: Seq<char>,
    c1: Seq<char>,
    c2: Seq<char>,
)
    requires
        k1.len() > 0,
        k2.len() > 0,
        v.device_argon2 is Some,
        v.session_argon2 is Some,
    ensures
        (step4_spec(step3_spec(v, k1, k2), c1, c2).1 is Some) <==> (c1 == k1 && c2 == k2),
        step4_spec(step3_spec(v, k1, k2), c1, c2).1 matches Some(c) ==> c.k1 == k1 && c.k2 == k2,
        step4_spec(step3_spec(v, k1, k2), c1, c2).1 is Some ==> step4_spec(step3_spec(v, k1, k2), c1, c2).0.k1_pending.len() == 0,
{
}

} // verus!
