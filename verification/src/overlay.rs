//! The overlays that the window shows above its views: the loading panel,
//! the confirmation dialog (with the action that waits for it) and the toast.

use vstd::prelude::*;

verus! {

/// What the overlays show.
pub struct Overlays {
    pub loading_show: bool,
    pub loading_message: String,
    pub confirm_show: bool,
    pub confirm_title: String,
    pub confirm_message: String,
    pub confirm_variant: String,
    /// The action that runs when the dialog is confirmed.
    pub pending_action: Option<String>,
    pub toast_show: bool,
    pub toast_message: String,
    pub toast_variant: String,
}

/// The abstract value of the overlays.
pub ghost struct OverlaysView {
    pub loading_show: bool,
    pub loading_message: Seq<char>,
    pub confirm_show: bool,
    pub confirm_title: Seq<char>,
    pub confirm_message: Seq<char>,
    pub confirm_variant: Seq<char>,
    pub pending_action: Option<Seq<char>>,
    pub toast_show: bool,
    pub toast_message: Seq<char>,
    pub toast_variant: Seq<char>,
}

impl Overlays {
    pub open spec fn view(&self) -> OverlaysView {
        OverlaysView {
            loading_show: self.loading_show,
            loading_message: self.loading_message@,
            confirm_show: self.confirm_show,
            confirm_title: self.confirm_title@,
            confirm_message: self.confirm_message@,
            confirm_variant: self.confirm_variant@,
            pending_action: match self.pending_action {
                Some(a) => Some(a@),
                None => None,
            },
            toast_show: self.toast_show,
            toast_message: self.toast_message@,
            toast_variant: self.toast_variant@,
        }
    }

    /// Nothing shown, no text, no action waiting.
    pub fn new() -> (r: Overlays)
        ensures
            r.view() == (OverlaysView {
                loading_show: false,
                loading_message: seq![],
                confirm_show: false,
                confirm_title: seq![],
                confirm_message: seq![],
                confirm_variant: seq![],
                pending_action: None,
                toast_show: false,
                toast_message: seq![],
                toast_variant: seq![],
            }),
    {
        Overlays {
            loading_show: false,
            loading_message: String::new(),
            confirm_show: false,
            confirm_title: String::new(),
            confirm_message: String::new(),
            confirm_variant: String::new(),
            pending_action: None,
            toast_show: false,
            toast_message: String::new(),
            toast_variant: String::new(),
        }
    }

    /// Hides the loading panel, the dialog and the toast; their texts stay.
    pub fn hide_all_overlays(&mut self)
        ensures
            final(self).view() == (OverlaysView {
                loading_show: false,
                confirm_show: false,
                toast_show: false,
                ..old(self).view()
            }),
    {
        self.loading_show = false;
        self.confirm_show = false;
        self.toast_show = false;
    }

    /// Shows the loading panel with `message`.
    pub fn show_loading(&mut self, message: &str)
        ensures
            final(self).view() == (OverlaysView {
                loading_show: true,
                loading_message: message@,
                ..old(self).view()
            }),
    {
        self.loading_message = String::from_str(message);
        self.loading_show = true;
    }

    /// Hides the loading panel.
    pub fn hide_loading(&mut self)
        ensures
            final(self).view() == (OverlaysView { loading_show: false, ..old(self).view() }),
    {
        self.loading_show = false;
    }

    /// Shows a toast (`variant`: info, success, error or warning).
    pub fn show_toast(&mut self, message: &str, variant: &str)
        ensures
            final(self).view() == (OverlaysView {
                toast_show: true,
                toast_message: message@,
                toast_variant: variant@,
                ..old(self).view()
            }),
    {
        self.toast_message = String::from_str(message);
        self.toast_variant = String::from_str(variant);
        self.toast_show = true;
    }

    /// The toast hides itself.
    pub fn expire_toast(&mut self)
        ensures
            final(self).view() == (OverlaysView { toast_show: false, ..old(self).view() }),
    {
        self.toast_show = false;
    }

    /// Asks the user to confirm `action`.
    pub fn ask_confirm(&mut self, title: &str, message: &str, variant: &str, action: String)
        ensures
            final(self).view() == after_ask(old(self).view(), title@, message@, variant@, action@),
    {
        self.pending_action = Some(action);
        self.confirm_title = String::from_str(title);
        self.confirm_message = String::from_str(message);
        self.confirm_variant = String::from_str(variant);
        self.confirm_show = true;
    }

    /// The user confirms: the dialog closes and hands out the waiting action,
    /// once.
    pub fn confirm_ok(&mut self) -> (r: Option<String>)
        ensures
            match (r, old(self).view().pending_action) {
                (Some(a), Some(b)) => a@ == b,
                (None, None) => true,
                _ => false,
            },
            final(self).view() == after_answer(old(self).view()),
    {
        self.confirm_show = false;
        let mut taken: Option<String> = None;
        std::mem::swap(&mut taken, &mut self.pending_action);
        taken
    }

    /// The user cancels: the dialog closes and the action is dropped.
    pub fn confirm_cancel(&mut self)
        ensures
            final(self).view() == after_answer(old(self).view()),
    {
        self.confirm_show = false;
        self.pending_action = None;
    }
}

/// The overlays once the dialog asks to confirm `action`.
pub open spec fn after_ask(
    v: OverlaysView,
    title: Seq<char>,
    message: Seq<char>,
    variant: Seq<char>,
    action: Seq<char>,
) -> OverlaysView {
    OverlaysView {
        confirm_show: true,
        confirm_title: title,
        confirm_message: message,
        confirm_variant: variant,
        pending_action: Some(action),
        ..v
    }
}

/// The overlays once the dialog is answered, either way.
pub open spec fn after_answer(v: OverlaysView) -> OverlaysView {
    OverlaysView { confirm_show: false, pending_action: None, ..v }
}

/// The action handed out on confirmation is the one the dialog asked about,
/// and it is handed out once: after the answer nothing waits, and a second
/// answer finds nothing.
pub proof fn law_confirmed_action_is_the_asked_one(
    v: OverlaysView,
    title: Seq<char>,
    message: Seq<char>,
    variant: Seq<char>,
    action: Seq<char>,
)
    ensures
        after_ask(v, title, message, variant, action).pending_action == Some(action),
        after_answer(after_ask(v, title, message, variant, action)).pending_action is None,
        !after_answer(after_ask(v, title, message, variant, action)).confirm_show,
        after_answer(after_answer(after_ask(v, title, message, variant, action))) == after_answer(
            after_ask(v, title, message, variant, action),
        ),
{
}

} // verus!
