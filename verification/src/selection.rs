//! What the unlocked window has selected (device, restriction, domain,
//! folder, static password) and how a search pick or a lock changes it.

use vstd::prelude::*;
use crate::text::{str_eq, trim, trim_chars, chars_of};

verus! {

/// The window's current selection.
pub struct Selection {
    pub device: Option<u128>,
    pub restriction: Option<u128>,
    pub domain: Option<u128>,
    pub static_password: Option<u128>,
    pub folder: Option<String>,
    pub static_compromised_mode: bool,
}

pub ghost struct SelectionView {
    pub device: Option<u128>,
    pub restriction: Option<u128>,
    pub domain: Option<u128>,
    pub static_password: Option<u128>,
    pub folder: Option<Seq<char>>,
    pub static_compromised_mode: bool,
}

/// Nothing selected.
pub open spec fn nothing_selected() -> SelectionView {
    SelectionView {
        device: None,
        restriction: None,
        domain: None,
        static_password: None,
        folder: None,
        static_compromised_mode: false,
    }
}

impl Selection {
    pub open spec fn view(&self) -> SelectionView {
        SelectionView {
            device: self.device,
            restriction: self.restriction,
            domain: self.domain,
            static_password: self.static_password,
            folder: match self.folder {
                Some(f) => Some(f@),
                None => None,
            },
            static_compromised_mode: self.static_compromised_mode,
        }
    }

    pub fn new() -> (r: Selection)
        ensures
            r.view() == nothing_selected(),
    {
        Selection {
            device: None,
            restriction: None,
            domain: None,
            static_password: None,
            folder: None,
            static_compromised_mode: false,
        }
    }

    /// The device list's pick: none forgets only the device; a device
    /// forgets the restriction, domain and static password picked under the
    /// previous one.
    pub fn select_device(&mut self, device: Option<u128>)
        ensures
            final(self).view() == (match device {
                None => SelectionView { device: None, ..old(self).view() },
                Some(u) => SelectionView {
                    device: Some(u),
                    restriction: None,
                    domain: None,
                    static_password: None,
                    ..old(self).view()
                },
            }),
    {
        match device {
            None => {
                self.device = None;
            },
            Some(u) => {
                self.device = Some(u);
                self.restriction = None;
                self.domain = None;
                self.static_password = None;
            },
        }
    }

    /// A new device was created: it is picked.
    pub fn device_created(&mut self, device: u128)
        ensures
            final(self).view() == (SelectionView { device: Some(device), ..old(self).view() }),
    {
        self.device = Some(device);
    }

    /// Device `device` was removed: when it was the one picked, it goes, with
    /// the restriction, domain and static password picked under it.
    pub fn device_removed(&mut self, device: u128)
        ensures
            old(self).device == Some(device) ==> final(self).view() == (SelectionView {
                device: None,
                restriction: None,
                domain: None,
                static_password: None,
                ..old(self).view()
            }),
            old(self).device != Some(device) ==> final(self).view() == old(self).view(),
    {
        if self.device == Some(device) {
            self.device = None;
            self.restriction = None;
            self.domain = None;
            self.static_password = None;
        }
    }

    /// Opens the restrictions of `device`.
    pub fn open_restrictions(&mut self, device: u128)
        ensures
            final(self).view() == (SelectionView { device: Some(device), restriction: None, ..old(self).view() }),
    {
        self.device = Some(device);
        self.restriction = None;
    }

    /// Opens the static passwords of `device`, at no folder.
    pub fn open_static_passwords(&mut self, device: u128)
        ensures
            final(self).view() == (SelectionView {
                device: Some(device),
                static_password: None,
                folder: None,
                ..old(self).view()
            }),
    {
        self.device = Some(device);
        self.static_password = None;
        self.folder = None;
    }

    /// The restriction list's pick (also a restriction just created): none
    /// forgets only the restriction; a restriction forgets the domain picked
    /// under the previous one.
    pub fn select_restriction(&mut self, restriction: Option<u128>)
        ensures
            final(self).view() == (match restriction {
                None => SelectionView { restriction: None, ..old(self).view() },
                Some(u) => SelectionView { restriction: Some(u), domain: None, ..old(self).view() },
            }),
    {
        match restriction {
            None => {
                self.restriction = None;
            },
            Some(u) => {
                self.restriction = Some(u);
                self.domain = None;
            },
        }
    }

    /// Restriction `restriction` was removed: when it was picked, it goes,
    /// with the domain picked under it.
    pub fn restriction_removed(&mut self, restriction: u128)
        ensures
            old(self).restriction == Some(restriction) ==> final(self).view() == (SelectionView {
                restriction: None,
                domain: None,
                ..old(self).view()
            }),
            old(self).restriction != Some(restriction) ==> final(self).view() == old(self).view(),
    {
        if self.restriction == Some(restriction) {
            self.restriction = None;
            self.domain = None;
        }
    }

    /// Back from the restrictions to the devices.
    pub fn back_to_devices(&mut self)
        ensures
            final(self).view() == (SelectionView { restriction: None, domain: None, ..old(self).view() }),
    {
        self.restriction = None;
        self.domain = None;
    }

    /// The domain list's pick (also a domain just created).
    pub fn select_domain(&mut self, domain: Option<u128>)
        ensures
            final(self).view() == (SelectionView { domain, ..old(self).view() }),
    {
        self.domain = domain;
    }

    /// Domain `domain` was removed: when it was picked, it goes.
    pub fn domain_removed(&mut self, domain: u128)
        ensures
            old(self).domain == Some(domain) ==> final(self).view() == (SelectionView {
                domain: None,
                ..old(self).view()
            }),
            old(self).domain != Some(domain) ==> final(self).view() == old(self).view(),
    {
        if self.domain == Some(domain) {
            self.domain = None;
        }
    }

    /// Opens a domain found by the search: its restriction and the domain
    /// are selected, the device is not; the rest stays.
    pub fn show_domain(&mut self, restriction: u128, domain: u128)
        ensures
            final(self).view() == (SelectionView {
                device: None,
                restriction: Some(restriction),
                domain: Some(domain),
                ..old(self).view()
            }),
    {
        self.device = None;
        self.restriction = Some(restriction);
        self.domain = Some(domain);
    }

    /// Opens a static password found by the search: its device, folder and
    /// the password are selected; the rest stays.
    pub fn show_static_password(&mut self, device: u128, folder: String, static_password: u128)
        ensures
            final(self).view() == (SelectionView {
                device: Some(device),
                folder: Some(folder@),
                static_password: Some(static_password),
                ..old(self).view()
            }),
    {
        self.device = Some(device);
        self.folder = Some(folder);
        self.static_password = Some(static_password);
    }

    /// Opens a folder, showing its compromised passwords or the others.
    pub fn select_folder(&mut self, folder: String, compromised_mode: bool)
        ensures
            final(self).view() == (SelectionView {
                folder: Some(folder@),
                static_password: None,
                static_compromised_mode: compromised_mode,
                ..old(self).view()
            }),
    {
        self.folder = Some(folder);
        self.static_password = None;
        self.static_compromised_mode = compromised_mode;
    }

    /// The password list's pick (also a password just added).
    pub fn select_static_password(&mut self, static_password: Option<u128>)
        ensures
            final(self).view() == (SelectionView { static_password, ..old(self).view() }),
    {
        self.static_password = static_password;
    }

    /// Static password `uuid` was removed: when it was picked, it goes.
    pub fn static_password_removed(&mut self, uuid: u128)
        ensures
            old(self).static_password == Some(uuid) ==> final(self).view() == (SelectionView {
                static_password: None,
                ..old(self).view()
            }),
            old(self).static_password != Some(uuid) ==> final(self).view() == old(self).view(),
    {
        if self.static_password == Some(uuid) {
            self.static_password = None;
        }
    }

    /// Folder `from` was renamed `to`: the open folder follows its name.
    pub fn folder_renamed(&mut self, from: &str, to: &str)
        ensures
            (old(self).view().folder == Some(from@)) ==> final(self).view() == (SelectionView {
                folder: Some(to@),
                ..old(self).view()
            }),
            (old(self).view().folder != Some(from@)) ==> final(self).view() == old(self).view(),
    {
        let same = match &self.folder {
            Some(f) => str_eq(f.as_str(), from),
            None => false,
        };
        if same {
            self.folder = Some(String::from_str(to));
        }
    }

    /// Folder `name` was removed, its passwords moved to the root: when it
    /// was open, the root opens instead, with no password picked.
    pub fn folder_removed(&mut self, name: &str)
        ensures
            (old(self).view().folder == Some(name@)) ==> final(self).view() == (SelectionView {
                folder: Some(Seq::<char>::empty()),
                static_password: None,
                ..old(self).view()
            }),
            (old(self).view().folder != Some(name@)) ==> final(self).view() == old(self).view(),
    {
        let same = match &self.folder {
            Some(f) => str_eq(f.as_str(), name),
            None => false,
        };
        if same {
            self.folder = Some(String::new());
            self.static_password = None;
        }
    }

    /// A folder was created: it opens.
    pub fn folder_created(&mut self, name: String)
        ensures
            final(self).view() == (SelectionView { folder: Some(name@), ..old(self).view() }),
    {
        self.folder = Some(name);
    }

    /// Switches between the compromised passwords and the others; no
    /// password stays picked. Gives the new mode.
    pub fn toggle_compromised_mode(&mut self) -> (mode: bool)
        ensures
            mode == !old(self).static_compromised_mode,
            final(self).view() == (SelectionView {
                static_compromised_mode: mode,
                static_password: None,
                ..old(self).view()
            }),
    {
        self.static_compromised_mode = !self.static_compromised_mode;
        self.static_password = None;
        self.static_compromised_mode
    }

    /// Leaves the static passwords.
    pub fn leave_static_passwords(&mut self)
        ensures
            final(self).view() == (SelectionView {
                folder: None,
                static_password: None,
                static_compromised_mode: false,
                ..old(self).view()
            }),
    {
        self.folder = None;
        self.static_password = None;
        self.static_compromised_mode = false;
    }

    /// Locking the session forgets the whole selection.
    pub fn clear(&mut self)
        ensures
            final(self).view() == nothing_selected(),
    {
        self.device = None;
        self.restriction = None;
        self.domain = None;
        self.static_password = None;
        self.folder = None;
        self.static_compromised_mode = false;
    }
}

/// The session path shown when none was chosen: the default location where
/// there is one, else `session.vaultseed`.
pub fn default_session_path(default_location: Option<String>) -> (r: String)
    ensures
        r@ == match default_location {
            Some(p) => p@,
            None => "session.vaultseed"@,
        },
{
    match default_location {
        Some(p) => p,
        None => String::from_str("session.vaultseed"),
    }
}

/// The session path of the last session, offered at login when it is not
/// blank and `exists` says that a file is there.
pub fn offered_session_path(last: Option<String>, exists: bool) -> (r: Option<String>)
    ensures
        r == (match last {
            Some(p) => if trim(p@).len() > 0 && exists {
                Some(p)
            } else {
                None
            },
            None => None,
        }),
{
    match last {
        Some(p) => {
            if trim_chars(&chars_of(p.as_str())).len() > 0 && exists {
                Some(p)
            } else {
                None
            }
        },
        None => None,
    }
}

/// A new restriction needs a name that is not blank and a picked device
/// (the one it goes under).
pub fn check_add_restriction(name: &str, device: Option<u128>) -> (r: Result<u128, String>)
    ensures
        trim(name@).len() == 0 ==> (r matches Err(e) && e@ == "O nome não pode estar vazio."@),
        trim(name@).len() > 0 && device is None ==> (r matches Err(e) && e@ == "Nenhum dispositivo selecionado."@),
        trim(name@).len() > 0 ==> (device matches Some(u) ==> r == Ok::<u128, String>(u)),
{
    if trim_chars(&chars_of(name)).len() == 0 {
        return Err(String::from_str("O nome não pode estar vazio."));
    }
    match device {
        Some(u) => Ok(u),
        None => Err(String::from_str("Nenhum dispositivo selecionado.")),
    }
}

} // verus!
