//! The static-password panel: the folders with their counts, the passwords
//! of the open folder (normal or compromised), which folder stays selected
//! when folders change, and the checks of its forms.

use vstd::prelude::*;
use crate::text::{trim, trim_chars, chars_of, chars_eq, str_eq, string_from_chars};
use crate::export_build::StaticEntry;

verus! {

/// A folder as the panel lists it.
pub struct FolderItem {
    pub name: String,
    pub display_name: String,
    pub normal_count: i32,
    pub compromised_count: i32,
}

/// How many passwords of `s` are in folder `f` with the compromised mark
/// `c`.
pub open spec fn count_in(s: Seq<StaticEntry>, f: Seq<char>, c: bool) -> nat
    decreases s.len(),
{
    if s.len() == 0 {
        0
    } else {
        count_in(s.drop_last(), f, c) + if s.last().folder_path@ == f && s.last().compromised == c {
            1nat
        } else {
            0nat
        }
    }
}

proof fn lemma_count_bound(s: Seq<StaticEntry>, f: Seq<char>, c: bool)
    ensures
        count_in(s, f, c) <= s.len(),
    decreases s.len(),
{
    if s.len() > 0 {
        lemma_count_bound(s.drop_last(), f, c);
    }
}

fn count_passwords(all: &Vec<StaticEntry>, folder: &Vec<char>, compromised: bool) -> (r: usize)
    ensures
        r as nat == count_in(all@, folder@, compromised),
{
    let mut n: usize = 0;
    let mut i: usize = 0;
    while i < all.len()
        invariant
            i <= all.len(),
            n as nat == count_in(all@.take(i as int), folder@, compromised),
            n <= i,
        decreases all.len() - i,
    {
        assert(all@.take(i + 1).drop_last() =~= all@.take(i as int));
        if all[i].compromised == compromised && chars_eq(&chars_of(all[i].folder_path.as_str()), folder) {
            n = n + 1;
        }
        i = i + 1;
    }
    assert(all@.take(all.len() as int) =~= all@);
    n
}

/// The name under which a folder is shown: the root has none of its own.
pub open spec fn folder_display(name: Seq<char>) -> Seq<char> {
    if name.len() == 0 {
        "(raiz)"@
    } else {
        name
    }
}

/// The folders of a device with the number of normal and of compromised
/// passwords in each.
pub fn folder_items(folders: &Vec<String>, all: &Vec<StaticEntry>) -> (r: Vec<FolderItem>)
    ensures
        r@.len() == folders@.len(),
        forall|i: int|
            0 <= i < folders@.len() ==> {
                &&& (#[trigger] r@[i]).name@ == folders@[i]@
                &&& r@[i].display_name@ == folder_display(folders@[i]@)
                &&& r@[i].normal_count == count_in(all@, folders@[i]@, false) as i32
                &&& r@[i].compromised_count == count_in(all@, folders@[i]@, true) as i32
            },
{
    let mut r: Vec<FolderItem> = Vec::new();
    let mut i: usize = 0;
    while i < folders.len()
        invariant
            i <= folders.len(),
            r@.len() == i,
            forall|j: int|
                0 <= j < i ==> {
                    &&& (#[trigger] r@[j]).name@ == folders@[j]@
                    &&& r@[j].display_name@ == folder_display(folders@[j]@)
                    &&& r@[j].normal_count == count_in(all@, folders@[j]@, false) as i32
                    &&& r@[j].compromised_count == count_in(all@, folders@[j]@, true) as i32
                },
        decreases folders.len() - i,
    {
        let name = &folders[i];
        let f = chars_of(name.as_str());
        let normal = count_passwords(all, &f, false);
        let compromised = count_passwords(all, &f, true);
        let display = if f.len() == 0 {
            String::from_str("(raiz)")
        } else {
            name.clone()
        };
        r.push(FolderItem {
            name: name.clone(),
            display_name: display,
            normal_count: normal as i32,
            compromised_count: compromised as i32,
        });
        i = i + 1;
    }
    r
}

/// The passwords of `s` in folder `f` with the compromised mark `c`, in
/// order.
pub open spec fn shown_in(s: Seq<StaticEntry>, f: Seq<char>, c: bool) -> Seq<StaticEntry>
    decreases s.len(),
{
    if s.len() == 0 {
        seq![]
    } else if s.last().folder_path@ == f && s.last().compromised == c {
        shown_in(s.drop_last(), f, c).push(s.last())
    } else {
        shown_in(s.drop_last(), f, c)
    }
}

/// The identifiers of the passwords that the open folder shows.
pub fn shown_passwords(all: &Vec<StaticEntry>, folder: &str, compromised: bool) -> (r: Vec<u128>)
    ensures
        r@ == shown_in(all@, folder@, compromised).map_values(|sp: StaticEntry| sp.uuid),
{
    let f = chars_of(folder);
    let mut r: Vec<u128> = Vec::new();
    let mut i: usize = 0;
    while i < all.len()
        invariant
            i <= all.len(),
            f@ == folder@,
            r@ == shown_in(all@.take(i as int), folder@, compromised).map_values(|sp: StaticEntry| sp.uuid),
        decreases all.len() - i,
    {
        assert(all@.take(i + 1).drop_last() =~= all@.take(i as int));
        if all[i].compromised == compromised && chars_eq(&chars_of(all[i].folder_path.as_str()), &f) {
            r.push(all[i].uuid);
            assert(r@ =~= shown_in(all@.take(i + 1), folder@, compromised).map_values(
                |sp: StaticEntry| sp.uuid,
            ));
        }
        i = i + 1;
    }
    assert(all@.take(all.len() as int) =~= all@);
    r
}

/// The index of the selected folder among the folders, or -1.
pub fn selected_folder_index(folders: &Vec<String>, selected: &Option<String>) -> (r: i32)
    requires
        folders@.len() <= i32::MAX,
    ensures
        selected is None ==> r == -1,
        selected matches Some(f) ==> ((forall|j: int| 0 <= j < folders@.len() ==> folders@[j]@ != f@) ==> r
            == -1),
        selected matches Some(f) ==> ((exists|j: int| 0 <= j < folders@.len() && folders@[j]@ == f@) ==> (0
            <= r < folders@.len() && folders@[r as int]@ == f@ && forall|j: int| 0 <= j < r ==> folders@[j]@ != f@)),
{
    match selected {
        None => -1,
        Some(f) => {
            let mut i: usize = 0;
            while i < folders.len()
                invariant
                    i <= folders.len(),
                    folders@.len() <= i32::MAX,
                    *selected == Some(*f),
                    forall|j: int| 0 <= j < i ==> folders@[j]@ != f@,
                decreases folders.len() - i,
            {
                if str_eq(folders[i].as_str(), f.as_str()) {
                    return i as i32;
                }
                i = i + 1;
            }
            -1
        },
    }
}

/// Adding a static password: a label and a value that are not blank, both
/// keys, and a selected device.
pub fn check_add_static(label: &str, value: &str, k1: &str, k2: &str, device_selected: bool) -> (r: Result<(), String>)
    ensures
        trim(label@).len() == 0 ==> (r matches Err(e) && e@ == "A etiqueta não pode estar vazia."@),
        trim(label@).len() > 0 && trim(value@).len() == 0 ==> (r matches Err(e) && e@
            == "O valor não pode estar vazio."@),
        trim(label@).len() > 0 && trim(value@).len() > 0 && (k1@.len() == 0 || k2@.len() == 0) ==> (r matches Err(
            e,
        ) && e@ == "K1 e K2 são obrigatórios."@),
        trim(label@).len() > 0 && trim(value@).len() > 0 && k1@.len() > 0 && k2@.len() > 0 && !device_selected ==> (
        r matches Err(e) && e@ == "Nenhum dispositivo seleccionado."@),
        trim(label@).len() > 0 && trim(value@).len() > 0 && k1@.len() > 0 && k2@.len() > 0 && device_selected
            ==> r is Ok,
{
    if trim_chars(&chars_of(label)).len() == 0 {
        return Err(String::from_str("A etiqueta não pode estar vazia."));
    }
    if trim_chars(&chars_of(value)).len() == 0 {
        return Err(String::from_str("O valor não pode estar vazio."));
    }
    if k1.unicode_len() == 0 || k2.unicode_len() == 0 {
        return Err(String::from_str("K1 e K2 são obrigatórios."));
    }
    if !device_selected {
        return Err(String::from_str("Nenhum dispositivo seleccionado."));
    }
    Ok(())
}

/// Renaming a folder: a new name that is not blank and differs from the old.
pub fn check_rename_folder(old: &str, new: &str, device_selected: bool) -> (r: Result<(), String>)
    ensures
        trim(new@).len() == 0 ==> (r matches Err(e) && e@ == "O novo nome não pode estar vazio."@),
        trim(new@).len() > 0 && old@ == new@ ==> (r matches Err(e) && e@ == "O nome é igual ao actual."@),
        trim(new@).len() > 0 && old@ != new@ && !device_selected ==> (r matches Err(e) && e@
            == "Nenhum dispositivo seleccionado."@),
        trim(new@).len() > 0 && old@ != new@ && device_selected ==> r is Ok,
{
    if trim_chars(&chars_of(new)).len() == 0 {
        return Err(String::from_str("O novo nome não pode estar vazio."));
    }
    if str_eq(old, new) {
        return Err(String::from_str("O nome é igual ao actual."));
    }
    if !device_selected {
        return Err(String::from_str("Nenhum dispositivo seleccionado."));
    }
    Ok(())
}

/// The root folder cannot be removed.
pub fn check_remove_folder(name: &str) -> (r: Result<(), String>)
    ensures
        r is Ok <==> name@.len() > 0,
        r matches Err(e) ==> e@ == "Não é possível remover a pasta raiz."@,
{
    if name.unicode_len() == 0 {
        Err(String::from_str("Não é possível remover a pasta raiz."))
    } else {
        Ok(())
    }
}

/// A new folder's name, trimmed, which must not be blank.
pub fn check_create_folder(name: &str, device_selected: bool) -> (r: Result<String, String>)
    ensures
        trim(name@).len() == 0 ==> (r matches Err(e) && e@ == "O nome da pasta não pode estar vazio."@),
        trim(name@).len() > 0 && !device_selected ==> (r matches Err(e) && e@ == "Nenhum dispositivo seleccionado."@),
        trim(name@).len() > 0 && device_selected ==> (r matches Ok(n) && n@ == trim(name@)),
{
    let t = trim_chars(&chars_of(name));
    if t.len() == 0 {
        return Err(String::from_str("O nome da pasta não pode estar vazio."));
    }
    if !device_selected {
        return Err(String::from_str("Nenhum dispositivo seleccionado."));
    }
    Ok(string_from_chars(&t))
}

} // verus!
