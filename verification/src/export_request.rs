//! An export request: the checks made before exporting, where the file goes,
//! its format, and the bytes written (text formats start with a UTF-8 byte
//! order mark).

use vstd::prelude::*;
use crate::text::{trim, chars_of, trim_chars, str_eq, push_chars, push_str, push_char, sub_chars};
use crate::export_tree::ExportSummary;

verus! {

/// The format of an exported file.
#[derive(PartialEq, Eq, Structural, Clone, Copy, Debug)]
pub enum ExportFormat {
    Csv,
    Json,
    Txt,
}

/// The format that the user interface names `s`: `json`, `txt`, anything
/// else CSV.
pub open spec fn format_of(s: Seq<char>) -> ExportFormat {
    if s == "json"@ {
        ExportFormat::Json
    } else if s == "txt"@ {
        ExportFormat::Txt
    } else {
        ExportFormat::Csv
    }
}

pub fn parse_export_format(s: &str) -> (r: ExportFormat)
    ensures
        r == format_of(s@),
{
    if str_eq(s, "json") {
        ExportFormat::Json
    } else if str_eq(s, "txt") {
        ExportFormat::Txt
    } else {
        ExportFormat::Csv
    }
}

/// `s` without its trailing `c`s.
pub open spec fn strip_trailing(s: Seq<char>, c: char) -> Seq<char>
    decreases s.len(),
{
    if s.len() > 0 && s.last() == c {
        strip_trailing(s.drop_last(), c)
    } else {
        s
    }
}

/// Where the export goes: the folder without trailing slashes, a slash, the
/// trimmed file name, a dot and the format as the user interface names it.
pub open spec fn export_path_text(folder: Seq<char>, file_name: Seq<char>, format: Seq<char>) -> Seq<char> {
    strip_trailing(folder, '/') + seq!['/'] + trim(file_name) + seq!['.'] + format
}

/// The error of an export request, if it has one.
pub open spec fn export_error(
    file_name: Seq<char>,
    folder: Seq<char>,
    k1: Seq<char>,
    k2: Seq<char>,
    selected: int,
) -> Option<Seq<char>> {
    if trim(file_name).len() == 0 {
        Some("O nome do ficheiro não pode estar vazio."@)
    } else if trim(folder).len() == 0 {
        Some("A pasta de destino não pode estar vazia."@)
    } else if k1.len() == 0 || k2.len() == 0 {
        Some("K1 e K2 são obrigatórios para desencriptar as seeds dos dispositivos."@)
    } else if selected == 0 {
        Some("Selecione pelo menos um domínio ou senha estática."@)
    } else {
        None
    }
}

/// A checked export request: where to write and in which format.
pub struct ExportPlan {
    pub path: String,
    pub format: ExportFormat,
}

/// Checks an export request and works out the file's path and format.
pub fn plan_export(
    file_name: &str,
    folder_path: &str,
    format: &str,
    k1: &str,
    k2: &str,
    summary: &ExportSummary,
) -> (r: Result<ExportPlan, String>)
    requires
        i32::MIN <= summary.domain_count + summary.static_count <= i32::MAX,
    ensures
        match export_error(
            file_name@,
            folder_path@,
            k1@,
            k2@,
            summary.domain_count + summary.static_count,
        ) {
            Some(e) => r matches Err(m) && m@ == e,
            None => r matches Ok(p) && p.path@ == export_path_text(folder_path@, file_name@, format@)
                && p.format == format_of(format@),
        },
{
    let name = trim_chars(&chars_of(file_name));
    if name.len() == 0 {
        return Err(String::from_str("O nome do ficheiro não pode estar vazio."));
    }
    let folder = chars_of(folder_path);
    if trim_chars(&folder).len() == 0 {
        return Err(String::from_str("A pasta de destino não pode estar vazia."));
    }
    if k1.unicode_len() == 0 || k2.unicode_len() == 0 {
        return Err(String::from_str("K1 e K2 são obrigatórios para desencriptar as seeds dos dispositivos."));
    }
    if summary.domain_count + summary.static_count == 0 {
        return Err(String::from_str("Selecione pelo menos um domínio ou senha estática."));
    }
    let mut end: usize = folder.len();
    assert(folder@.take(end as int) =~= folder@);
    while end > 0 && folder[end - 1] == '/'
        invariant
            end <= folder.len(),
            strip_trailing(folder@, '/') == strip_trailing(folder@.take(end as int), '/'),
        decreases end,
    {
        assert(folder@.take(end as int).drop_last() =~= folder@.take(end - 1));
        end = end - 1;
    }
    assert(strip_trailing(folder@.take(end as int), '/') == folder@.take(end as int));
    let base = sub_chars(&folder, 0, end);
    let mut path = String::new();
    push_chars(&mut path, &base);
    push_char(&mut path, '/');
    push_chars(&mut path, &name);
    push_char(&mut path, '.');
    push_str(&mut path, format);
    assert(base@ =~= folder@.take(end as int));
    assert(path@ =~= export_path_text(folder_path@, file_name@, format@));
    Ok(ExportPlan { path, format: parse_export_format(format) })
}

/// The UTF-8 byte order mark.
pub open spec fn bom() -> Seq<u8> {
    seq![0xEFu8, 0xBBu8, 0xBFu8]
}

/// The bytes of an exported file: the content, after a byte order mark for
/// CSV and text.
pub open spec fn framed(content: Seq<u8>, format: ExportFormat) -> Seq<u8> {
    if format == ExportFormat::Json {
        content
    } else {
        bom() + content
    }
}

pub fn frame_export(content: &Vec<u8>, format: ExportFormat) -> (r: Vec<u8>)
    ensures
        r@ == framed(content@, format),
{
    let mut bytes: Vec<u8> = Vec::new();
    if format != ExportFormat::Json {
        bytes.push(0xEF);
        bytes.push(0xBB);
        bytes.push(0xBF);
    }
    let ghost start = bytes@;
    let mut i: usize = 0;
    while i < content.len()
        invariant
            i <= content.len(),
            bytes@ == start + content@.take(i as int),
        decreases content.len() - i,
    {
        bytes.push(content[i]);
        i = i + 1;
        assert(bytes@ =~= start + content@.take(i as int));
    }
    assert(content@.take(content.len() as int) =~= content@);
    assert(bytes@ =~= framed(content@, format));
    bytes
}

} // verus!
