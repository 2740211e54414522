use vstd::prelude::*;
use crate::desktop::{desktop_enabled, entry_enabled, find_value, value_in_lines};
use crate::size::{format_size, size_label};
use crate::text::{
    chars_of, ends_with, has_prefix, has_suffix, lines_of, pieces_of, replace_all, replace_chars,
    slice, split_at_char, split_lines, split_words, starts_with, text_of, words_of,
};

verus! {

/// One program started at login, whatever mechanism holds it.
#[derive(Clone, Debug)]
pub struct StartupApp {
    /// Unique within one listing: a file name, or a registry value name.
    pub id: String,
    pub name: String,
    /// The program alone: the first word of the invocation.
    pub command: String,
    /// The whole invocation, arguments included; for display only.
    pub full_command: String,
    pub enabled: bool,
    /// Where later changes go: a file path, or a `REGISTRY::<hive>::<name>` locator.
    pub path: String,
    pub size: String,
    pub location: String,
    pub publisher: String,
}

/// The two registry hives whose run keys are read.
#[derive(Clone, Copy, Debug, PartialEq, Eq, Structural)]
pub enum Hive {
    CurrentUser,
    LocalMachine,
}

pub open spec fn hive_code(h: Hive) -> Seq<char> {
    match h {
        Hive::CurrentUser => "HKCU"@,
        Hive::LocalMachine => "HKLM"@,
    }
}

pub fn hive_code_text(h: Hive) -> (r: String)
    ensures
        r@ == hive_code(h),
{
    match h {
        Hive::CurrentUser => text_of(&chars_of("HKCU")),
        Hive::LocalMachine => text_of(&chars_of("HKLM")),
    }
}

/// The first word of `s`, or `fallback` where `s` has none.
pub open spec fn first_word_or(s: Seq<char>, fallback: Seq<char>) -> Seq<char> {
    if words_of(s).len() > 0 {
        words_of(s)[0]
    } else {
        fallback
    }
}

fn first_word_or_exec(s: &Vec<char>, fallback: &Vec<char>) -> (r: Vec<char>)
    ensures
        r@ == first_word_or(s@, fallback@),
{
    let words = split_words(s);
    if words.len() > 0 {
        words[0].clone()
    } else {
        fallback.clone()
    }
}

/// An invocation without a leading environment wrapper: `env GDK_BACKEND=x11 `, which
/// forces the X11 display backend, or a bare `env `.
pub open spec fn strip_env_wrapper(raw: Seq<char>) -> Seq<char> {
    if has_prefix(raw, "env GDK_BACKEND=x11 "@) {
        raw.subrange(20, raw.len() as int)
    } else if has_prefix(raw, "env "@) {
        raw.subrange(4, raw.len() as int)
    } else {
        raw
    }
}

/// The invocation of a desktop entry: its `Exec` value without a leading wrapper.
pub open spec fn desktop_full_command(content: Seq<char>) -> Seq<char> {
    let raw = match find_value(lines_of(content), "Exec"@) {
        Some(v) => v,
        None => Seq::empty(),
    };
    strip_env_wrapper(raw)
}

pub open spec fn desktop_command_of(content: Seq<char>) -> Seq<char> {
    first_word_or(desktop_full_command(content), desktop_full_command(content))
}

fn desktop_full_command_exec(content: &Vec<char>) -> (r: Vec<char>)
    ensures
        r@ == desktop_full_command(content@),
{
    let lines = split_lines(content);
    let raw = match value_in_lines(&lines, &chars_of("Exec")) {
        Some(v) => v,
        None => Vec::new(),
    };
    let backend = chars_of("env GDK_BACKEND=x11 ");
    let bare = chars_of("env ");
    proof {
        reveal_strlit("env GDK_BACKEND=x11 ");
        reveal_strlit("env ");
    }
    if starts_with(&raw, &backend) {
        slice(&raw, 20, raw.len())
    } else if starts_with(&raw, &bare) {
        slice(&raw, 4, raw.len())
    } else {
        raw
    }
}

/// The program that a desktop entry starts, whose file size is shown.
pub fn desktop_command(content: &str) -> (r: String)
    ensures
        r@ == desktop_command_of(content@),
{
    let full = desktop_full_command_exec(&chars_of(content));
    text_of(&first_word_or_exec(&full, &full))
}

/// The entry for a desktop-entry file `file_name` at `path` holding `content`;
/// `target_len` is the size of the program that it starts, where that could be read.
pub fn desktop_entry(file_name: &str, path: &str, content: &str, target_len: Option<u64>) -> (r:
    StartupApp)
    ensures
        r.id@ == file_name@,
        r.name@ == match find_value(lines_of(content@), "Name"@) {
            Some(v) => v,
            None => file_name@,
        },
        r.full_command@ == desktop_full_command(content@),
        r.command@ == desktop_command_of(content@),
        r.command@ == first_word_or(r.full_command@, r.full_command@),
        r.enabled == entry_enabled(content@),
        r.path@ == path@,
        r.size@ == size_label(target_len),
        r.location@ == "Startup Folder"@,
        r.publisher@ == "Linux Desktop Entry"@,
{
    let chars = chars_of(content);
    let lines = split_lines(&chars);
    let name = match value_in_lines(&lines, &chars_of("Name")) {
        Some(v) => text_of(&v),
        None => text_of(&chars_of(file_name)),
    };
    let full = desktop_full_command_exec(&chars);
    let command = first_word_or_exec(&full, &full);
    StartupApp {
        id: text_of(&chars_of(file_name)),
        name,
        command: text_of(&command),
        full_command: text_of(&full),
        enabled: desktop_enabled(content),
        path: text_of(&chars_of(path)),
        size: format_size(target_len),
        location: text_of(&chars_of("Startup Folder")),
        publisher: text_of(&chars_of("Linux Desktop Entry")),
    }
}

/// What `Path::extension` gives as `ext` for a file name: a dot, then `ext`, at the end,
/// with something before the dot.
pub open spec fn has_extension(file_name: Seq<char>, ext: Seq<char>) -> bool {
    file_name.len() > ext.len() + 1 && has_suffix(file_name, seq!['.'] + ext)
}

fn has_extension_exec(file_name: &Vec<char>, dot_ext: &Vec<char>) -> (r: bool)
    requires
        dot_ext@.len() > 0,
        dot_ext@[0] == '.',
    ensures
        r == has_extension(file_name@, dot_ext@.drop_first()),
{
    assert(seq!['.'] + dot_ext@.drop_first() =~= dot_ext@);
    file_name.len() > dot_ext.len() && ends_with(file_name, dot_ext)
}

/// A file that the startup folder runs: a shortcut, a batch or command script, or a program.
pub open spec fn is_launcher(file_name: Seq<char>) -> bool {
    has_extension(file_name, "lnk"@) || has_extension(file_name, "bat"@) || has_extension(
        file_name,
        "cmd"@,
    ) || has_extension(file_name, "exe"@)
}

/// The entry for a file `file_name` at `path` in the startup folder, of `len` bytes where
/// that could be read; `None` for a file that the folder does not run.
pub fn folder_entry(file_name: &str, path: &str, len: Option<u64>) -> (r: Option<StartupApp>)
    ensures
        r is Some <==> is_launcher(file_name@),
        r matches Some(app) ==> {
            &&& app.id@ == file_name@
            &&& app.name@ == replace_all(file_name@, ".lnk"@, Seq::empty())
            &&& app.command@ == path@
            &&& app.full_command@ == path@
            &&& app.command@ == app.full_command@
            &&& app.enabled
            &&& app.path@ == path@
            &&& app.size@ == if has_extension(file_name@, "lnk"@) {
                "Shortcut"@
            } else {
                size_label(len)
            }
            &&& app.location@ == "Startup Folder"@
            &&& app.publisher@ == "Unknown"@
        },
{
    let name = chars_of(file_name);
    let lnk = chars_of(".lnk");
    let bat = chars_of(".bat");
    let cmd = chars_of(".cmd");
    let exe = chars_of(".exe");
    proof {
        reveal_strlit(".lnk");
        reveal_strlit(".bat");
        reveal_strlit(".cmd");
        reveal_strlit(".exe");
        reveal_strlit("lnk");
        reveal_strlit("bat");
        reveal_strlit("cmd");
        reveal_strlit("exe");
        assert(lnk@.drop_first() =~= "lnk"@);
        assert(bat@.drop_first() =~= "bat"@);
        assert(cmd@.drop_first() =~= "cmd"@);
        assert(exe@.drop_first() =~= "exe"@);
    }
    let is_shortcut = has_extension_exec(&name, &lnk);
    if !(is_shortcut || has_extension_exec(&name, &bat) || has_extension_exec(&name, &cmd)
        || has_extension_exec(&name, &exe)) {
        return None;
    }
    let size = if is_shortcut {
        text_of(&chars_of("Shortcut"))
    } else {
        format_size(len)
    };
    let empty: Vec<char> = Vec::new();
    Some(
        StartupApp {
            id: text_of(&name),
            name: text_of(&replace_chars(&name, &lnk, &empty)),
            command: text_of(&chars_of(path)),
            full_command: text_of(&chars_of(path)),
            enabled: true,
            path: text_of(&chars_of(path)),
            size,
            location: text_of(&chars_of("Startup Folder")),
            publisher: text_of(&chars_of("Unknown")),
        },
    )
}

/// The program of a registry command: a leading quoted path, whole, up to the closing
/// quote (or the end); else the first word, or the whole command where it has none.
pub open spec fn registry_command_of(full: Seq<char>) -> Seq<char> {
    if full.len() > 0 && full[0] == '"' {
        pieces_of(full.drop_first(), '"')[0]
    } else {
        first_word_or(full, full)
    }
}

pub fn registry_command(full: &str) -> (r: String)
    ensures
        r@ == registry_command_of(full@),
{
    let chars = chars_of(full);
    if chars.len() > 0 && chars[0] == '"' {
        let rest = slice(&chars, 1, chars.len());
        assert(rest@ =~= chars@.drop_first());
        let pieces = split_at_char(&rest, '"');
        assert(pieces_of(rest@, '"').len() > 0);
        assert(crate::text::views(pieces@).len() == pieces@.len());
        assert(crate::text::views(pieces@)[0] == pieces@[0]@);
        text_of(&pieces[0])
    } else {
        text_of(&first_word_or_exec(&chars, &chars))
    }
}

/// The locator of a run-key value: `REGISTRY::<hive>::<name>`.
pub open spec fn registry_path_of(hive: Hive, name: Seq<char>) -> Seq<char> {
    "REGISTRY::"@ + hive_code(hive) + "::"@ + name
}

pub fn registry_path(hive: Hive, name: &str) -> (r: String)
    ensures
        r@ == registry_path_of(hive, name@),
{
    let mut out = chars_of("REGISTRY::");
    crate::text::append_chars(&mut out, &chars_of(hive_code_text(hive).as_str()));
    crate::text::append_chars(&mut out, &chars_of("::"));
    crate::text::append_chars(&mut out, &chars_of(name));
    assert(out@ =~= registry_path_of(hive, name@));
    text_of(&out)
}

/// The entry for the run-key value `name` of `hive` holding the command `value`; `target_len`
/// is the size of its program, where that file exists and could be read.
pub fn registry_entry(hive: Hive, name: &str, value: &str, target_len: Option<u64>) -> (r:
    StartupApp)
    ensures
        r.id@ == name@,
        r.name@ == name@,
        r.command@ == registry_command_of(value@),
        r.full_command@ == value@,
        r.command@ == registry_command_of(r.full_command@),
        r.enabled,
        r.path@ == registry_path_of(hive, name@),
        r.size@ == size_label(target_len),
        r.location@ == match hive {
            Hive::CurrentUser => "Registry (HKCU)"@,
            Hive::LocalMachine => "Registry (HKLM)"@,
        },
        r.publisher@ == match hive {
            Hive::CurrentUser => "Unknown"@,
            Hive::LocalMachine => "System"@,
        },
{
    let (location, publisher) = match hive {
        Hive::CurrentUser => (text_of(&chars_of("Registry (HKCU)")), text_of(&chars_of("Unknown"))),
        Hive::LocalMachine => (text_of(&chars_of("Registry (HKLM)")), text_of(&chars_of("System"))),
    };
    StartupApp {
        id: text_of(&chars_of(name)),
        name: text_of(&chars_of(name)),
        command: registry_command(value),
        full_command: text_of(&chars_of(value)),
        enabled: true,
        path: registry_path(hive, name),
        size: format_size(target_len),
        location,
        publisher,
    }
}

/// A desktop-entry file: one with the extension `desktop`.
pub fn is_desktop_file(file_name: &str) -> (r: bool)
    ensures
        r == has_extension(file_name@, "desktop"@),
{
    let dot_ext = chars_of(".desktop");
    proof {
        reveal_strlit(".desktop");
        reveal_strlit("desktop");
        assert(dot_ext@.drop_first() =~= "desktop"@);
    }
    has_extension_exec(&chars_of(file_name), &dot_ext)
}

} // verus!
