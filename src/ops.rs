use vstd::prelude::*;
use crate::entry::Hive;
use crate::text::{
    append_chars, chars_of, has_prefix, has_suffix, lower_of, lowercase, occurs_at,
    occurs_at_exec, slice, starts_with, ends_with, text_of,
};

verus! {

/// The platform that decides which mechanism holds the startup entries.
#[derive(Clone, Copy, Debug, PartialEq, Eq, Structural)]
pub enum Platform {
    /// Desktop-entry files in the user's autostart directory.
    Linux,
    /// Files in the startup folder, and values under the two run keys.
    Windows,
    /// No startup mechanism is known.
    Other,
}

/// What an entry's `path` denotes.
#[derive(Clone, Debug)]
pub enum Locator {
    File { path: String },
    Registry { hive: Hive, name: String },
}

/// What to do with the backing store of an entry to switch it.
#[derive(Clone, Debug)]
pub enum ToggleAction {
    /// Rewrite the desktop-entry file at the path with the new state.
    RewriteDesktop,
    /// Rename the file to this path.
    Rename { to: String },
    /// Nothing to change.
    Keep,
}

pub open spec fn registry_marker() -> Seq<char> {
    "REGISTRY::"@
}

pub open spec fn is_registry_path(p: Seq<char>) -> bool {
    has_prefix(p, registry_marker())
}

pub fn is_registry_locator(path: &str) -> (r: bool)
    ensures
        r == is_registry_path(path@),
{
    starts_with(&chars_of(path), &chars_of("REGISTRY::"))
}

/// `p` occurs at `k` and nowhere before.
pub open spec fn first_at(s: Seq<char>, p: Seq<char>, k: int) -> bool {
    occurs_at(s, p, k) && forall|i: int| 0 <= i < k ==> !occurs_at(s, p, i)
}

pub open spec fn occurs(s: Seq<char>, p: Seq<char>) -> bool {
    exists|i: int| occurs_at(s, p, i)
}

fn find_first(s: &Vec<char>, p: &Vec<char>) -> (r: Option<usize>)
    ensures
        r matches Some(k) ==> first_at(s@, p@, k as int),
        r is None ==> !occurs(s@, p@),
{
    if p.len() == 0 {
        assert(s@.subrange(0, 0) =~= p@);
        return Some(0);
    }
    if p.len() > s.len() {
        return None;
    }
    let end = s.len() - p.len() + 1;
    let mut i: usize = 0;
    while i < end
        invariant
            end == s@.len() - p@.len() + 1,
            i <= end,
            forall|j: int| 0 <= j < i ==> !occurs_at(s@, p@, j),
        decreases end - i,
    {
        if occurs_at_exec(s, p, i) {
            return Some(i);
        }
        i = i + 1;
    }
    None
}

pub open spec fn hive_of_code(code: Seq<char>) -> Option<Hive> {
    if code == "HKCU"@ {
        Some(Hive::CurrentUser)
    } else if code == "HKLM"@ {
        Some(Hive::LocalMachine)
    } else {
        None
    }
}

/// The hive and value name of a registry locator `REGISTRY::<hive>::<name>`: the hive
/// code runs to the next `::`, and must be `HKCU` or `HKLM`; the name is everything
/// after it, `::` included.
pub open spec fn registry_parts(p: Seq<char>) -> Option<(Hive, Seq<char>)> {
    let rest = p.subrange(10, p.len() as int);
    if exists|k: int| first_at(rest, "::"@, k) {
        let k = choose|k: int| first_at(rest, "::"@, k);
        match hive_of_code(rest.subrange(0, k)) {
            Some(h) => Some((h, rest.subrange(k + 2, rest.len() as int))),
            None => None,
        }
    } else {
        None
    }
}

/// The target of a deletion: on Windows a registry locator is parsed, and fails with
/// "Invalid registry path format" where it has no `::` after the hive code or names no
/// known hive; any other path is a file.
pub fn delete_target(platform: Platform, path: &str) -> (r: Result<Locator, String>)
    ensures
        !(platform == Platform::Windows && is_registry_path(path@)) ==> (r matches Ok(
            Locator::File { path: f },
        ) && f@ == path@),
        platform == Platform::Windows && is_registry_path(path@) ==> match registry_parts(path@) {
            Some((h, n)) => (r matches Ok(Locator::Registry { hive, name }) && hive == h && name@
                == n),
            None => (r matches Err(e) && e@ == "Invalid registry path format"@),
        },
{
    let chars = chars_of(path);
    let marker = chars_of("REGISTRY::");
    proof {
        reveal_strlit("REGISTRY::");
    }
    if platform != Platform::Windows || !starts_with(&chars, &marker) {
        return Ok(Locator::File { path: text_of(&chars) });
    }
    let rest = slice(&chars, 10, chars.len());
    let sep = chars_of("::");
    proof {
        reveal_strlit("::");
    }
    match find_first(&rest, &sep) {
        None => Err(text_of(&chars_of("Invalid registry path format"))),
        Some(k) => {
            assert forall|k2: int| first_at(rest@, "::"@, k2) implies k2 == k by {
                if k2 < k {
                    assert(!occurs_at(rest@, "::"@, k2));
                }
                if k < k2 {
                    assert(!occurs_at(rest@, "::"@, k as int));
                }
            }
            let name = slice(&rest, k + 2, rest.len());
            let code = slice(&rest, 0, k);
            let hive = if crate::text::same_text(&code, &chars_of("HKCU")) {
                Hive::CurrentUser
            } else if crate::text::same_text(&code, &chars_of("HKLM")) {
                Hive::LocalMachine
            } else {
                return Err(text_of(&chars_of("Invalid registry path format")));
            };
            Ok(Locator::Registry { hive, name: text_of(&name) })
        },
    }
}

pub open spec fn disabled_suffix() -> Seq<char> {
    ".disabled"@
}

pub open spec fn is_separator(c: char) -> bool {
    c == '/' || c == '\\'
}

/// The file at `p` has the extension `disabled`: its name ends in `.disabled` after
/// at least one other character.
pub open spec fn is_disabled_path(p: Seq<char>) -> bool {
    p.len() > 9 && has_suffix(p, disabled_suffix()) && !is_separator(p[p.len() - 10])
}

/// How switching the entry at `path` on or off is done: a desktop entry is rewritten; a
/// file of the startup folder is renamed to take or lose the `.disabled` extension, and
/// one already on stays as it is; a registry value cannot be switched.
pub fn toggle_action(platform: Platform, path: &str, enable: bool) -> (r: Result<
    ToggleAction,
    String,
>)
    ensures
        platform == Platform::Linux ==> (r matches Ok(ToggleAction::RewriteDesktop)),
        platform == Platform::Other ==> (r matches Err(e) && e@ == "Not supported on this OS"@),
        platform == Platform::Windows && is_registry_path(path@) ==> (r matches Err(e) && e@
            == "Toggling Registry apps is not supported yet. Use Delete."@),
        platform == Platform::Windows && !is_registry_path(path@) && !enable ==> (r matches Ok(
            ToggleAction::Rename { to },
        ) && to@ == path@ + disabled_suffix()),
        platform == Platform::Windows && !is_registry_path(path@) && enable && is_disabled_path(
            path@,
        ) ==> (r matches Ok(ToggleAction::Rename { to }) && to@ == path@.subrange(
            0,
            path@.len() - 9,
        )),
        platform == Platform::Windows && !is_registry_path(path@) && enable && !is_disabled_path(
            path@,
        ) ==> (r matches Ok(ToggleAction::Keep)),
{
    match platform {
        Platform::Linux => Ok(ToggleAction::RewriteDesktop),
        Platform::Other => Err(text_of(&chars_of("Not supported on this OS"))),
        Platform::Windows => {
            if is_registry_locator(path) {
                return Err(
                    text_of(&chars_of("Toggling Registry apps is not supported yet. Use Delete.")),
                );
            }
            let chars = chars_of(path);
            let suffix = chars_of(".disabled");
            proof {
                reveal_strlit(".disabled");
            }
            if enable {
                let n = chars.len();
                if n > 9 && ends_with(&chars, &suffix) && chars[n - 10] != '/' && chars[n - 10]
                    != '\\' {
                    Ok(ToggleAction::Rename { to: text_of(&slice(&chars, 0, n - 9)) })
                } else {
                    Ok(ToggleAction::Keep)
                }
            } else {
                let mut to = chars.clone();
                append_chars(&mut to, &suffix);
                Ok(ToggleAction::Rename { to: text_of(&to) })
            }
        },
    }
}

/// A character that a file name cannot hold as it is: a space or a path separator.
pub open spec fn is_unsafe_char(c: char) -> bool {
    c == ' ' || c == '/' || c == '\\'
}

/// The file name made of a display name: lower-cased, then each space and path
/// separator replaced by a hyphen. Lower-casing never yields these characters, and a
/// hyphen in their place gives the same result as the characters themselves, so the
/// order of the two steps does not matter.
pub open spec fn safe_name_of(name: Seq<char>) -> Seq<char> {
    lower_of(name).map_values(|c: char| if is_unsafe_char(c) { '-' } else { c })
}

pub fn safe_file_name(name: &str) -> (r: String)
    ensures
        r@ == safe_name_of(name@),
{
    let lower = lowercase(&chars_of(name));
    let mut out: Vec<char> = Vec::new();
    let mut i: usize = 0;
    while i < lower.len()
        invariant
            i <= lower@.len(),
            lower@ == lower_of(name@),
            out@ == lower@.subrange(0, i as int).map_values(
                |c: char| if is_unsafe_char(c) { '-' } else { c },
            ),
        decreases lower@.len() - i,
    {
        let c = lower[i];
        out.push(if c == ' ' || c == '/' || c == '\\' { '-' } else { c });
        i = i + 1;
        assert(out@ =~= lower@.subrange(0, i as int).map_values(
            |c: char| if is_unsafe_char(c) { '-' } else { c },
        ));
    }
    assert(lower@.subrange(0, i as int) =~= lower@);
    text_of(&out)
}

/// A file name made safe holds no space and no path separator, and each of its
/// characters is the lower-cased name's character at that place or a hyphen.
pub proof fn lemma_safe_name(name: Seq<char>)
    ensures
        safe_name_of(name).len() == lower_of(name).len(),
        forall|i: int|
            0 <= i < safe_name_of(name).len() ==> !is_unsafe_char(#[trigger] safe_name_of(name)[i]),
        forall|i: int|
            0 <= i < safe_name_of(name).len() ==> #[trigger] safe_name_of(name)[i] == lower_of(
                name,
            )[i] || safe_name_of(name)[i] == '-',
{
}

pub open spec fn desktop_template(name: Seq<char>, command: Seq<char>, description: Seq<char>) -> Seq<
    char,
> {
    "[Desktop Entry]\nType=Application\nName="@ + name + "\nExec="@ + command + "\nComment="@
        + description + "\nHidden=false\nX-GNOME-Autostart-enabled=true\n"@
}

pub open spec fn launcher_script(command: Seq<char>) -> Seq<char> {
    "@echo off\nstart \"\" \""@ + command + "\""@
}

/// The file that creating an entry writes, as its name and its content: a desktop entry,
/// enabled, or a batch script that starts the command; on another platform, an error.
pub fn create_file(platform: Platform, name: &str, command: &str, description: &str) -> (r:
    Result<(String, String), String>)
    ensures
        platform == Platform::Linux ==> (r matches Ok((f, c)) && f@ == safe_name_of(name@)
            + ".desktop"@ && c@ == desktop_template(name@, command@, description@)),
        platform == Platform::Windows ==> (r matches Ok((f, c)) && f@ == safe_name_of(name@)
            + ".bat"@ && c@ == launcher_script(command@)),
        platform == Platform::Other ==> (r matches Err(e) && e@ == "Not supported on this OS"@),
{
    if platform == Platform::Other {
        return Err(text_of(&chars_of("Not supported on this OS")));
    }
    let mut file = chars_of(safe_file_name(name).as_str());
    let mut content: Vec<char>;
    if platform == Platform::Linux {
        append_chars(&mut file, &chars_of(".desktop"));
        content = chars_of("[Desktop Entry]\nType=Application\nName=");
        append_chars(&mut content, &chars_of(name));
        append_chars(&mut content, &chars_of("\nExec="));
        append_chars(&mut content, &chars_of(command));
        append_chars(&mut content, &chars_of("\nComment="));
        append_chars(&mut content, &chars_of(description));
        append_chars(&mut content, &chars_of("\nHidden=false\nX-GNOME-Autostart-enabled=true\n"));
        assert(content@ =~= desktop_template(name@, command@, description@));
    } else {
        append_chars(&mut file, &chars_of(".bat"));
        content = chars_of("@echo off\nstart \"\" \"");
        append_chars(&mut content, &chars_of(command));
        append_chars(&mut content, &chars_of("\""));
        assert(content@ =~= launcher_script(command@));
    }
    Ok((text_of(&file), text_of(&content)))
}

/// The message for a failed deletion: a hint to run elevated where permission was
/// denied, else the underlying error as it is.
pub fn delete_error_text(target: &Locator, permission_denied: bool, detail: &str) -> (r: String)
    ensures
        permission_denied && target is Registry ==> r@
            == "Access Denied: Please run the app as Administrator to delete system items."@,
        permission_denied && target is File ==> r@
            == "Access Denied: Please run the app as Administrator to delete this file."@,
        !permission_denied ==> r@ == detail@,
{
    if !permission_denied {
        text_of(&chars_of(detail))
    } else {
        match target {
            Locator::Registry { .. } => text_of(
                &chars_of("Access Denied: Please run the app as Administrator to delete system items."),
            ),
            Locator::File { .. } => text_of(
                &chars_of("Access Denied: Please run the app as Administrator to delete this file."),
            ),
        }
    }
}

/// The locator under which a run-key value is listed parses back to that hive and that
/// value name, whatever the name holds.
pub proof fn lemma_registry_path_round_trip(hive: Hive, name: Seq<char>)
    ensures
        is_registry_path(crate::entry::registry_path_of(hive, name)),
        registry_parts(crate::entry::registry_path_of(hive, name)) == Some((hive, name)),
{
    reveal_strlit("REGISTRY::");
    reveal_strlit("HKCU");
    reveal_strlit("HKLM");
    reveal_strlit("::");
    let p = crate::entry::registry_path_of(hive, name);
    let code = crate::entry::hive_code(hive);
    assert(p.subrange(0, 10) =~= registry_marker());
    let rest = p.subrange(10, p.len() as int);
    assert(rest =~= code + "::"@ + name);
    assert(rest.subrange(4, 6) =~= "::"@);
    assert forall|i: int| 0 <= i < 4 implies !occurs_at(rest, "::"@, i) by {
        assert(rest.subrange(i, i + 2)[0] == rest[i]);
        assert(rest[i] == code[i]);
    }
    assert(first_at(rest, "::"@, 4));
    let k = choose|k: int| first_at(rest, "::"@, k);
    if k < 4 {
        assert(!occurs_at(rest, "::"@, k));
    }
    if k > 4 {
        assert(!occurs_at(rest, "::"@, 4));
    }
    assert(rest.subrange(0, 4) =~= code);
    assert(rest.subrange(6, rest.len() as int) =~= name);
    assert(k == 4);
    assert("HKLM"@[2] != "HKCU"@[2]);
    assert(hive_of_code(code) == Some(hive));
}

} // verus!
