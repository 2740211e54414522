use vstd::prelude::*;
use crate::text::{chars_of, lines_of, same_text, split_lines, split_words, text_of, words_of};

verus! {

/// A system service and its unit-file state, `enabled` or `disabled`.
#[derive(Clone, Debug)]
pub struct Service {
    pub name: String,
    pub state: String,
}

pub open spec fn service_view(s: Service) -> (Seq<char>, Seq<char>) {
    (s.name@, s.state@)
}

pub open spec fn service_views(v: Seq<Service>) -> Seq<(Seq<char>, Seq<char>)> {
    v.map_values(|s: Service| service_view(s))
}

/// A line of the service manager's listing names a service where its second column
/// reads exactly `enabled` or `disabled`; every other line is dropped.
pub open spec fn service_of_line(line: Seq<char>) -> Option<(Seq<char>, Seq<char>)> {
    let w = words_of(line);
    if w.len() >= 2 && (w[1] == "enabled"@ || w[1] == "disabled"@) {
        Some((w[0], w[1]))
    } else {
        None
    }
}

/// The services named by the lines, in the order of the lines.
pub open spec fn services_of_lines(lines: Seq<Seq<char>>) -> Seq<(Seq<char>, Seq<char>)>
    decreases lines.len(),
{
    if lines.len() == 0 {
        Seq::empty()
    } else {
        let before = services_of_lines(lines.drop_last());
        match service_of_line(lines.last()) {
            Some(s) => before.push(s),
            None => before,
        }
    }
}

/// The services of a listing of unit files, one per line.
pub fn parse_service_list(listing: &str) -> (r: Vec<Service>)
    ensures
        service_views(r@) == services_of_lines(lines_of(listing@)),
{
    let lines = split_lines(&chars_of(listing));
    let ghost src = crate::text::views(lines@);
    let enabled = chars_of("enabled");
    let disabled = chars_of("disabled");
    let mut out: Vec<Service> = Vec::new();
    let n = lines.len();
    let mut i: usize = 0;
    assert(src.subrange(0, 0) =~= Seq::<Seq<char>>::empty());
    assert(service_views(out@) =~= Seq::<(Seq<char>, Seq<char>)>::empty());
    while i < n
        invariant
            i <= n == lines@.len(),
            src == crate::text::views(lines@),
            enabled@ == "enabled"@,
            disabled@ == "disabled"@,
            service_views(out@) == services_of_lines(src.subrange(0, i as int)),
        decreases n - i,
    {
        assert(src.subrange(0, i + 1).drop_last() =~= src.subrange(0, i as int));
        assert(src.subrange(0, i + 1).last() == lines@[i as int]@);
        let words = split_words(&lines[i]);
        if words.len() >= 2 && (same_text(&words[1], &enabled) || same_text(&words[1], &disabled)) {
            let ghost old_out = out@;
            out.push(Service { name: text_of(&words[0]), state: text_of(&words[1]) });
            assert(service_views(out@) =~= service_views(old_out).push(
                service_of_line(lines@[i as int]@)->Some_0,
            ));
        }
        i = i + 1;
    }
    assert(src.subrange(0, n as int) =~= src);
    out
}

/// `a` orders before `b` or equals it, character by character by code point; this is
/// the order of `String`, whose UTF-8 bytes order as the code points do.
pub open spec fn text_le(a: Seq<char>, b: Seq<char>) -> bool
    decreases a.len(),
{
    if a.len() == 0 {
        true
    } else if b.len() == 0 {
        false
    } else if a[0] != b[0] {
        (a[0] as u32) < (b[0] as u32)
    } else {
        text_le(a.drop_first(), b.drop_first())
    }
}

/// Relies on `slice::sort_by` with `String::cmp` on the names: the same services, in
/// ascending order of name.
#[verifier::external_body]
fn sort_by_name(v: &mut Vec<Service>)
    ensures
        service_views(final(v)@).to_multiset() == service_views(old(v)@).to_multiset(),
        forall|i: int, j: int|
            0 <= i < j < final(v)@.len() ==> text_le(final(v)@[i].name@, final(v)@[j].name@),
{
    v.sort_by(|a, b| a.name.cmp(&b.name))
}

/// The services of a listing, in ascending order of name.
pub fn sorted_service_list(listing: &str) -> (r: Vec<Service>)
    ensures
        service_views(r@).to_multiset() == services_of_lines(lines_of(listing@)).to_multiset(),
        forall|i: int, j: int| 0 <= i < j < r@.len() ==> text_le(r@[i].name@, r@[j].name@),
{
    let mut services = parse_service_list(listing);
    sort_by_name(&mut services);
    services
}

pub open spec fn texts(v: Seq<String>) -> Seq<Seq<char>> {
    v.map_values(|s: String| s@)
}

fn push_text(v: &mut Vec<String>, s: &str)
    ensures
        texts(final(v)@) == texts(old(v)@).push(s@),
{
    v.push(text_of(&chars_of(s)));
    assert(texts(final(v)@) =~= texts(old(v)@).push(s@));
}

/// The program and arguments that list the service unit files, run on the host
/// through `flatpak-spawn` when inside a Flatpak sandbox.
pub fn list_services_command(flatpak: bool) -> (r: (String, Vec<String>))
    ensures
        flatpak ==> r.0@ == "flatpak-spawn"@ && texts(r.1@) == seq![
            "--host"@,
            "systemctl"@,
            "list-unit-files"@,
            "--type=service"@,
            "--no-pager"@,
            "--no-legend"@,
        ],
        !flatpak ==> r.0@ == "/usr/bin/systemctl"@ && texts(r.1@) == seq![
            "list-unit-files"@,
            "--type=service"@,
            "--no-pager"@,
            "--no-legend"@,
        ],
{
    let mut args: Vec<String> = Vec::new();
    assert(texts(args@) =~= Seq::<Seq<char>>::empty());
    let program = if flatpak {
        push_text(&mut args, "--host");
        push_text(&mut args, "systemctl");
        text_of(&chars_of("flatpak-spawn"))
    } else {
        text_of(&chars_of("/usr/bin/systemctl"))
    };
    push_text(&mut args, "list-unit-files");
    push_text(&mut args, "--type=service");
    push_text(&mut args, "--no-pager");
    push_text(&mut args, "--no-legend");
    (program, args)
}

pub open spec fn action_word(enable: bool) -> Seq<char> {
    if enable {
        "enable"@
    } else {
        "disable"@
    }
}

/// The program and arguments that enable or disable the service `name`, through the
/// privilege prompt `pkexec`, on the host when inside a Flatpak sandbox.
pub fn toggle_service_command(flatpak: bool, name: &str, enable: bool) -> (r: (
    String,
    Vec<String>,
))
    ensures
        flatpak ==> r.0@ == "flatpak-spawn"@ && texts(r.1@) == seq![
            "--host"@,
            "pkexec"@,
            "systemctl"@,
            action_word(enable),
            name@,
        ],
        !flatpak ==> r.0@ == "pkexec"@ && texts(r.1@) == seq![
            "/usr/bin/systemctl"@,
            action_word(enable),
            name@,
        ],
{
    let mut args: Vec<String> = Vec::new();
    assert(texts(args@) =~= Seq::<Seq<char>>::empty());
    let program = if flatpak {
        push_text(&mut args, "--host");
        push_text(&mut args, "pkexec");
        push_text(&mut args, "systemctl");
        text_of(&chars_of("flatpak-spawn"))
    } else {
        push_text(&mut args, "/usr/bin/systemctl");
        text_of(&chars_of("pkexec"))
    };
    if enable {
        push_text(&mut args, "enable");
    } else {
        push_text(&mut args, "disable");
    }
    push_text(&mut args, name);
    (program, args)
}

/// Relies on `Path::exists`: whether something is found at `p`. That depends on the
/// machine, so nothing is stated of it.
#[verifier::external_body]
fn path_exists(p: &str) -> bool {
    std::path::Path::new(p).exists()
}

/// The file that every Flatpak sandbox holds.
pub fn flatpak_marker() -> (r: String)
    ensures
        r@ == "/.flatpak-info"@,
{
    text_of(&chars_of("/.flatpak-info"))
}

/// Whether this process runs inside a Flatpak sandbox: whether the file named by
/// `flatpak_marker` is found.
pub fn is_flatpak() -> bool {
    let marker = flatpak_marker();
    path_exists(marker.as_str())
}

} // verus!
