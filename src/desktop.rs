use vstd::prelude::*;
use crate::text::{
    append_chars, chars_of, concat, has_prefix, line_scan, lines_of, strip_cr, slice, split_lines,
    starts_with, text_of, trim, trim_chars, trim_end, trim_start, views,
};

verus! {

pub open spec fn key_eq(key: Seq<char>) -> Seq<char> {
    key + seq!['=']
}

/// The trimmed value of a `key=value` line, when the line holds `key`.
pub open spec fn key_value(line: Seq<char>, key: Seq<char>) -> Option<Seq<char>> {
    if has_prefix(line, key_eq(key)) {
        Some(trim(line.subrange(key.len() as int + 1, line.len() as int)))
    } else {
        None
    }
}

/// The value of `key` in the first line that holds it.
pub open spec fn find_value(lines: Seq<Seq<char>>, key: Seq<char>) -> Option<Seq<char>>
    decreases lines.len(),
{
    if lines.len() == 0 {
        None
    } else if key_value(lines[0], key) is Some {
        key_value(lines[0], key)
    } else {
        find_value(lines.drop_first(), key)
    }
}

pub(crate) fn value_in_lines(lines: &Vec<Vec<char>>, key: &Vec<char>) -> (r: Option<Vec<char>>)
    ensures
        match r {
            Some(v) => find_value(views(lines@), key@) == Some(v@),
            None => find_value(views(lines@), key@) is None,
        },
{
    let mut with_eq = key.clone();
    with_eq.push('=');
    assert(with_eq@ =~= key_eq(key@));
    let n = lines.len();
    let mut i: usize = 0;
    assert(views(lines@).skip(0) =~= views(lines@));
    while i < n
        invariant
            i <= n == lines@.len(),
            with_eq@ == key_eq(key@),
            find_value(views(lines@), key@) == find_value(views(lines@).skip(i as int), key@),
        decreases n - i,
    {
        let line = &lines[i];
        assert(views(lines@).skip(i as int)[0] == line@);
        if starts_with(line, &with_eq) {
            let v = slice(line, with_eq.len(), line.len());
            return Some(trim_chars(&v));
        }
        assert(views(lines@).skip(i as int).drop_first() =~= views(lines@).skip(i + 1));
        i = i + 1;
    }
    None
}

/// The value of the first `key=value` line of `content`, trimmed of white space.
pub fn extract_value(content: &str, key: &str) -> (r: Option<String>)
    ensures
        match r {
            Some(v) => find_value(lines_of(content@), key@) == Some(v@),
            None => find_value(lines_of(content@), key@) is None,
        },
{
    let lines = split_lines(&chars_of(content));
    match value_in_lines(&lines, &chars_of(key)) {
        Some(v) => Some(text_of(&v)),
        None => None,
    }
}

/// Whether a value reads `true` in any letter case. No character but these letters
/// lowercases to one of `t`, `r`, `u`, `e`, so this is `to_lowercase() == "true"`.
pub open spec fn is_true_word(v: Seq<char>) -> bool {
    v.len() == 4 && (v[0] == 't' || v[0] == 'T') && (v[1] == 'r' || v[1] == 'R') && (v[2] == 'u'
        || v[2] == 'U') && (v[3] == 'e' || v[3] == 'E')
}

fn is_true_chars(v: &Vec<char>) -> (r: bool)
    ensures
        r == is_true_word(v@),
{
    v.len() == 4 && (v[0] == 't' || v[0] == 'T') && (v[1] == 'r' || v[1] == 'R') && (v[2] == 'u'
        || v[2] == 'U') && (v[3] == 'e' || v[3] == 'E')
}

pub open spec fn hidden_key() -> Seq<char> {
    "Hidden"@
}

pub open spec fn autostart_key() -> Seq<char> {
    "X-GNOME-Autostart-enabled"@
}

/// `Hidden` reads true; an absent key means not hidden.
pub open spec fn is_hidden(lines: Seq<Seq<char>>) -> bool {
    match find_value(lines, hidden_key()) {
        Some(v) => is_true_word(v),
        None => false,
    }
}

/// `X-GNOME-Autostart-enabled` reads true; an absent key means enabled.
pub open spec fn autostart_on(lines: Seq<Seq<char>>) -> bool {
    match find_value(lines, autostart_key()) {
        Some(v) => is_true_word(v),
        None => true,
    }
}

/// Whether the desktop entry with these lines starts at login.
pub open spec fn lines_enabled(lines: Seq<Seq<char>>) -> bool {
    !is_hidden(lines) && autostart_on(lines)
}

pub open spec fn entry_enabled(content: Seq<char>) -> bool {
    lines_enabled(lines_of(content))
}

pub fn desktop_enabled(content: &str) -> (r: bool)
    ensures
        r == entry_enabled(content@),
{
    let lines = split_lines(&chars_of(content));
    let hidden = match value_in_lines(&lines, &chars_of("Hidden")) {
        Some(v) => is_true_chars(&v),
        None => false,
    };
    let autostart = match value_in_lines(&lines, &chars_of("X-GNOME-Autostart-enabled")) {
        Some(v) => is_true_chars(&v),
        None => true,
    };
    !hidden && autostart
}

pub open spec fn bool_text(b: bool) -> Seq<char> {
    if b {
        "true"@
    } else {
        "false"@
    }
}

pub open spec fn hidden_line(enable: bool) -> Seq<char> {
    key_eq(hidden_key()) + bool_text(!enable)
}

pub open spec fn autostart_line(enable: bool) -> Seq<char> {
    key_eq(autostart_key()) + bool_text(enable)
}

/// One line rewritten: every `Hidden=` line and every `X-GNOME-Autostart-enabled=` line
/// takes the new state, any other line stays as it is.
pub open spec fn toggle_line(line: Seq<char>, enable: bool) -> Seq<char> {
    if has_prefix(line, key_eq(hidden_key())) {
        hidden_line(enable)
    } else if has_prefix(line, key_eq(autostart_key())) {
        autostart_line(enable)
    } else {
        line
    }
}

pub open spec fn holds_key(lines: Seq<Seq<char>>, key: Seq<char>) -> bool {
    exists|i: int| 0 <= i < lines.len() && has_prefix(#[trigger] lines[i], key_eq(key))
}

/// The lines of a desktop entry after a toggle: the state lines rewritten in place,
/// and each state line that was missing appended.
pub open spec fn toggled_lines(lines: Seq<Seq<char>>, enable: bool) -> Seq<Seq<char>> {
    let m = lines.map_values(|l: Seq<char>| toggle_line(l, enable));
    let m1 = if holds_key(lines, hidden_key()) {
        m
    } else {
        m.push(hidden_line(enable))
    };
    if holds_key(lines, autostart_key()) {
        m1
    } else {
        m1.push(autostart_line(enable))
    }
}

/// The end written after a line: a line feed, or a carriage return and a line feed
/// after a line that itself ends in a carriage return, so that the line reads back whole.
pub open spec fn line_end(line: Seq<char>) -> Seq<char> {
    if ends_in_cr(line) {
        seq!['\r', '\n']
    } else {
        seq!['\n']
    }
}

/// The text of a file holding these lines, each one ended.
pub open spec fn write_lines(lines: Seq<Seq<char>>) -> Seq<char>
    decreases lines.len(),
{
    if lines.len() == 0 {
        Seq::empty()
    } else {
        write_lines(lines.drop_last()) + lines.last() + line_end(lines.last())
    }
}

pub open spec fn toggled_content(content: Seq<char>, enable: bool) -> Seq<char> {
    write_lines(toggled_lines(lines_of(content), enable))
}

fn bool_chars(b: bool) -> (r: Vec<char>)
    ensures
        r@ == bool_text(b),
{
    if b {
        chars_of("true")
    } else {
        chars_of("false")
    }
}

fn write_chars(lines: &Vec<Vec<char>>) -> (r: Vec<char>)
    ensures
        r@ == write_lines(views(lines@)),
{
    let mut out: Vec<char> = Vec::new();
    let n = lines.len();
    let mut i: usize = 0;
    assert(views(lines@).subrange(0, 0) =~= Seq::<Seq<char>>::empty());
    while i < n
        invariant
            i <= n == lines@.len(),
            out@ == write_lines(views(lines@).subrange(0, i as int)),
        decreases n - i,
    {
        let ghost pre = views(lines@).subrange(0, i as int);
        let ghost next = views(lines@).subrange(0, i + 1);
        assert(next.drop_last() =~= pre);
        let line = &lines[i];
        append_chars(&mut out, line);
        if line.len() > 0 && line[line.len() - 1] == '\r' {
            out.push('\r');
        }
        out.push('\n');
        assert(out@ =~= write_lines(pre) + next.last() + line_end(next.last()));
        i = i + 1;
    }
    assert(views(lines@).subrange(0, n as int) =~= views(lines@));
    out
}

/// A desktop entry rewritten to the state `enable`; every other line is kept, in order,
/// and the text written reads back as exactly the rewritten lines.
pub fn toggle_desktop_content(content: &str, enable: bool) -> (r: String)
    ensures
        r@ == toggled_content(content@, enable),
        lines_of(r@) == toggled_lines(lines_of(content@), enable),
{
    let lines = split_lines(&chars_of(content));
    let hidden_eq = chars_of("Hidden=");
    let autostart_eq = chars_of("X-GNOME-Autostart-enabled=");
    let hidden_new = concat(&hidden_eq, &bool_chars(!enable));
    let autostart_new = concat(&autostart_eq, &bool_chars(enable));
    proof {
        reveal_strlit("Hidden");
        reveal_strlit("Hidden=");
        reveal_strlit("X-GNOME-Autostart-enabled");
        reveal_strlit("X-GNOME-Autostart-enabled=");
        assert(hidden_eq@ =~= key_eq(hidden_key()));
        assert(autostart_eq@ =~= key_eq(autostart_key()));
    }
    let ghost src = views(lines@);
    let mut out: Vec<Vec<char>> = Vec::new();
    let mut hidden_found = false;
    let mut autostart_found = false;
    let n = lines.len();
    let mut i: usize = 0;
    while i < n
        invariant
            i <= n == lines@.len(),
            src == views(lines@),
            hidden_eq@ == key_eq(hidden_key()),
            autostart_eq@ == key_eq(autostart_key()),
            hidden_new@ == hidden_line(enable),
            autostart_new@ == autostart_line(enable),
            views(out@) == src.subrange(0, i as int).map_values(
                |l: Seq<char>| toggle_line(l, enable),
            ),
            hidden_found == holds_key(src.subrange(0, i as int), hidden_key()),
            autostart_found == holds_key(src.subrange(0, i as int), autostart_key()),
        decreases n - i,
    {
        let line = &lines[i];
        let ghost pre = src.subrange(0, i as int);
        let ghost next = src.subrange(0, i + 1);
        assert(next =~= pre.push(line@));
        let is_h = starts_with(line, &hidden_eq);
        let is_a = starts_with(line, &autostart_eq);
        let new_line = if is_h {
            hidden_new.clone()
        } else if is_a {
            autostart_new.clone()
        } else {
            line.clone()
        };
        let ghost old_out = out@;
        out.push(new_line);
        assert(views(out@) =~= views(old_out).push(toggle_line(line@, enable)));
        assert(views(out@) =~= next.map_values(|l: Seq<char>| toggle_line(l, enable)));
        if is_h {
            assert(has_prefix(next[i as int], key_eq(hidden_key())));
        }
        if is_a {
            assert(has_prefix(next[i as int], key_eq(autostart_key())));
        }
        assert(hidden_found || is_h <==> holds_key(next, hidden_key())) by {
            if holds_key(next, hidden_key()) {
                let j = choose|j: int|
                    0 <= j < next.len() && has_prefix(#[trigger] next[j], key_eq(hidden_key()));
                if j < i {
                    assert(pre[j] == next[j]);
                }
            }
            if hidden_found {
                let j = choose|j: int|
                    0 <= j < pre.len() && has_prefix(#[trigger] pre[j], key_eq(hidden_key()));
                assert(pre[j] == next[j]);
            }
        }
        assert(autostart_found || is_a <==> holds_key(next, autostart_key())) by {
            if holds_key(next, autostart_key()) {
                let j = choose|j: int|
                    0 <= j < next.len() && has_prefix(#[trigger] next[j], key_eq(autostart_key()));
                if j < i {
                    assert(pre[j] == next[j]);
                }
            }
            if autostart_found {
                let j = choose|j: int|
                    0 <= j < pre.len() && has_prefix(#[trigger] pre[j], key_eq(autostart_key()));
                assert(pre[j] == next[j]);
            }
        }
        hidden_found = hidden_found || is_h;
        autostart_found = autostart_found || is_a;
        i = i + 1;
    }
    assert(src.subrange(0, n as int) =~= src);
    if !hidden_found {
        let ghost old_out = out@;
        out.push(hidden_new);
        assert(views(out@) =~= views(old_out).push(hidden_line(enable)));
    }
    if !autostart_found {
        let ghost old_out = out@;
        out.push(autostart_new);
        assert(views(out@) =~= views(old_out).push(autostart_line(enable)));
    }
    assert(views(out@) =~= toggled_lines(lines_of(content@), enable));
    proof {
        lemma_toggled_reads_back(content@, enable);
    }
    text_of(&write_chars(&out))
}

/// A line that holds one of the two state keys.
pub open spec fn is_state_line(line: Seq<char>) -> bool {
    has_prefix(line, key_eq(hidden_key())) || has_prefix(line, key_eq(autostart_key()))
}

proof fn lemma_prefix_of_concat(a: Seq<char>, b: Seq<char>)
    ensures
        has_prefix(a + b, a),
{
    assert((a + b).subrange(0, a.len() as int) =~= a);
}

proof fn lemma_state_lines_distinct(enable: bool)
    ensures
        has_prefix(hidden_line(enable), key_eq(hidden_key())),
        has_prefix(autostart_line(enable), key_eq(autostart_key())),
        !has_prefix(hidden_line(enable), key_eq(autostart_key())),
        !has_prefix(autostart_line(enable), key_eq(hidden_key())),
        forall|l: Seq<char>|
            !(#[trigger] has_prefix(l, key_eq(hidden_key())) && has_prefix(
                l,
                key_eq(autostart_key()),
            )),
{
    reveal_strlit("Hidden");
    reveal_strlit("X-GNOME-Autostart-enabled");
    lemma_prefix_of_concat(key_eq(hidden_key()), bool_text(!enable));
    lemma_prefix_of_concat(key_eq(autostart_key()), bool_text(enable));
    assert(hidden_line(enable)[0] == 'H');
    assert(autostart_line(enable)[0] == 'X');
    assert(key_eq(hidden_key())[0] == 'H');
    assert(key_eq(autostart_key())[0] == 'X');
    assert(autostart_line(enable).subrange(0, key_eq(hidden_key()).len() as int)[0] == 'X');
    assert forall|l: Seq<char>|
        !(#[trigger] has_prefix(l, key_eq(hidden_key())) && has_prefix(
            l,
            key_eq(autostart_key()),
        )) by {
        if has_prefix(l, key_eq(hidden_key())) && has_prefix(l, key_eq(autostart_key())) {
            assert(l.subrange(0, key_eq(hidden_key()).len() as int)[0] == l[0]);
            assert(l.subrange(0, key_eq(autostart_key()).len() as int)[0] == l[0]);
        }
    }
}

/// After a toggle both state keys are present.
proof fn lemma_toggled_holds_keys(lines: Seq<Seq<char>>, enable: bool)
    ensures
        holds_key(toggled_lines(lines, enable), hidden_key()),
        holds_key(toggled_lines(lines, enable), autostart_key()),
{
    let t = toggled_lines(lines, enable);
    lemma_state_lines_distinct(enable);
    if holds_key(lines, hidden_key()) {
        let j = choose|j: int|
            0 <= j < lines.len() && has_prefix(#[trigger] lines[j], key_eq(hidden_key()));
        assert(t[j] == hidden_line(enable));
    } else {
        assert(t[lines.len() as int] == hidden_line(enable));
    }
    if holds_key(lines, autostart_key()) {
        let j = choose|j: int|
            0 <= j < lines.len() && has_prefix(#[trigger] lines[j], key_eq(autostart_key()));
        assert(has_prefix(t[j], key_eq(autostart_key())));
    } else {
        assert(t[t.len() - 1] == autostart_line(enable));
    }
}

/// Where every line that holds `key` reads `key=v`, and one does, the value found is `v`
/// trimmed.
proof fn lemma_find_uniform(lines: Seq<Seq<char>>, key: Seq<char>, v: Seq<char>)
    requires
        holds_key(lines, key),
        forall|i: int|
            0 <= i < lines.len() && has_prefix(#[trigger] lines[i], key_eq(key)) ==> lines[i]
                == key_eq(key) + v,
    ensures
        find_value(lines, key) == Some(trim(v)),
    decreases lines.len(),
{
    if key_value(lines[0], key) is Some {
        assert((key_eq(key) + v).subrange(key.len() as int + 1, (key_eq(key) + v).len() as int)
            =~= v);
    } else {
        let rest = lines.drop_first();
        let j = choose|j: int|
            0 <= j < lines.len() && has_prefix(#[trigger] lines[j], key_eq(key));
        assert(j > 0);
        assert(rest[j - 1] == lines[j]);
        assert forall|i: int|
            0 <= i < rest.len() && has_prefix(#[trigger] rest[i], key_eq(key)) implies rest[i]
                == key_eq(key) + v by {
            assert(rest[i] == lines[i + 1]);
        }
        lemma_find_uniform(rest, key, v);
    }
}

/// Turning a desktop entry off and then on leaves it enabled, so an enabled entry
/// comes back to its state. Every line that is not a state line keeps its place and
/// its text, and the lines added after the original ones are state lines.
pub proof fn lemma_toggle_off_on(lines: Seq<Seq<char>>)
    ensures
        lines_enabled(toggled_lines(toggled_lines(lines, false), true)),
        toggled_lines(toggled_lines(lines, false), true).len() >= lines.len(),
        forall|i: int|
            0 <= i < lines.len() && !is_state_line(#[trigger] lines[i]) ==> toggled_lines(
                toggled_lines(lines, false),
                true,
            )[i] == lines[i],
        forall|i: int|
            lines.len() <= i < toggled_lines(toggled_lines(lines, false), true).len()
                ==> is_state_line(#[trigger] toggled_lines(toggled_lines(lines, false), true)[i]),
{
    let t1 = toggled_lines(lines, false);
    let t2 = toggled_lines(t1, true);
    lemma_state_lines_distinct(false);
    lemma_state_lines_distinct(true);
    lemma_toggled_holds_keys(lines, false);
    assert(t2 =~= t1.map_values(|l: Seq<char>| toggle_line(l, true)));
    assert forall|i: int| 0 <= i < t1.len() implies #[trigger] is_state_line(t1[i])
        == (i >= lines.len() || is_state_line(lines[i])) by {}
    assert forall|i: int|
        0 <= i < t2.len() && has_prefix(#[trigger] t2[i], key_eq(hidden_key())) implies t2[i]
            == key_eq(hidden_key()) + "false"@ by {}
    assert forall|i: int|
        0 <= i < t2.len() && has_prefix(#[trigger] t2[i], key_eq(autostart_key())) implies t2[i]
            == key_eq(autostart_key()) + "true"@ by {}
    let hj = choose|j: int| 0 <= j < t1.len() && has_prefix(#[trigger] t1[j], key_eq(hidden_key()));
    assert(has_prefix(t2[hj], key_eq(hidden_key())));
    let aj = choose|j: int|
        0 <= j < t1.len() && has_prefix(#[trigger] t1[j], key_eq(autostart_key()));
    assert(has_prefix(t2[aj], key_eq(autostart_key())));
    lemma_find_uniform(t2, hidden_key(), "false"@);
    lemma_find_uniform(t2, autostart_key(), "true"@);
    reveal_strlit("false");
    reveal_strlit("true");
    assert(trim_start("false"@) == "false"@);
    assert(trim_end("false"@) == "false"@);
    assert(trim_start("true"@) == "true"@);
    assert(trim_end("true"@) == "true"@);
}

pub open spec fn no_newline(l: Seq<char>) -> bool {
    forall|i: int| 0 <= i < l.len() ==> l[i] != '\n'
}

pub open spec fn ends_in_cr(l: Seq<char>) -> bool {
    l.len() > 0 && l.last() == '\r'
}

proof fn lemma_scan_no_newline(s: Seq<char>)
    ensures
        no_newline(line_scan(s).1),
        forall|i: int|
            0 <= i < line_scan(s).0.len() ==> no_newline(#[trigger] line_scan(s).0[i]),
    decreases s.len(),
{
    if s.len() > 0 {
        lemma_scan_no_newline(s.drop_last());
        let p = line_scan(s.drop_last());
        if s.last() == '\n' {
            assert(no_newline(strip_cr(p.1)));
        } else {
            assert(no_newline(p.1.push(s.last())));
        }
    }
}

proof fn lemma_scan_append(x: Seq<char>, y: Seq<char>)
    requires
        no_newline(y),
    ensures
        line_scan(x + y) == (line_scan(x).0, line_scan(x).1 + y),
    decreases y.len(),
{
    if y.len() == 0 {
        assert(x + y =~= x);
        assert(line_scan(x).1 + y =~= line_scan(x).1);
    } else {
        assert((x + y).drop_last() =~= x + y.drop_last());
        lemma_scan_append(x, y.drop_last());
        assert((line_scan(x).1 + y.drop_last()).push(y.last()) =~= line_scan(x).1 + y);
    }
}

proof fn lemma_scan_written(lines: Seq<Seq<char>>)
    requires
        forall|i: int| 0 <= i < lines.len() ==> no_newline(#[trigger] lines[i]),
    ensures
        line_scan(write_lines(lines)) == (lines, Seq::<char>::empty()),
    decreases lines.len(),
{
    if lines.len() > 0 {
        let front = lines.drop_last();
        let l = lines.last();
        assert forall|i: int| 0 <= i < front.len() implies no_newline(#[trigger] front[i]) by {
            assert(front[i] == lines[i]);
        }
        lemma_scan_written(front);
        let x = write_lines(front);
        assert(no_newline(l));
        lemma_scan_append(x, l);
        assert(Seq::<char>::empty() + l =~= l);
        if ends_in_cr(l) {
            let y = l.push('\r');
            assert(no_newline(y));
            lemma_scan_append(x, y);
            assert(Seq::<char>::empty() + y =~= y);
            assert((x + y).push('\n') =~= write_lines(lines));
            assert((x + y).push('\n').drop_last() =~= x + y);
            assert(strip_cr(y) =~= l);
        } else {
            assert((x + l).push('\n') =~= write_lines(lines));
            assert((x + l).push('\n').drop_last() =~= x + l);
        }
        assert(front.push(l) =~= lines);
    }
}

/// A file written from lines without line feeds reads back as those lines.
proof fn lemma_lines_of_written(lines: Seq<Seq<char>>)
    requires
        forall|i: int| 0 <= i < lines.len() ==> no_newline(#[trigger] lines[i]),
    ensures
        lines_of(write_lines(lines)) == lines,
{
    lemma_scan_written(lines);
}

proof fn lemma_state_lines_plain(enable: bool)
    ensures
        no_newline(hidden_line(enable)),
        !ends_in_cr(hidden_line(enable)),
        hidden_line(enable).len() > 0,
        no_newline(autostart_line(enable)),
        !ends_in_cr(autostart_line(enable)),
        autostart_line(enable).len() > 0,
{
    reveal_strlit("Hidden");
    reveal_strlit("X-GNOME-Autostart-enabled");
    reveal_strlit("true");
    reveal_strlit("false");
    let h = hidden_line(enable);
    let a = autostart_line(enable);
    assert(h.last() == 'e');
    assert(a.last() == 'e');
    assert forall|i: int| 0 <= i < h.len() implies h[i] != '\n' by {
        if i < 7 {
            assert(h[i] == key_eq(hidden_key())[i]);
        } else {
            assert(h[i] == bool_text(!enable)[i - 7]);
        }
    }
    assert forall|i: int| 0 <= i < a.len() implies a[i] != '\n' by {
        if i < 26 {
            assert(a[i] == key_eq(autostart_key())[i]);
        } else {
            assert(a[i] == bool_text(enable)[i - 26]);
        }
    }
}

proof fn lemma_lines_no_newline(content: Seq<char>)
    ensures
        forall|i: int|
            0 <= i < lines_of(content).len() ==> no_newline(#[trigger] lines_of(content)[i]),
{
    let l = lines_of(content);
    lemma_scan_no_newline(content);
    assert forall|i: int| 0 <= i < l.len() implies no_newline(#[trigger] l[i]) by {
        if i < line_scan(content).0.len() {
            assert(l[i] == line_scan(content).0[i]);
        }
    }
}

proof fn lemma_toggled_no_newline(lines: Seq<Seq<char>>, enable: bool)
    requires
        forall|i: int| 0 <= i < lines.len() ==> no_newline(#[trigger] lines[i]),
    ensures
        forall|i: int|
            0 <= i < toggled_lines(lines, enable).len() ==> no_newline(
                #[trigger] toggled_lines(lines, enable)[i],
            ),
{
    lemma_state_lines_plain(enable);
    let t = toggled_lines(lines, enable);
    assert forall|i: int| 0 <= i < t.len() implies no_newline(#[trigger] t[i]) by {
        if i < lines.len() {
            assert(t[i] == toggle_line(lines[i], enable));
        }
    }
}

/// A rewritten desktop entry reads back as exactly its rewritten lines.
pub proof fn lemma_toggled_reads_back(content: Seq<char>, enable: bool)
    ensures
        lines_of(toggled_content(content, enable)) == toggled_lines(lines_of(content), enable),
{
    lemma_lines_no_newline(content);
    lemma_toggled_no_newline(lines_of(content), enable);
    lemma_lines_of_written(toggled_lines(lines_of(content), enable));
}

proof fn lemma_bool_word(b: bool)
    ensures
        trim(bool_text(b)) == bool_text(b),
        is_true_word(bool_text(b)) == b,
{
    reveal_strlit("false");
    reveal_strlit("true");
    assert(trim_start("false"@) == "false"@);
    assert(trim_end("false"@) == "false"@);
    assert(trim_start("true"@) == "true"@);
    assert(trim_end("true"@) == "true"@);
}

/// After a toggle to `enable`, the lines read as `enable`, whatever they were.
pub proof fn lemma_toggle_sets(lines: Seq<Seq<char>>, enable: bool)
    ensures
        lines_enabled(toggled_lines(lines, enable)) == enable,
{
    let t = toggled_lines(lines, enable);
    lemma_state_lines_distinct(enable);
    lemma_toggled_holds_keys(lines, enable);
    assert forall|i: int|
        0 <= i < t.len() && has_prefix(#[trigger] t[i], key_eq(hidden_key())) implies t[i]
            == key_eq(hidden_key()) + bool_text(!enable) by {
        if i < lines.len() {
            assert(t[i] == toggle_line(lines[i], enable));
        }
    }
    assert forall|i: int|
        0 <= i < t.len() && has_prefix(#[trigger] t[i], key_eq(autostart_key())) implies t[i]
            == key_eq(autostart_key()) + bool_text(enable) by {
        if i < lines.len() {
            assert(t[i] == toggle_line(lines[i], enable));
        }
    }
    lemma_find_uniform(t, hidden_key(), bool_text(!enable));
    lemma_find_uniform(t, autostart_key(), bool_text(enable));
    lemma_bool_word(enable);
    lemma_bool_word(!enable);
}

/// A toggle is idempotent: toggling lines already toggled to `enable` leaves them as
/// they are.
pub proof fn lemma_toggle_twice(lines: Seq<Seq<char>>, enable: bool)
    ensures
        toggled_lines(toggled_lines(lines, enable), enable) == toggled_lines(lines, enable),
{
    let t = toggled_lines(lines, enable);
    lemma_state_lines_distinct(enable);
    lemma_toggled_holds_keys(lines, enable);
    assert(toggled_lines(t, enable) =~= t) by {
        assert forall|i: int| 0 <= i < t.len() implies toggle_line(t[i], enable) == t[i] by {
            if i < lines.len() {
                assert(t[i] == toggle_line(lines[i], enable));
            }
        }
    }
}

/// After writing a desktop entry to the state `enable`, the file reads as `enable`,
/// whatever it held.
pub proof fn lemma_toggle_content_sets(content: Seq<char>, enable: bool)
    ensures
        entry_enabled(toggled_content(content, enable)) == enable,
{
    lemma_toggled_reads_back(content, enable);
    lemma_toggle_sets(lines_of(content), enable);
}

/// Writing the same state twice gives the same file as writing it once.
pub proof fn lemma_toggle_content_twice(content: Seq<char>, enable: bool)
    ensures
        toggled_content(toggled_content(content, enable), enable) == toggled_content(
            content,
            enable,
        ),
{
    lemma_toggled_reads_back(content, enable);
    lemma_toggle_twice(lines_of(content), enable);
}

/// Writing a desktop entry off and then on, re-reading the file after each write, leaves
/// it enabled, so an enabled entry comes back to its state; each line of the original
/// that is not a state line is read back unchanged in its place, and the lines read
/// after the original ones are state lines.
pub proof fn lemma_toggle_content_off_on(content: Seq<char>)
    ensures
        entry_enabled(toggled_content(toggled_content(content, false), true)),
        lines_of(toggled_content(toggled_content(content, false), true)).len() >= lines_of(
            content,
        ).len(),
        forall|i: int|
            0 <= i < lines_of(content).len() && !is_state_line(#[trigger] lines_of(content)[i])
                ==> lines_of(toggled_content(toggled_content(content, false), true))[i]
                == lines_of(content)[i],
        forall|i: int|
            lines_of(content).len() <= i < lines_of(
                toggled_content(toggled_content(content, false), true),
            ).len() ==> is_state_line(
                #[trigger] lines_of(toggled_content(toggled_content(content, false), true))[i],
            ),
{
    let c1 = toggled_content(content, false);
    lemma_toggled_reads_back(content, false);
    lemma_toggled_reads_back(c1, true);
    lemma_toggle_off_on(lines_of(content));
}

} // verus!
