//! Key presses as the editor sees them, and their names in Herdr's binding
//! syntax.
use crate::panel::join_plus;
use crate::text::{chars_to_string, push_chars, push_str, str_chars};
use vstd::prelude::*;

verus! {

/// A key, as the terminal reports it.
#[derive(Clone, Copy, Debug, PartialEq, Eq, Structural)]
pub enum KeyCode {
    Char(char),
    Enter,
    Tab,
    BackTab,
    Backspace,
    Esc,
    Left,
    Right,
    Up,
    Down,
    Home,
    End,
    PageUp,
    PageDown,
    Delete,
    Insert,
    F(u8),
    /// Any other key (media keys, lone modifiers, ...).
    Other,
}

/// The modifier keys held with a key.
#[derive(Clone, Copy, Debug, PartialEq, Eq, Structural)]
pub struct Modifiers {
    pub control: bool,
    pub alt: bool,
    pub super_key: bool,
    pub shift: bool,
}

/// A key press.
#[derive(Clone, Copy, Debug, PartialEq, Eq, Structural)]
pub struct KeyEvent {
    pub code: KeyCode,
    pub modifiers: Modifiers,
}

impl Modifiers {
    pub fn none() -> (m: Modifiers)
        ensures
            !m.control && !m.alt && !m.super_key && !m.shift,
    {
        Modifiers { control: false, alt: false, super_key: false, shift: false }
    }
}

impl KeyEvent {
    pub fn new(code: KeyCode, modifiers: Modifiers) -> (k: KeyEvent)
        ensures
            k.code == code,
            k.modifiers == modifiers,
    {
        KeyEvent { code, modifiers }
    }
}

pub open spec fn is_ascii_alpha(c: char) -> bool {
    ('a' <= c && c <= 'z') || ('A' <= c && c <= 'Z')
}

pub open spec fn is_ascii_alnum(c: char) -> bool {
    is_ascii_alpha(c) || ('0' <= c && c <= '9')
}

/// The decimal digits of `n`.
pub open spec fn decimal(n: nat) -> Seq<char>
    decreases n,
{
    if n < 10 {
        seq![((n + 48) as u32) as char]
    } else {
        decimal(n / 10).push((((n % 10) + 48) as u32) as char)
    }
}

/// The name of a key in Herdr's syntax, if it has one.
pub open spec fn code_name(code: KeyCode) -> Option<Seq<char>> {
    match code {
        KeyCode::Char(c) => Some(
            if c == ' ' {
                "space"@
            } else if c == '-' {
                "minus"@
            } else if c == ',' {
                "comma"@
            } else if c == '&' {
                "ampersand"@
            } else if c == '+' {
                "plus"@
            } else if c == '`' {
                "backtick"@
            } else if is_ascii_alpha(c) {
                seq![crate::text::ascii_lower(c)]
            } else {
                seq![c]
            },
        ),
        KeyCode::Enter => Some("enter"@),
        KeyCode::Tab => Some("tab"@),
        KeyCode::BackTab => Some("tab"@),
        KeyCode::Backspace => Some("backspace"@),
        KeyCode::Esc => Some("esc"@),
        KeyCode::Left => Some("left"@),
        KeyCode::Right => Some("right"@),
        KeyCode::Up => Some("up"@),
        KeyCode::Down => Some("down"@),
        KeyCode::Home => Some("home"@),
        KeyCode::End => Some("end"@),
        KeyCode::PageUp => Some("pageup"@),
        KeyCode::PageDown => Some("pagedown"@),
        KeyCode::Delete => Some("delete"@),
        KeyCode::Insert => Some("insert"@),
        KeyCode::F(n) => Some("f"@ + decimal(n as nat)),
        KeyCode::Other => None,
    }
}

/// The modifier names of a key press: ctrl, alt, super, then shift -- but
/// shift only on letters and digits, since terminals already encode shifted
/// punctuation in the character itself (`?`, `!`, ...).
pub open spec fn modifier_names(key: KeyEvent) -> Seq<Seq<char>> {
    (if key.modifiers.control { seq!["ctrl"@] } else { Seq::empty() }) + (if key.modifiers.alt {
        seq!["alt"@]
    } else {
        Seq::empty()
    }) + (if key.modifiers.super_key { seq!["super"@] } else { Seq::empty() }) + (
    if key.modifiers.shift && (key.code matches KeyCode::Char(c) && is_ascii_alnum(c)) {
        seq!["shift"@]
    } else {
        Seq::empty()
    })
}

/// Each held modifier is named in a key press's binding, and no other:
/// `ctrl`, `alt` and `super` appear exactly when those modifiers are held,
/// `shift` exactly when it is held on a letter or digit; each at most once,
/// in that order.
pub proof fn law_modifiers_named(key: KeyEvent)
    ensures
        modifier_names(key).contains("ctrl"@) <==> key.modifiers.control,
        modifier_names(key).contains("alt"@) <==> key.modifiers.alt,
        modifier_names(key).contains("super"@) <==> key.modifiers.super_key,
        modifier_names(key).contains("shift"@) <==> (key.modifiers.shift && (key.code matches KeyCode::Char(
            c,
        ) && is_ascii_alnum(c))),
        modifier_names(key).len() == (if key.modifiers.control { 1int } else { 0 }) + (if key.modifiers.alt {
            1int
        } else {
            0
        }) + (if key.modifiers.super_key { 1int } else { 0 }) + (if modifier_names(key).contains("shift"@) {
            1int
        } else {
            0
        }),
        key.modifiers.control ==> modifier_names(key)[0] == "ctrl"@,
{
    reveal_strlit("ctrl");
    reveal_strlit("alt");
    reveal_strlit("super");
    reveal_strlit("shift");
    let names = seq!["ctrl"@, "alt"@, "super"@, "shift"@];
    assert(names[0].len() == 4 && names[1].len() == 3 && names[2].len() == 5 && names[3].len() == 5);
    assert(names[2][1] != names[3][1]);
    let m = modifier_names(key);
    assert(forall|x: Seq<char>| #[trigger] m.contains(x) ==> names.contains(x)) by {
        assert forall|x: Seq<char>| #[trigger] m.contains(x) implies names.contains(x) by {
            let w = choose|w: int| 0 <= w < m.len() && m[w] == x;
            assert(m[w] == names[0] || m[w] == names[1] || m[w] == names[2] || m[w] == names[3]);
        }
    }
    if key.modifiers.control {
        assert(m[0] == names[0]);
    }
    if key.modifiers.alt {
        let w = if key.modifiers.control { 1int } else { 0 };
        assert(m[w] == names[1]);
    }
    if key.modifiers.super_key {
        let w = (if key.modifiers.control { 1int } else { 0 }) + (if key.modifiers.alt { 1int } else { 0 });
        assert(m[w] == names[2]);
    }
    if key.modifiers.shift && (key.code matches KeyCode::Char(c) && is_ascii_alnum(c)) {
        assert(m[m.len() - 1] == names[3]);
    }
}

/// The binding of a key press, e.g. `ctrl+shift+r`.
pub open spec fn binding_of(key: KeyEvent) -> Option<Seq<char>> {
    match code_name(key.code) {
        Some(name) => Some(join_plus(modifier_names(key).push(name))),
        None => None,
    }
}

fn digit(n: u8) -> (c: char)
    requires
        n < 10,
    ensures
        c == ((n + 48) as u32) as char,
{
    (n + 48) as char
}

fn decimal_of(n: u8) -> (r: Vec<char>)
    ensures
        r@ == decimal(n as nat),
{
    let mut r: Vec<char> = Vec::new();
    if n >= 100 {
        let h = n / 100;
        let t = (n / 10) % 10;
        let u = n % 10;
        r.push(digit(h));
        r.push(digit(t));
        r.push(digit(u));
        proof {
            let m = (n / 10) as nat;
            assert(m >= 10);
            assert(m / 10 == h as nat);
            assert(m % 10 == t as nat);
            assert(decimal(h as nat) == seq![((h + 48) as u32) as char]);
            assert(decimal(m) == decimal(m / 10).push((((m % 10) + 48) as u32) as char));
            assert(decimal(n as nat) == decimal(m).push((((n as nat % 10) + 48) as u32) as char));
        }
    } else if n >= 10 {
        let t = n / 10;
        let u = n % 10;
        r.push(digit(t));
        r.push(digit(u));
        proof {
            assert(decimal(t as nat) == seq![((t + 48) as u32) as char]);
            assert(decimal(n as nat) == decimal((n / 10) as nat).push((((n as nat % 10) + 48) as u32) as char));
        }
    } else {
        r.push(digit(n));
    }
    assert(r@ =~= decimal(n as nat));
    r
}

fn code_name_of(code: KeyCode) -> (r: Option<Vec<char>>)
    ensures
        match r {
            Some(v) => code_name(code) == Some(v@),
            None => code_name(code) is None,
        },
{
    let name: &str = match code {
        KeyCode::Char(c) => {
            let named = if c == ' ' {
                "space"
            } else if c == '-' {
                "minus"
            } else if c == ',' {
                "comma"
            } else if c == '&' {
                "ampersand"
            } else if c == '+' {
                "plus"
            } else if c == '`' {
                "backtick"
            } else {
                let mut v: Vec<char> = Vec::new();
                v.push(crate::text::to_ascii_lower_char(c));
                assert(v@ =~= code_name(code).unwrap());
                return Some(v);
            };
            named
        },
        KeyCode::Enter => "enter",
        KeyCode::Tab => "tab",
        KeyCode::BackTab => "tab",
        KeyCode::Backspace => "backspace",
        KeyCode::Esc => "esc",
        KeyCode::Left => "left",
        KeyCode::Right => "right",
        KeyCode::Up => "up",
        KeyCode::Down => "down",
        KeyCode::Home => "home",
        KeyCode::End => "end",
        KeyCode::PageUp => "pageup",
        KeyCode::PageDown => "pagedown",
        KeyCode::Delete => "delete",
        KeyCode::Insert => "insert",
        KeyCode::F(n) => {
            let mut v = str_chars("f");
            let d = decimal_of(n);
            push_chars(&mut v, &d);
            return Some(v);
        },
        KeyCode::Other => {
            return None;
        },
    };
    Some(str_chars(name))
}

/// `segs` joined with `+`.
fn join_segments(segs: &Vec<Vec<char>>) -> (r: Vec<char>)
    ensures
        r@ == join_plus(segs@.map_values(|v: Vec<char>| v@)),
{
    let ghost sv = segs@.map_values(|v: Vec<char>| v@);
    let mut out: Vec<char> = Vec::new();
    let mut i: usize = 0;
    assert(sv.take(0) =~= Seq::<Seq<char>>::empty());
    while i < segs.len()
        invariant
            sv == segs@.map_values(|v: Vec<char>| v@),
            i <= segs.len(),
            out@ == join_plus(sv.take(i as int)),
        decreases segs.len() - i,
    {
        let ghost prev = out@;
        if i > 0 {
            out.push('+');
        }
        push_chars(&mut out, &segs[i]);
        i = i + 1;
        assert(sv.take(i as int).drop_last() =~= sv.take(i - 1));
        if i == 1 {
            assert(out@ =~= sv.take(1)[0]);
        } else {
            assert(out@ =~= prev + seq!['+'] + sv.take(i as int).last());
        }
    }
    assert(sv.take(segs.len() as int) =~= sv);
    out
}

/// The modifier names of a key press (see `modifier_names`).
fn modifier_parts(key: &KeyEvent) -> (r: Vec<Vec<char>>)
    ensures
        r@.map_values(|v: Vec<char>| v@) == modifier_names(*key),
{
    let mut parts: Vec<Vec<char>> = Vec::new();
    if key.modifiers.control {
        parts.push(str_chars("ctrl"));
    }
    if key.modifiers.alt {
        parts.push(str_chars("alt"));
    }
    if key.modifiers.super_key {
        parts.push(str_chars("super"));
    }
    let shifted_alphanumeric = key.modifiers.shift && match key.code {
        KeyCode::Char(c) => ('a' <= c && c <= 'z') || ('A' <= c && c <= 'Z') || ('0' <= c && c <= '9'),
        _ => false,
    };
    if shifted_alphanumeric {
        parts.push(str_chars("shift"));
    }
    assert(parts@.map_values(|v: Vec<char>| v@) =~= modifier_names(*key));
    parts
}

/// The binding of a key press in Herdr's syntax, e.g. `ctrl+shift+r`, or
/// `None` for a key that has no name there.
pub fn key_event_binding(key: &KeyEvent) -> (r: Option<String>)
    ensures
        match r {
            Some(s) => binding_of(*key) == Some(s@),
            None => binding_of(*key) is None,
        },
{
    let name = match code_name_of(key.code) {
        Some(n) => n,
        None => {
            return None;
        },
    };
    let mut parts = modifier_parts(key);
    let ghost mods = parts@.map_values(|v: Vec<char>| v@);
    let ghost nv = name@;
    parts.push(name);
    assert(parts@.map_values(|v: Vec<char>| v@) =~= mods.push(nv));
    let out = join_segments(&parts);
    Some(chars_to_string(&out))
}

} // verus!
