//! Desktop entry files for the launcher and for starting at login.
use crate::text::{chars_of, is_whitespace, is_ws, string_of};
use vstd::prelude::*;

verus! {

pub const APP_ID: &'static str = "dev.osdockx.OSDockX";

pub const DESKTOP_FILE_NAME: &'static str = "dev.pruefsumme.OSDockX.desktop";

/// The lines before the command.
pub open spec fn entry_head() -> Seq<char> {
    "[Desktop Entry]\nType=Application\nName=OSDockX\nComment=A lightweight OSX-inspired dock for Linux/X11\nExec="@
}

/// The lines after the command.
pub open spec fn entry_tail() -> Seq<char> {
    "\nTerminal=false\nCategories=Utility;\nStartupNotify=false\n"@
}

/// The line that enables starting at login.
pub open spec fn autostart_line() -> Seq<char> {
    "X-GNOME-Autostart-enabled=true\n"@
}

/// A desktop entry that runs `exec`, marked for login start when asked.
pub open spec fn desktop_entry_text(exec: Seq<char>, autostart: bool) -> Seq<char> {
    entry_head() + exec + entry_tail() + if autostart {
        autostart_line()
    } else {
        Seq::empty()
    }
}

/// The desktop entry for the application launcher.
pub fn launcher_desktop_entry(exec: &str) -> (r: String)
    ensures
        r@ == desktop_entry_text(exec@, false),
{
    desktop_entry(exec, false)
}

/// A desktop entry that runs `exec`; with `autostart` it also enables
/// starting at login.
pub fn desktop_entry(exec: &str, autostart: bool) -> (r: String)
    ensures
        r@ == desktop_entry_text(exec@, autostart),
{
    let mut s = String::from_str(
        "[Desktop Entry]\nType=Application\nName=OSDockX\nComment=A lightweight OSX-inspired dock for Linux/X11\nExec=",
    );
    s.append(exec);
    s.append("\nTerminal=false\nCategories=Utility;\nStartupNotify=false\n");
    if autostart {
        s.append("X-GNOME-Autostart-enabled=true\n");
    }
    proof {
        if !autostart {
            assert(s@ =~= desktop_entry_text(exec@, autostart));
        }
    }
    s
}

/// The character needs quoting in an `Exec=` value.
pub open spec fn needs_quoting(c: char) -> bool {
    is_ws(c) || c == '"' || c == '\\'
}

/// Backslashes and double quotes escaped with a backslash.
pub open spec fn escaped(s: Seq<char>) -> Seq<char>
    decreases s.len(),
{
    if s.len() == 0 {
        Seq::empty()
    } else {
        let c = s.last();
        escaped(s.drop_last()) + if c == '\\' || c == '"' {
            seq!['\\', c]
        } else {
            seq![c]
        }
    }
}

/// The `Exec=` value for a program path: as is when it holds no whitespace,
/// quotes or backslashes, else escaped and double-quoted.
pub open spec fn exec_arg(path: Seq<char>) -> Seq<char> {
    if forall|i: int| 0 <= i < path.len() ==> !needs_quoting(#[trigger] path[i]) {
        path
    } else {
        seq!['"'] + escaped(path) + seq!['"']
    }
}

/// The `Exec=` value for a program path.
pub fn desktop_exec_arg(path: &str) -> (r: String)
    ensures
        r@ == exec_arg(path@),
{
    let v = chars_of(path);
    let mut plain = true;
    let mut i: usize = 0;
    while i < v.len()
        invariant
            i <= v.len(),
            plain == (forall|k: int| 0 <= k < i ==> !needs_quoting(#[trigger] v@[k])),
        decreases v.len() - i,
    {
        let c = v[i];
        if is_whitespace(c) || c == '"' || c == '\\' {
            plain = false;
        }
        i = i + 1;
    }
    if plain {
        return string_of(&v);
    }
    let mut out: Vec<char> = Vec::new();
    out.push('"');
    let mut j: usize = 0;
    assert(v@.subrange(0, 0) =~= Seq::<char>::empty());
    assert(out@ =~= seq!['"'] + escaped(v@.subrange(0, 0)));
    while j < v.len()
        invariant
            j <= v.len(),
            out@ == seq!['"'] + escaped(v@.subrange(0, j as int)),
        decreases v.len() - j,
    {
        let c = v[j];
        let ghost before = out@;
        if c == '\\' || c == '"' {
            out.push('\\');
        }
        out.push(c);
        assert(v@.subrange(0, j + 1).drop_last() =~= v@.subrange(0, j as int));
        assert(out@ =~= seq!['"'] + escaped(v@.subrange(0, j + 1)));
        j = j + 1;
    }
    assert(v@.subrange(0, v.len() as int) =~= v@);
    out.push('"');
    string_of(&out)
}

} // verus!
