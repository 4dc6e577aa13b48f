//! Desktop entries and how running windows are matched to them.
use crate::model::{WindowInfo, WindowInfoView};
use crate::model::assemble::strings_view;
use crate::path::{
    components, components_vec, data_dirs_below, data_dirs_with, file_name, file_name_vec,
    opt_str_seq, opt_strings_view,
};
use crate::seqs::{first_where, keep, lemma_first_where, lemma_first_where_is, lemma_first_where_none, lemma_keep_push};
use crate::text::{
    chars_of, contains_char_vec, contains_seq, contains_vec, copy_opt_string, eq_ic, is_whitespace,
    is_ws, last_index_of, last_index_of_vec, lemma_last_index_of_bounds, lower_seq, lower_vec,
    opt_view, rsplit_tail, string_of, subvec, trim, trim_end_matches, trim_end_matches_vec,
    trim_vec, vec_eq, vec_eq_ic,
};
use vstd::prelude::*;

verus! {

/// A launcher entry from the desktop menu.
#[derive(Debug, Clone, PartialEq, Eq)]
pub struct DesktopApp {
    pub desktop_id: String,
    pub name: String,
    pub icon_name: Option<String>,
    pub startup_wm_class: Option<String>,
    pub exec_command: Option<String>,
}

pub struct DesktopAppView {
    pub desktop_id: Seq<char>,
    pub name: Seq<char>,
    pub icon_name: Option<Seq<char>>,
    pub startup_wm_class: Option<Seq<char>>,
    pub exec_command: Option<Seq<char>>,
}

impl View for DesktopApp {
    type V = DesktopAppView;

    open spec fn view(&self) -> DesktopAppView {
        DesktopAppView {
            desktop_id: self.desktop_id@,
            name: self.name@,
            icon_name: opt_view(self.icon_name),
            startup_wm_class: opt_view(self.startup_wm_class),
            exec_command: opt_view(self.exec_command),
        }
    }
}

// ---------------------------------------------------------------------------
// Command lines
// ---------------------------------------------------------------------------

/// State of the shell-word splitter.
pub struct WordState {
    pub words: Seq<Seq<char>>,
    pub current: Seq<char>,
    pub quote: Option<char>,
    pub escaped: bool,
}

pub open spec fn word_init() -> WordState {
    WordState { words: Seq::empty(), current: Seq::empty(), quote: None, escaped: false }
}

/// One character of shell-like splitting: a backslash escapes the next
/// character, single or double quotes group, unquoted whitespace separates.
pub open spec fn word_step(st: WordState, ch: char) -> WordState {
    if st.escaped {
        WordState { current: st.current.push(ch), escaped: false, ..st }
    } else if ch == '\\' {
        WordState { escaped: true, ..st }
    } else {
        match st.quote {
            Some(q) => if ch == q {
                WordState { quote: None, ..st }
            } else {
                WordState { current: st.current.push(ch), ..st }
            },
            None => if ch == '\'' || ch == '"' {
                WordState { quote: Some(ch), ..st }
            } else if is_ws(ch) {
                if st.current.len() > 0 {
                    WordState { words: st.words.push(st.current), current: Seq::empty(), ..st }
                } else {
                    st
                }
            } else {
                WordState { current: st.current.push(ch), ..st }
            },
        }
    }
}

pub open spec fn word_run(s: Seq<char>) -> WordState
    decreases s.len(),
{
    if s.len() == 0 {
        word_init()
    } else {
        word_step(word_run(s.drop_last()), s.last())
    }
}

/// The words of a command line.
pub open spec fn shell_words(s: Seq<char>) -> Seq<Seq<char>> {
    let st = word_run(s);
    if st.current.len() > 0 {
        st.words.push(st.current)
    } else {
        st.words
    }
}

pub open spec fn not_field_code(t: Seq<char>) -> bool {
    !(t.len() > 0 && t[0] == '%')
}

pub open spec fn field_code_free() -> spec_fn(Seq<char>) -> bool {
    |t: Seq<char>| not_field_code(t)
}

pub open spec fn is_env_token(t: Seq<char>) -> bool {
    t == "env"@ || t.contains('=')
}

/// Drops leading `env` and `NAME=value` words.
pub open spec fn drop_env(s: Seq<Seq<char>>) -> Seq<Seq<char>>
    decreases s.len(),
{
    if s.len() > 0 && is_env_token(s[0]) {
        drop_env(s.drop_first())
    } else {
        s
    }
}

/// The first two words of the command, after field codes and any leading
/// environment assignments are removed.
pub open spec fn exec_candidates(exec: Seq<char>) -> Seq<Seq<char>> {
    let d = drop_env(keep(shell_words(exec), field_code_free()));
    if d.len() <= 2 {
        d
    } else {
        d.take(2)
    }
}

/// The program name of a command: its final path component, else the whole
/// trimmed command; `None` for a blank command.
pub open spec fn command_basename(cmd: Seq<char>) -> Option<Seq<char>> {
    let c = trim(cmd);
    if c.len() == 0 {
        None
    } else {
        match file_name(c) {
            Some(f) => Some(f),
            None => Some(c),
        }
    }
}

/// The window's executable has the same program name (ignoring ASCII case)
/// as one of the entry's command candidates.
pub open spec fn executable_matches(exec: Option<Seq<char>>, window_exe: Option<Seq<char>>) -> bool {
    match window_exe {
        None => false,
        Some(we) => match command_basename(we) {
            None => false,
            Some(wb) => match exec {
                None => false,
                Some(e) => {
                    let c = exec_candidates(e);
                    exists|i: int|
                        0 <= i < c.len() && match command_basename(#[trigger] c[i]) {
                            Some(b) => lower_seq(b) == lower_seq(wb),
                            None => false,
                        }
                },
            },
        },
    }
}

/// The window class names the entry (by StartupWMClass, desktop id stem or
/// display name, ignoring ASCII case).
pub open spec fn class_matches_app(app: DesktopAppView, class: Option<Seq<char>>) -> bool {
    match class {
        None => false,
        Some(c) => {
            ||| (match app.startup_wm_class {
                Some(w) => eq_ic(w, c),
                None => false,
            })
            ||| eq_ic(trim_end_matches(app.desktop_id, ".desktop"@), c)
            ||| eq_ic(app.name, c)
        },
    }
}

/// A window belongs to a desktop entry.
pub open spec fn app_matches_window(app: DesktopAppView, w: WindowInfoView) -> bool {
    class_matches_app(app, w.class) || executable_matches(app.exec_command, w.executable)
}

/// Splits a command line into words.
pub fn split_shell_words(v: &Vec<char>) -> (r: Vec<Vec<char>>)
    ensures
        r@.map_values(|w: Vec<char>| w@) == shell_words(v@),
{
    let mut words: Vec<Vec<char>> = Vec::new();
    let mut current: Vec<char> = Vec::new();
    let mut quote: Option<char> = None;
    let mut escaped = false;
    let mut i: usize = 0;
    assert(v@.subrange(0, 0) =~= Seq::<char>::empty());
    assert(words@.map_values(|w: Vec<char>| w@) =~= Seq::<Seq<char>>::empty());
    while i < v.len()
        invariant
            i <= v.len(),
            (WordState {
                words: words@.map_values(|w: Vec<char>| w@),
                current: current@,
                quote,
                escaped,
            }) == word_run(v@.subrange(0, i as int)),
        decreases v.len() - i,
    {
        let ch = v[i];
        let ghost before = word_run(v@.subrange(0, i as int));
        assert(v@.subrange(0, i + 1).drop_last() == v@.subrange(0, i as int));
        assert(v@.subrange(0, i + 1).last() == ch);
        if escaped {
            current.push(ch);
            escaped = false;
        } else if ch == '\\' {
            escaped = true;
        } else {
            match quote {
                Some(q) => {
                    if ch == q {
                        quote = None;
                    } else {
                        current.push(ch);
                    }
                },
                None => {
                    if ch == '\'' || ch == '"' {
                        quote = Some(ch);
                    } else if is_whitespace(ch) {
                        if current.len() > 0 {
                            let ghost old_words = words@;
                            words.push(current);
                            current = Vec::new();
                            assert(words@.map_values(|w: Vec<char>| w@) =~= old_words.map_values(
                                |w: Vec<char>| w@,
                            ).push(before.current));
                        }
                    } else {
                        current.push(ch);
                    }
                },
            }
        }
        i = i + 1;
    }
    assert(v@.subrange(0, v.len() as int) == v@);
    if current.len() > 0 {
        let ghost old_words = words@;
        let ghost cur = current@;
        words.push(current);
        assert(words@.map_values(|w: Vec<char>| w@) =~= old_words.map_values(|w: Vec<char>| w@).push(
            cur,
        ));
    }
    words
}

fn command_basename_vec(cmd: &Vec<char>) -> (r: Option<Vec<char>>)
    ensures
        match r {
            Some(b) => command_basename(cmd@) == Some(b@),
            None => command_basename(cmd@) is None,
        },
{
    let c = trim_vec(cmd);
    if c.len() == 0 {
        return None;
    }
    match file_name_vec(&c) {
        Some(f) => Some(f),
        None => Some(c),
    }
}

/// The candidate program words of a command line.
fn exec_command_candidates(exec: &Vec<char>) -> (r: Vec<Vec<char>>)
    ensures
        r@.map_values(|w: Vec<char>| w@) == exec_candidates(exec@),
{
    let words = split_shell_words(exec);
    let ghost ws = words@.map_values(|w: Vec<char>| w@);
    let ghost p = field_code_free();
    let mut kept: Vec<Vec<char>> = Vec::new();
    let mut i: usize = 0;
    assert(ws.take(0) =~= Seq::<Seq<char>>::empty());
    assert(keep(Seq::<Seq<char>>::empty(), p) == Seq::<Seq<char>>::empty());
    while i < words.len()
        invariant
            i <= words.len(),
            ws == words@.map_values(|w: Vec<char>| w@),
            p == field_code_free(),
            kept@.map_values(|w: Vec<char>| w@) == keep(ws.take(i as int), p),
        decreases words.len() - i,
    {
        let w = &words[i];
        proof {
            assert(ws[i as int] == words@[i as int]@);
            assert(ws.take(i + 1) =~= ws.take(i as int).push(ws[i as int]));
            lemma_keep_push(ws.take(i as int), ws[i as int], p);
        }
        if !(w.len() > 0 && w[0] == '%') {
            let ghost old_kept = kept@;
            kept.push(subvec(w, 0, w.len()));
            assert(w@.subrange(0, w@.len() as int) == w@);
            assert(kept@.map_values(|w: Vec<char>| w@) =~= old_kept.map_values(|w: Vec<char>| w@).push(
                ws[i as int],
            ));
        }
        i = i + 1;
    }
    assert(ws.take(words.len() as int) == ws);
    let ghost ks = kept@.map_values(|w: Vec<char>| w@);
    let env = chars_of("env");
    let mut j: usize = 0;
    assert(ks.skip(0) == ks);
    while j < kept.len() && (vec_eq(&kept[j], &env) || contains_char_vec(&kept[j], '='))
        invariant
            j <= kept.len(),
            ks == kept@.map_values(|w: Vec<char>| w@),
            env@ == "env"@,
            drop_env(ks) == drop_env(ks.skip(j as int)),
        decreases kept.len() - j,
    {
        assert(ks.skip(j as int)[0] == ks[j as int]);
        assert(ks.skip(j as int).drop_first() =~= ks.skip(j + 1));
        j = j + 1;
    }
    let ghost d = ks.skip(j as int);
    proof {
        if j < kept.len() {
            assert(d[0] == ks[j as int]);
        }
        assert(drop_env(d) == d);
    }
    let mut out: Vec<Vec<char>> = Vec::new();
    let mut k: usize = j;
    while k < kept.len() && k - j < 2
        invariant
            j <= k <= kept.len(),
            k <= j + 2,
            ks == kept@.map_values(|w: Vec<char>| w@),
            d == ks.skip(j as int),
            out@.map_values(|w: Vec<char>| w@) == d.take(k - j),
        decreases kept.len() - k,
    {
        let ghost old_out = out@;
        out.push(subvec(&kept[k], 0, kept[k].len()));
        assert(kept@[k as int]@.subrange(0, kept@[k as int]@.len() as int) == kept@[k as int]@);
        assert(d[k - j] == ks[k as int]);
        assert(ks[k as int] == kept@[k as int]@);
        assert(d.take(k + 1 - j) =~= d.take(k - j).push(d[k - j]));
        assert(out@.map_values(|w: Vec<char>| w@) =~= old_out.map_values(|w: Vec<char>| w@).push(
            kept@[k as int]@,
        ));
        assert(out@.map_values(|w: Vec<char>| w@) =~= d.take(k + 1 - j));
        k = k + 1;
    }
    assert(out@.map_values(|w: Vec<char>| w@) =~= exec_candidates(exec@));
    out
}

/// The window's executable matches the entry's command line.
fn executable_matches_exec(exec: &Option<String>, window_exe: &Option<String>) -> (r: bool)
    ensures
        r == executable_matches(opt_view(*exec), opt_view(*window_exe)),
{
    let we = match window_exe {
        None => return false,
        Some(we) => we,
    };
    let wb = match command_basename_vec(&chars_of(we.as_str())) {
        None => return false,
        Some(b) => lower_vec(&b),
    };
    let e = match exec {
        None => return false,
        Some(e) => e,
    };
    let cands = exec_command_candidates(&chars_of(e.as_str()));
    let ghost c = exec_candidates(e@);
    let mut i: usize = 0;
    while i < cands.len()
        invariant
            i <= cands.len(),
            c == cands@.map_values(|w: Vec<char>| w@),
            c == exec_candidates(e@),
            opt_view(*exec) == Some(e@),
            opt_view(*window_exe) == Some(we@),
            Some(wb@) == (match command_basename(we@) {
                Some(b) => Some(lower_seq(b)),
                None => None,
            }),
            forall|k: int|
                0 <= k < i ==> !(match command_basename(#[trigger] c[k]) {
                    Some(b) => lower_seq(b) == wb@,
                    None => false,
                }),
        decreases cands.len() - i,
    {
        match command_basename_vec(&cands[i]) {
            Some(b) => {
                if vec_eq(&lower_vec(&b), &wb) {
                    assert(c[i as int] == cands@[i as int]@);
                    assert(match command_basename(c[i as int]) {
                        Some(bb) => lower_seq(bb) == lower_seq(command_basename(we@)->0),
                        None => false,
                    });
                    return true;
                }
            },
            None => {},
        }
        assert(c[i as int] == cands@[i as int]@);
        i = i + 1;
    }
    false
}

// ---------------------------------------------------------------------------
// Placeholder names
// ---------------------------------------------------------------------------

/// The Unicode uppercase mapping of a character, as `char::to_uppercase`
/// yields it.
pub uninterp spec fn char_upper(c: char) -> Seq<char>;

/// Uppercase form of one character.
/// Calls `char::to_uppercase`; the contract states the mapping for ASCII
/// characters and names it otherwise.
#[verifier::external_body]
fn upper_of(c: char) -> (r: String)
    ensures
        r@ == char_upper(c),
        'a' <= c && c <= 'z' ==> r@ == seq![((c as u32) - 32) as char],
        (c as u32) < 128 && !('a' <= c && c <= 'z') ==> r@ == seq![c],
{
    c.to_uppercase().to_string()
}

/// State of whitespace splitting.
pub struct SplitState {
    pub words: Seq<Seq<char>>,
    pub current: Seq<char>,
}

pub open spec fn split_run(s: Seq<char>) -> SplitState
    decreases s.len(),
{
    if s.len() == 0 {
        SplitState { words: Seq::empty(), current: Seq::empty() }
    } else {
        let st = split_run(s.drop_last());
        let ch = s.last();
        if is_ws(ch) {
            if st.current.len() > 0 {
                SplitState { words: st.words.push(st.current), current: Seq::empty() }
            } else {
                st
            }
        } else {
            SplitState { current: st.current.push(ch), ..st }
        }
    }
}

/// The maximal runs of non-whitespace characters.
pub open spec fn split_whitespace(s: Seq<char>) -> Seq<Seq<char>> {
    let st = split_run(s);
    if st.current.len() > 0 {
        st.words.push(st.current)
    } else {
        st.words
    }
}

/// Words joined by single spaces.
pub open spec fn join_spaced(ws: Seq<Seq<char>>) -> Seq<char>
    decreases ws.len(),
{
    if ws.len() == 0 {
        Seq::empty()
    } else if ws.len() == 1 {
        ws[0]
    } else {
        join_spaced(ws.drop_last()) + seq![' '] + ws.last()
    }
}

/// The uppercase of a character: ASCII letters map to their capitals, other
/// ASCII characters to themselves, and the rest as Unicode maps them.
pub open spec fn upper_char(c: char) -> Seq<char> {
    if 'a' <= c && c <= 'z' {
        seq![((c as u32) - 32) as char]
    } else if (c as u32) < 128 {
        seq![c]
    } else {
        char_upper(c)
    }
}

/// A word with its first character uppercased.
pub open spec fn capitalize(w: Seq<char>) -> Seq<char> {
    if w.len() == 0 {
        w
    } else {
        upper_char(w[0]) + w.drop_first()
    }
}

/// Each whitespace-separated word capitalized, joined by single spaces.
pub open spec fn title_case(s: Seq<char>) -> Seq<char> {
    join_spaced(split_whitespace(s).map_values(|w: Seq<char>| capitalize(w)))
}

/// Underscores and hyphens become spaces.
pub open spec fn spaced(s: Seq<char>) -> Seq<char> {
    s.map_values(|c: char| if c == '_' || c == '-' { ' ' } else { c })
}

/// The display name guessed from a desktop id: the last dotted component of
/// the menu tail, with separators turned into spaces and words capitalized.
pub open spec fn placeholder_name(id: Seq<char>) -> Seq<char> {
    let stem = trim_end_matches(id, ".desktop"@);
    let menu_tail = match rsplit_tail(stem, '-') {
        Some(t) if t.contains('.') => t,
        _ => stem,
    };
    let base = match rsplit_tail(menu_tail, '.') {
        Some(t) => t,
        None => menu_tail,
    };
    title_case(spaced(base))
}

/// The entry assumed for a desktop id that the index does not know.
pub open spec fn placeholder_view(id: Seq<char>) -> DesktopAppView {
    DesktopAppView {
        desktop_id: id,
        name: placeholder_name(id),
        icon_name: Some(lower_seq(trim_end_matches(id, ".desktop"@))),
        startup_wm_class: None,
        exec_command: None,
    }
}

fn spaced_vec(v: &Vec<char>) -> (r: Vec<char>)
    ensures
        r@ == spaced(v@),
{
    let mut out: Vec<char> = Vec::new();
    let mut i: usize = 0;
    while i < v.len()
        invariant
            i <= v.len(),
            out@ == spaced(v@.subrange(0, i as int)),
        decreases v.len() - i,
    {
        let c = v[i];
        out.push(if c == '_' || c == '-' { ' ' } else { c });
        assert(spaced(v@.subrange(0, i + 1)) =~= spaced(v@.subrange(0, i as int)).push(
            if c == '_' || c == '-' { ' ' } else { c },
        ));
        i = i + 1;
    }
    assert(v@.subrange(0, v.len() as int) == v@);
    out
}

pub fn split_whitespace_vec(v: &Vec<char>) -> (r: Vec<Vec<char>>)
    ensures
        r@.map_values(|w: Vec<char>| w@) == split_whitespace(v@),
        forall|k: int| 0 <= k < r@.len() ==> (#[trigger] r@[k])@.len() > 0,
{
    let mut words: Vec<Vec<char>> = Vec::new();
    let mut current: Vec<char> = Vec::new();
    let mut i: usize = 0;
    assert(v@.subrange(0, 0) =~= Seq::<char>::empty());
    assert(words@.map_values(|w: Vec<char>| w@) =~= Seq::<Seq<char>>::empty());
    while i < v.len()
        invariant
            i <= v.len(),
            (SplitState { words: words@.map_values(|w: Vec<char>| w@), current: current@ })
                == split_run(v@.subrange(0, i as int)),
            forall|k: int| 0 <= k < words@.len() ==> (#[trigger] words@[k])@.len() > 0,
        decreases v.len() - i,
    {
        let ch = v[i];
        assert(v@.subrange(0, i + 1).drop_last() == v@.subrange(0, i as int));
        if is_whitespace(ch) {
            if current.len() > 0 {
                let ghost old_words = words@;
                let ghost cur = current@;
                words.push(current);
                current = Vec::new();
                assert(words@.map_values(|w: Vec<char>| w@) =~= old_words.map_values(
                    |w: Vec<char>| w@,
                ).push(cur));
            }
        } else {
            current.push(ch);
        }
        i = i + 1;
    }
    assert(v@.subrange(0, v.len() as int) == v@);
    if current.len() > 0 {
        let ghost old_words = words@;
        let ghost cur = current@;
        words.push(current);
        assert(words@.map_values(|w: Vec<char>| w@) =~= old_words.map_values(|w: Vec<char>| w@).push(
            cur,
        ));
    }
    words
}

fn title_case_vec(v: &Vec<char>) -> (r: Vec<char>)
    ensures
        r@ == title_case(v@),
{
    let words = split_whitespace_vec(v);
    let ghost caps = split_whitespace(v@).map_values(|w: Seq<char>| capitalize(w));
    let mut out: Vec<char> = Vec::new();
    let mut i: usize = 0;
    while i < words.len()
        invariant
            i <= words.len(),
            caps.len() == words.len(),
            forall|k: int|
                0 <= k < words.len() ==> #[trigger] caps[k] == capitalize(words@[k]@),
            forall|k: int| 0 <= k < words@.len() ==> (#[trigger] words@[k])@.len() > 0,
            out@ == join_spaced(caps.take(i as int)),
        decreases words.len() - i,
    {
        let w = &words[i];
        let up = upper_of(w[0]);
        let upc = chars_of(up.as_str());
        assert(upc@ == upper_char(w@[0]));
        let rest = subvec(w, 1, w.len());
        let ghost before = out@;
        if i > 0 {
            out.push(' ');
        }
        let mut j: usize = 0;
        let ghost base = out@;
        while j < upc.len()
            invariant
                j <= upc.len(),
                out@ == base + upc@.subrange(0, j as int),
            decreases upc.len() - j,
        {
            out.push(upc[j]);
            assert(upc@.subrange(0, j + 1) =~= upc@.subrange(0, j as int).push(upc@[j as int]));
            assert(base + upc@.subrange(0, j + 1) =~= (base + upc@.subrange(0, j as int)).push(
                upc@[j as int],
            ));
            j = j + 1;
        }
        assert(upc@.subrange(0, upc.len() as int) == upc@);
        let mut k: usize = 0;
        let ghost base2 = out@;
        while k < rest.len()
            invariant
                k <= rest.len(),
                out@ == base2 + rest@.subrange(0, k as int),
            decreases rest.len() - k,
        {
            out.push(rest[k]);
            assert(rest@.subrange(0, k + 1) =~= rest@.subrange(0, k as int).push(rest@[k as int]));
            assert(base2 + rest@.subrange(0, k + 1) =~= (base2 + rest@.subrange(0, k as int)).push(
                rest@[k as int],
            ));
            k = k + 1;
        }
        assert(rest@.subrange(0, rest.len() as int) == rest@);
        proof {
            assert(w@.drop_first() == rest@);
            assert(caps[i as int] == upc@ + rest@);
            assert(caps.take(i + 1).drop_last() =~= caps.take(i as int));
            assert(caps.take(i + 1).last() == caps[i as int]);
            if i == 0 {
                assert(caps.take(1) =~= seq![caps[0]]);
                assert(out@ =~= caps[0]);
            } else {
                assert(out@ =~= before + seq![' '] + caps[i as int]);
            }
        }
        i = i + 1;
    }
    assert(caps.take(words.len() as int) == caps);
    out
}

// ---------------------------------------------------------------------------
// Launch aliases
// ---------------------------------------------------------------------------

/// The search key for an unknown desktop id: lowercase, last `-` part, last
/// `.` part, underscores as spaces.
pub open spec fn alias_key(id: Seq<char>) -> Seq<char> {
    let stem0 = lower_seq(trim_end_matches(trim(id), ".desktop"@));
    let stem1 = match rsplit_tail(stem0, '-') {
        Some(t) => t,
        None => stem0,
    };
    let base = match rsplit_tail(stem1, '.') {
        Some(t) => t,
        None => stem1,
    };
    spaced(base)
}

/// An entry answers to an alias key.
pub open spec fn alias_matches(app: DesktopAppView, q: Seq<char>) -> bool {
    let id = lower_seq(app.desktop_id);
    let name = lower_seq(app.name);
    let wm = match app.startup_wm_class {
        Some(w) => lower_seq(w),
        None => Seq::empty(),
    };
    contains_seq(id, q) || name == q || contains_seq(name, q) || wm == q
}

fn tail_after(v: &Vec<char>, c: char) -> (r: Vec<char>)
    ensures
        r@ == (match rsplit_tail(v@, c) {
            Some(t) => t,
            None => v@,
        }),
{
    proof {
        lemma_last_index_of_bounds(v@, c);
    }
    match last_index_of_vec(v, c) {
        Some(k) => {
            assert(k < v.len());
            subvec(v, k + 1, v.len())
        },
        None => {
            assert(v@.subrange(0, v@.len() as int) == v@);
            subvec(v, 0, v.len())
        },
    }
}

fn alias_key_vec(id: &Vec<char>) -> (r: Vec<char>)
    ensures
        r@ == alias_key(id@),
{
    let t = trim_vec(id);
    let stem0 = lower_vec(&trim_end_matches_vec(&t, &chars_of(".desktop")));
    let stem1 = tail_after(&stem0, '-');
    let base = tail_after(&stem1, '.');
    spaced_vec(&base)
}

// ---------------------------------------------------------------------------
// The index
// ---------------------------------------------------------------------------

pub open spec fn apps_view(apps: Seq<DesktopApp>) -> Seq<DesktopAppView> {
    apps.map_values(|a: DesktopApp| a@)
}

/// No two entries share a desktop id, ignoring ASCII case.
pub open spec fn ids_unique(s: Seq<DesktopAppView>) -> bool {
    forall|i: int, j: int|
        0 <= i < s.len() && 0 <= j < s.len() && i != j ==> !eq_ic(
            #[trigger] s[i].desktop_id,
            #[trigger] s[j].desktop_id,
        )
}

pub open spec fn same_id(id: Seq<char>) -> spec_fn(DesktopAppView) -> bool {
    |a: DesktopAppView| eq_ic(a.desktop_id, id)
}

/// Adding an entry: it replaces the entry with the same id (ignoring ASCII
/// case) in place, or is appended.
pub open spec fn index_insert(s: Seq<DesktopAppView>, a: DesktopAppView) -> Seq<DesktopAppView> {
    let k = first_where(s, same_id(a.desktop_id));
    if k >= 0 {
        s.update(k, a)
    } else {
        s.push(a)
    }
}

/// Entries added one by one; a later entry replaces an earlier one with the
/// same id.
pub open spec fn index_of_apps(apps: Seq<DesktopAppView>) -> Seq<DesktopAppView>
    decreases apps.len(),
{
    if apps.len() == 0 {
        Seq::empty()
    } else {
        index_insert(index_of_apps(apps.drop_last()), apps.last())
    }
}

/// Entries added one by one; an entry whose id is already present is skipped.
pub open spec fn index_of_discovered(apps: Seq<DesktopAppView>) -> Seq<DesktopAppView>
    decreases apps.len(),
{
    if apps.len() == 0 {
        Seq::empty()
    } else {
        let s = index_of_discovered(apps.drop_last());
        if first_where(s, same_id(apps.last().desktop_id)) >= 0 {
            s
        } else {
            s.push(apps.last())
        }
    }
}

/// The entry for a desktop id, ignoring ASCII case.
pub open spec fn lookup(s: Seq<DesktopAppView>, id: Seq<char>) -> Option<DesktopAppView> {
    let k = first_where(s, same_id(id));
    if k >= 0 {
        Some(s[k])
    } else {
        None
    }
}

pub open spec fn matching_window(w: WindowInfoView) -> spec_fn(DesktopAppView) -> bool {
    |a: DesktopAppView| app_matches_window(a, w)
}

/// The first entry that claims a window.
pub open spec fn window_match(s: Seq<DesktopAppView>, w: WindowInfoView) -> Option<DesktopAppView> {
    let k = first_where(s, matching_window(w));
    if k >= 0 {
        Some(s[k])
    } else {
        None
    }
}

pub open spec fn matching_alias(q: Seq<char>) -> spec_fn(DesktopAppView) -> bool {
    |a: DesktopAppView| alias_matches(a, q)
}

/// The first entry answering to the alias key of `id`; none for an empty key.
pub open spec fn alias_match(s: Seq<DesktopAppView>, id: Seq<char>) -> Option<DesktopAppView> {
    let q = alias_key(id);
    let k = first_where(s, matching_alias(q));
    if q.len() == 0 {
        None
    } else if k >= 0 {
        Some(s[k])
    } else {
        None
    }
}

/// Lexicographic order of character sequences by code point.
pub open spec fn seq_lt(a: Seq<char>, b: Seq<char>) -> bool
    decreases a.len(),
{
    if a.len() == 0 {
        b.len() > 0
    } else if b.len() == 0 {
        false
    } else if a[0] != b[0] {
        a[0] < b[0]
    } else {
        seq_lt(a.drop_first(), b.drop_first())
    }
}

/// Display order: by lowercased name, then by desktop id.
pub open spec fn app_le(x: DesktopAppView, y: DesktopAppView) -> bool {
    let xn = lower_seq(x.name);
    let yn = lower_seq(y.name);
    seq_lt(xn, yn) || (xn == yn && (seq_lt(x.desktop_id, y.desktop_id) || x.desktop_id
        == y.desktop_id))
}

/// All desktop entries known to the dock, one per desktop id.
pub struct DesktopIndex {
    apps: Vec<DesktopApp>,
}

impl View for DesktopIndex {
    type V = Seq<DesktopAppView>;

    closed spec fn view(&self) -> Seq<DesktopAppView> {
        apps_view(self.apps@)
    }
}

impl DesktopIndex {
    #[verifier::type_invariant]
    spec fn well_formed(self) -> bool {
        ids_unique(apps_view(self.apps@))
    }
}


fn opt_eq_ic(a: &Option<String>, c: &Vec<char>) -> (r: bool)
    ensures
        r == (match opt_view(*a) {
            Some(w) => eq_ic(w, c@),
            None => false,
        }),
{
    match a {
        Some(w) => vec_eq_ic(&chars_of(w.as_str()), c),
        None => false,
    }
}

impl DesktopApp {
    /// The entry assumed for a desktop id the index does not know: a name
    /// guessed from the id and an icon named after it.
    pub fn placeholder(desktop_id: &str) -> (r: Self)
        ensures
            r@ == placeholder_view(desktop_id@),
    {
        let id = chars_of(desktop_id);
        let stem = trim_end_matches_vec(&id, &chars_of(".desktop"));
        proof {
            lemma_last_index_of_bounds(stem@, '-');
        }
        let menu_tail = match last_index_of_vec(&stem, '-') {
            Some(k) => {
                assert(k < stem.len());
                let tail = subvec(&stem, k + 1, stem.len());
                if contains_char_vec(&tail, '.') {
                    tail
                } else {
                    assert(stem@.subrange(0, stem@.len() as int) == stem@);
                    subvec(&stem, 0, stem.len())
                }
            },
            None => {
                assert(stem@.subrange(0, stem@.len() as int) == stem@);
                subvec(&stem, 0, stem.len())
            },
        };
        let base = tail_after(&menu_tail, '.');
        let name = title_case_vec(&spaced_vec(&base));
        DesktopApp {
            desktop_id: string_of(&id),
            name: string_of(&name),
            icon_name: Some(string_of(&lower_vec(&stem))),
            startup_wm_class: None,
            exec_command: None,
        }
    }

    /// The window belongs to this entry: its class names the entry, or its
    /// executable is the entry's program.
    pub fn matches_window(&self, window: &WindowInfo) -> (r: bool)
        ensures
            r == app_matches_window(self@, window@),
    {
        let class_matches = match &window.class {
            None => false,
            Some(c) => {
                let cv = chars_of(c.as_str());
                let id = chars_of(self.desktop_id.as_str());
                let stem = trim_end_matches_vec(&id, &chars_of(".desktop"));
                opt_eq_ic(&self.startup_wm_class, &cv) || vec_eq_ic(&stem, &cv) || vec_eq_ic(
                    &chars_of(self.name.as_str()),
                    &cv,
                )
            },
        };
        class_matches || executable_matches_exec(&self.exec_command, &window.executable)
    }
}

proof fn lemma_index_insert_unique(s: Seq<DesktopAppView>, a: DesktopAppView)
    requires
        ids_unique(s),
    ensures
        ids_unique(index_insert(s, a)),
{
    let p = same_id(a.desktop_id);
    lemma_first_where(s, p);
    let k = first_where(s, p);
    let t = index_insert(s, a);
    if k >= 0 {
        assert forall|i: int, j: int|
            0 <= i < t.len() && 0 <= j < t.len() && i != j implies !eq_ic(
            #[trigger] t[i].desktop_id,
            #[trigger] t[j].desktop_id,
        ) by {
            if i == k {
                assert(eq_ic(s[k].desktop_id, a.desktop_id));
                if eq_ic(t[i].desktop_id, t[j].desktop_id) {
                    assert(eq_ic(s[k].desktop_id, s[j].desktop_id));
                }
            } else if j == k {
                assert(eq_ic(s[k].desktop_id, a.desktop_id));
                if eq_ic(t[i].desktop_id, t[j].desktop_id) {
                    assert(eq_ic(s[i].desktop_id, s[k].desktop_id));
                }
            }
        }
    } else {
        assert forall|i: int, j: int|
            0 <= i < t.len() && 0 <= j < t.len() && i != j implies !eq_ic(
            #[trigger] t[i].desktop_id,
            #[trigger] t[j].desktop_id,
        ) by {
            if i == s.len() {
                assert(!p(s[j]));
            } else if j == s.len() {
                assert(!p(s[i]));
            }
        }
    }
}

proof fn lemma_index_of_apps_unique(apps: Seq<DesktopAppView>)
    ensures
        ids_unique(index_of_apps(apps)),
    decreases apps.len(),
{
    if apps.len() > 0 {
        lemma_index_of_apps_unique(apps.drop_last());
        lemma_index_insert_unique(index_of_apps(apps.drop_last()), apps.last());
    }
}

proof fn lemma_index_of_discovered_unique(apps: Seq<DesktopAppView>)
    ensures
        ids_unique(index_of_discovered(apps)),
    decreases apps.len(),
{
    if apps.len() > 0 {
        let s = index_of_discovered(apps.drop_last());
        lemma_index_of_discovered_unique(apps.drop_last());
        let p = same_id(apps.last().desktop_id);
        lemma_first_where(s, p);
        if first_where(s, p) < 0 {
            let t = s.push(apps.last());
            assert forall|i: int, j: int|
                0 <= i < t.len() && 0 <= j < t.len() && i != j implies !eq_ic(
                #[trigger] t[i].desktop_id,
                #[trigger] t[j].desktop_id,
            ) by {
                if i == s.len() {
                    assert(!p(s[j]));
                } else if j == s.len() {
                    assert(!p(s[i]));
                }
            }
        }
    }
}

/// Position of the entry with the given id (ignoring ASCII case).
fn position_of_id(apps: &Vec<DesktopApp>, id: &Vec<char>) -> (r: Option<usize>)
    ensures
        match r {
            Some(k) => k as int == first_where(apps_view(apps@), same_id(id@)) && k < apps@.len(),
            None => first_where(apps_view(apps@), same_id(id@)) == -1,
        },
{
    let ghost s = apps_view(apps@);
    let mut i: usize = 0;
    while i < apps.len()
        invariant
            i <= apps.len(),
            s == apps_view(apps@),
            forall|k: int| 0 <= k < i ==> !same_id(id@)(#[trigger] s[k]),
        decreases apps.len() - i,
    {
        if vec_eq_ic(&chars_of(apps[i].desktop_id.as_str()), id) {
            proof {
                lemma_first_where_is(s, same_id(id@), i as int);
            }
            return Some(i);
        }
        i = i + 1;
    }
    proof {
        lemma_first_where_none(s, same_id(id@));
    }
    None
}

proof fn lemma_seq_lt_irrefl(a: Seq<char>)
    ensures
        !seq_lt(a, a),
    decreases a.len(),
{
    if a.len() > 0 {
        lemma_seq_lt_irrefl(a.drop_first());
    }
}

proof fn lemma_seq_lt_trans(a: Seq<char>, b: Seq<char>, c: Seq<char>)
    requires
        seq_lt(a, b),
        seq_lt(b, c),
    ensures
        seq_lt(a, c),
    decreases a.len(),
{
    if a.len() > 0 && b.len() > 0 && c.len() > 0 {
        if a[0] == b[0] && b[0] == c[0] {
            lemma_seq_lt_trans(a.drop_first(), b.drop_first(), c.drop_first());
        }
    }
}

proof fn lemma_seq_lt_total(a: Seq<char>, b: Seq<char>)
    ensures
        a == b || seq_lt(a, b) || seq_lt(b, a),
    decreases a.len(),
{
    if a.len() > 0 && b.len() > 0 {
        if a[0] == b[0] {
            lemma_seq_lt_total(a.drop_first(), b.drop_first());
            if a.drop_first() == b.drop_first() {
                assert(a =~= seq![a[0]] + a.drop_first());
                assert(b =~= seq![b[0]] + b.drop_first());
            }
        }
    } else if a.len() == 0 && b.len() == 0 {
        assert(a =~= b);
    }
}

proof fn lemma_app_le_total(x: DesktopAppView, y: DesktopAppView)
    ensures
        app_le(x, y) || app_le(y, x),
{
    lemma_seq_lt_total(lower_seq(x.name), lower_seq(y.name));
    lemma_seq_lt_total(x.desktop_id, y.desktop_id);
}

proof fn lemma_app_le_trans(x: DesktopAppView, y: DesktopAppView, z: DesktopAppView)
    requires
        app_le(x, y),
        app_le(y, z),
    ensures
        app_le(x, z),
{
    let (xn, yn, zn) = (lower_seq(x.name), lower_seq(y.name), lower_seq(z.name));
    if seq_lt(xn, yn) && seq_lt(yn, zn) {
        lemma_seq_lt_trans(xn, yn, zn);
    }
    if xn == yn && yn == zn && seq_lt(x.desktop_id, y.desktop_id) && seq_lt(
        y.desktop_id,
        z.desktop_id,
    ) {
        lemma_seq_lt_trans(x.desktop_id, y.desktop_id, z.desktop_id);
    }
}

fn lt_vec(a: &Vec<char>, b: &Vec<char>) -> (r: bool)
    ensures
        r == seq_lt(a@, b@),
{
    let mut i: usize = 0;
    assert(a@.skip(0) == a@);
    assert(b@.skip(0) == b@);
    while i < a.len() && i < b.len() && a[i] == b[i]
        invariant
            i <= a.len(),
            i <= b.len(),
            seq_lt(a@, b@) == seq_lt(a@.skip(i as int), b@.skip(i as int)),
        decreases a.len() - i,
    {
        assert(a@.skip(i as int).drop_first() =~= a@.skip(i + 1));
        assert(b@.skip(i as int).drop_first() =~= b@.skip(i + 1));
        assert(a@.skip(i as int)[0] == a@[i as int]);
        assert(b@.skip(i as int)[0] == b@[i as int]);
        i = i + 1;
    }
    if i == a.len() {
        assert(a@.skip(i as int).len() == 0);
        i < b.len()
    } else if i == b.len() {
        false
    } else {
        assert(a@.skip(i as int)[0] == a@[i as int]);
        assert(b@.skip(i as int)[0] == b@[i as int]);
        a[i] < b[i]
    }
}

fn app_le_exec(x: &DesktopApp, y: &DesktopApp) -> (r: bool)
    ensures
        r == app_le(x@, y@),
{
    let xn = lower_vec(&chars_of(x.name.as_str()));
    let yn = lower_vec(&chars_of(y.name.as_str()));
    let xi = chars_of(x.desktop_id.as_str());
    let yi = chars_of(y.desktop_id.as_str());
    lt_vec(&xn, &yn) || (vec_eq(&xn, &yn) && (lt_vec(&xi, &yi) || vec_eq(&xi, &yi)))
}

pub open spec fn refs_view(v: Seq<&DesktopApp>) -> Seq<DesktopAppView> {
    v.map_values(|a: &DesktopApp| a@)
}

/// The launch target for a desktop id: the known entry with that id, else the
/// first entry answering to its alias key.
pub open spec fn launch_target(s: Seq<DesktopAppView>, id: Seq<char>) -> Option<Seq<char>> {
    match lookup(s, id) {
        Some(a) => Some(a.desktop_id),
        None => match alias_match(s, id) {
            Some(a) => Some(a.desktop_id),
            None => None,
        },
    }
}

impl Default for DesktopIndex {
    fn default() -> (r: Self)
        ensures
            r@ == Seq::<DesktopAppView>::empty(),
    {
        let r = DesktopIndex { apps: Vec::new() };
        assert(r@ =~= Seq::<DesktopAppView>::empty());
        r
    }
}

impl DesktopIndex {
    /// An index of the given entries; a later entry replaces an earlier one
    /// with the same id (ignoring ASCII case) at the earlier one's place.
    pub fn from_apps(apps: Vec<DesktopApp>) -> (r: Self)
        ensures
            r@ == index_of_apps(apps_view(apps@)),
            ids_unique(r@),
    {
        let ghost orig = apps_view(apps@);
        let mut rest = apps;
        let n = rest.len();
        assert(orig.len() == n);
        let mut out: Vec<DesktopApp> = Vec::new();
        let mut i: usize = 0;
        assert(orig.take(0) =~= Seq::<DesktopAppView>::empty());
        assert(apps_view(out@) =~= Seq::<DesktopAppView>::empty());
        while rest.len() > 0
            invariant
                i <= orig.len(),
                orig.len() == i + rest@.len(),
                orig.len() <= usize::MAX,
                apps_view(rest@) == orig.skip(i as int),
                apps_view(out@) == index_of_apps(orig.take(i as int)),
            decreases rest.len(),
        {
            let ghost before_rest = rest@;
            let a = rest.remove(0);
            proof {
                assert(orig.skip(i as int).len() > 0);
                assert(a@ == orig[i as int]) by {
                    assert(apps_view(before_rest)[0] == a@);
                }
                assert(rest@ =~= before_rest.subrange(1, before_rest.len() as int));
                assert forall|k: int| 0 <= k < rest@.len() implies apps_view(rest@)[k] == orig.skip(
                    i + 1,
                )[k] by {
                    assert(apps_view(rest@)[k] == rest@[k]@);
                    assert(rest@[k] == before_rest[k + 1]);
                    assert(apps_view(before_rest)[k + 1] == before_rest[k + 1]@);
                    assert(orig.skip(i as int)[k + 1] == orig.skip(i + 1)[k]);
                }
                assert(apps_view(rest@) =~= orig.skip(i + 1));
                assert(orig.take(i + 1).drop_last() =~= orig.take(i as int));
                assert(orig.take(i + 1).last() == orig[i as int]);
            }
            let id = chars_of(a.desktop_id.as_str());
            match position_of_id(&out, &id) {
                Some(k) => {
                    let ghost before = apps_view(out@);
                    out.set(k, a);
                    assert(apps_view(out@) =~= before.update(k as int, orig[i as int]));
                },
                None => {
                    let ghost before = apps_view(out@);
                    out.push(a);
                    assert(apps_view(out@) =~= before.push(orig[i as int]));
                },
            }
            i = i + 1;
        }
        assert(orig.skip(i as int).len() == 0);
        assert(orig.take(i as int) =~= orig);
        proof {
            lemma_index_of_apps_unique(orig);
        }
        DesktopIndex { apps: out }
    }

    /// An index of discovered entries in discovery order; an entry whose id
    /// (ignoring ASCII case) was already seen is skipped.
    pub fn from_discovered(apps: Vec<DesktopApp>) -> (r: Self)
        ensures
            r@ == index_of_discovered(apps_view(apps@)),
            ids_unique(r@),
    {
        let ghost orig = apps_view(apps@);
        let mut rest = apps;
        let n = rest.len();
        assert(orig.len() == n);
        let mut out: Vec<DesktopApp> = Vec::new();
        let mut i: usize = 0;
        assert(orig.take(0) =~= Seq::<DesktopAppView>::empty());
        assert(apps_view(out@) =~= Seq::<DesktopAppView>::empty());
        while rest.len() > 0
            invariant
                i <= orig.len(),
                orig.len() == i + rest@.len(),
                orig.len() <= usize::MAX,
                apps_view(rest@) == orig.skip(i as int),
                apps_view(out@) == index_of_discovered(orig.take(i as int)),
            decreases rest.len(),
        {
            let ghost before_rest = rest@;
            let a = rest.remove(0);
            proof {
                assert(orig.skip(i as int).len() > 0);
                assert(a@ == orig[i as int]) by {
                    assert(apps_view(before_rest)[0] == a@);
                }
                assert(rest@ =~= before_rest.subrange(1, before_rest.len() as int));
                assert forall|k: int| 0 <= k < rest@.len() implies apps_view(rest@)[k] == orig.skip(
                    i + 1,
                )[k] by {
                    assert(apps_view(rest@)[k] == rest@[k]@);
                    assert(rest@[k] == before_rest[k + 1]);
                    assert(apps_view(before_rest)[k + 1] == before_rest[k + 1]@);
                    assert(orig.skip(i as int)[k + 1] == orig.skip(i + 1)[k]);
                }
                assert(apps_view(rest@) =~= orig.skip(i + 1));
                assert(orig.take(i + 1).drop_last() =~= orig.take(i as int));
                assert(orig.take(i + 1).last() == orig[i as int]);
            }
            let id = chars_of(a.desktop_id.as_str());
            match position_of_id(&out, &id) {
                Some(_) => {},
                None => {
                    let ghost before = apps_view(out@);
                    out.push(a);
                    assert(apps_view(out@) =~= before.push(orig[i as int]));
                },
            }
            i = i + 1;
        }
        assert(orig.skip(i as int).len() == 0);
        assert(orig.take(i as int) =~= orig);
        proof {
            lemma_index_of_discovered_unique(orig);
        }
        DesktopIndex { apps: out }
    }

    /// The entry with the given desktop id, ignoring ASCII case.
    pub fn by_id(&self, desktop_id: &str) -> (r: Option<&DesktopApp>)
        ensures
            match r {
                Some(a) => lookup(self@, desktop_id@) == Some(a@),
                None => lookup(self@, desktop_id@) is None,
            },
    {
        let id = chars_of(desktop_id);
        match position_of_id(&self.apps, &id) {
            Some(k) => Some(&self.apps[k]),
            None => None,
        }
    }

    /// All entries, ordered by lowercased display name, then desktop id.
    pub fn apps(&self) -> (r: Vec<&DesktopApp>)
        ensures
            refs_view(r@).to_multiset() == self@.to_multiset(),
            r@.len() == self@.len(),
            forall|i: int, j: int|
                0 <= i < j < r@.len() ==> app_le(#[trigger] r@[i]@, #[trigger] r@[j]@),
    {
        broadcast use vstd::seq_lib::group_to_multiset_ensures;
        broadcast use vstd::seq_lib::to_multiset_remove;
        broadcast use vstd::seq_lib::to_multiset_contains;
        broadcast use vstd::seq_lib::to_multiset_build;
        broadcast use vstd::multiset::group_multiset_axioms;
        let mut rest: Vec<&DesktopApp> = Vec::new();
        let mut i: usize = 0;
        while i < self.apps.len()
            invariant
                i <= self.apps.len(),
                refs_view(rest@) == apps_view(self.apps@).take(i as int),
            decreases self.apps.len() - i,
        {
            let ghost old_rest = rest@;
            rest.push(&self.apps[i]);
            assert(refs_view(rest@) =~= refs_view(old_rest).push(self.apps@[i as int]@));
            assert(apps_view(self.apps@).take(i + 1) =~= apps_view(self.apps@).take(i as int).push(
                self.apps@[i as int]@,
            ));
            i = i + 1;
        }
        assert(apps_view(self.apps@).take(self.apps.len() as int) =~= self@);
        let mut out: Vec<&DesktopApp> = Vec::new();
        assert(refs_view(out@) =~= Seq::<DesktopAppView>::empty());
        assert(refs_view(out@).to_multiset() =~= vstd::multiset::Multiset::empty());
        while rest.len() > 0
            invariant
                refs_view(out@).to_multiset().add(refs_view(rest@).to_multiset())
                    == self@.to_multiset(),
                out@.len() + rest@.len() == self@.len(),
                forall|a: int, b: int|
                    0 <= a < b < out@.len() ==> app_le(#[trigger] out@[a]@, #[trigger] out@[b]@),
                forall|a: int, k: int|
                    0 <= a < out@.len() && 0 <= k < rest@.len() ==> app_le(
                        #[trigger] out@[a]@,
                        #[trigger] rest@[k]@,
                    ),
            decreases rest.len(),
        {
            let mut m: usize = 0;
            let mut j: usize = 1;
            while j < rest.len()
                invariant
                    1 <= j <= rest.len(),
                    m < rest.len(),
                    forall|k: int| 0 <= k < j ==> app_le(rest@[m as int]@, #[trigger] rest@[k]@),
                decreases rest.len() - j,
            {
                proof {
                    lemma_seq_lt_irrefl(lower_seq(rest@[j as int]@.name));
                    lemma_seq_lt_irrefl(rest@[j as int]@.desktop_id);
                }
                if !app_le_exec(rest[m], rest[j]) {
                    proof {
                        lemma_app_le_total(rest@[m as int]@, rest@[j as int]@);
                        assert forall|k: int| 0 <= k < j + 1 implies app_le(
                            rest@[j as int]@,
                            #[trigger] rest@[k]@,
                        ) by {
                            if k < j {
                                lemma_app_le_trans(
                                    rest@[j as int]@,
                                    rest@[m as int]@,
                                    rest@[k]@,
                                );
                            }
                        }
                    }
                    m = j;
                }
                j = j + 1;
            }
            proof {
                lemma_seq_lt_irrefl(lower_seq(rest@[0]@.name));
                lemma_seq_lt_irrefl(rest@[0]@.desktop_id);
            }
            let ghost old_rest = rest@;
            let ghost old_out = out@;
            let x = rest.remove(m);
            out.push(x);
            proof {
                assert(refs_view(rest@) =~= refs_view(old_rest).remove(m as int));
                assert(refs_view(out@) =~= refs_view(old_out).push(x@));
                assert(refs_view(old_rest)[m as int] == x@);
                assert(refs_view(old_rest).contains(refs_view(old_rest)[m as int]));
                vstd::seq_lib::to_multiset_contains(refs_view(old_rest), x@);
                vstd::seq_lib::to_multiset_build(refs_view(old_out), x@);
                vstd::seq_lib::to_multiset_remove(refs_view(old_rest), m as int);
                assert(refs_view(old_rest).to_multiset().count(x@) > 0);
                assert(refs_view(old_out).push(x@).to_multiset() =~= refs_view(
                    old_out,
                ).to_multiset().insert(x@));
                assert(refs_view(old_rest).remove(m as int).to_multiset()
                    == refs_view(old_rest).to_multiset().remove(x@));
                assert(refs_view(out@).to_multiset().add(refs_view(rest@).to_multiset())
                    =~= self@.to_multiset());
                assert forall|a: int, k: int|
                    0 <= a < out@.len() && 0 <= k < rest@.len() implies app_le(
                    #[trigger] out@[a]@,
                    #[trigger] rest@[k]@,
                ) by {
                    let kk = if k < m {
                        k
                    } else {
                        k + 1
                    };
                    assert(rest@[k] == old_rest[kk]);
                    if a < old_out.len() {
                        assert(out@[a] == old_out[a]);
                    }
                }
                assert forall|a: int, b: int| 0 <= a < b < out@.len() implies app_le(
                    #[trigger] out@[a]@,
                    #[trigger] out@[b]@,
                ) by {
                    if b < old_out.len() {
                        assert(out@[a] == old_out[a]);
                        assert(out@[b] == old_out[b]);
                    } else {
                        assert(out@[a] == old_out[a]);
                        assert(out@[b] == old_rest[m as int]);
                    }
                }
            }
        }
        out
    }

    /// The first entry (in index order) that claims the window.
    pub fn match_window(&self, window: &WindowInfo) -> (r: Option<&DesktopApp>)
        ensures
            match r {
                Some(a) => window_match(self@, window@) == Some(a@),
                None => window_match(self@, window@) is None,
            },
    {
        let ghost s = self@;
        let mut i: usize = 0;
        while i < self.apps.len()
            invariant
                i <= self.apps.len(),
                s == apps_view(self.apps@),
                forall|k: int| 0 <= k < i ==> !matching_window(window@)(#[trigger] s[k]),
            decreases self.apps.len() - i,
        {
            if self.apps[i].matches_window(window) {
                proof {
                    lemma_first_where_is(s, matching_window(window@), i as int);
                }
                return Some(&self.apps[i]);
            }
            i = i + 1;
        }
        proof {
            lemma_first_where_none(s, matching_window(window@));
        }
        None
    }

    /// The first entry answering to the alias key of an unknown desktop id.
    pub fn match_desktop_alias(&self, desktop_id: &str) -> (r: Option<&DesktopApp>)
        ensures
            match r {
                Some(a) => alias_match(self@, desktop_id@) == Some(a@),
                None => alias_match(self@, desktop_id@) is None,
            },
    {
        let q = alias_key_vec(&chars_of(desktop_id));
        if q.len() == 0 {
            return None;
        }
        let ghost s = self@;
        let mut i: usize = 0;
        while i < self.apps.len()
            invariant
                i <= self.apps.len(),
                s == apps_view(self.apps@),
                q@ == alias_key(desktop_id@),
                q@.len() > 0,
                forall|k: int| 0 <= k < i ==> !matching_alias(q@)(#[trigger] s[k]),
            decreases self.apps.len() - i,
        {
            let app = &self.apps[i];
            let id = lower_vec(&chars_of(app.desktop_id.as_str()));
            let name = lower_vec(&chars_of(app.name.as_str()));
            let wm = match &app.startup_wm_class {
                Some(w) => lower_vec(&chars_of(w.as_str())),
                None => Vec::new(),
            };
            if contains_vec(&id, &q) || vec_eq(&name, &q) || contains_vec(&name, &q) || vec_eq(
                &wm,
                &q,
            ) {
                proof {
                    assert(s[i as int] == app@);
                    lemma_first_where_is(s, matching_alias(q@), i as int);
                }
                return Some(app);
            }
            assert(s[i as int] == app@);
            i = i + 1;
        }
        proof {
            lemma_first_where_none(s, matching_alias(q@));
        }
        None
    }

    /// The desktop id to launch for a requested id: the known entry's own id,
    /// else the id of the first entry answering to the request's alias key.
    pub fn resolve_launch_id(&self, desktop_id: &str) -> (r: Option<&str>)
        ensures
            match r {
                Some(t) => launch_target(self@, desktop_id@) == Some(t@),
                None => launch_target(self@, desktop_id@) is None,
            },
    {
        match self.by_id(desktop_id) {
            Some(app) => Some(app.desktop_id.as_str()),
            None => match self.match_desktop_alias(desktop_id) {
                Some(app) => Some(app.desktop_id.as_str()),
                None => None,
            },
        }
    }
}

/// Strings joined with `-` between them.
pub open spec fn join_dashed(parts: Seq<Seq<char>>) -> Seq<char>
    decreases parts.len(),
{
    if parts.len() == 0 {
        Seq::empty()
    } else if parts.len() == 1 {
        parts[0]
    } else {
        join_dashed(parts.drop_last()) + seq!['-'] + parts.last()
    }
}

/// The desktop id of a file below an applications directory: the components
/// of its path past the directory's, joined with `-`; none when the path is
/// not strictly below the directory.
pub open spec fn desktop_id_for_path_spec(root: Seq<char>, path: Seq<char>) -> Option<Seq<char>> {
    let rc = components(root);
    let pc = components(path);
    if rc.len() < pc.len() && pc.take(rc.len() as int) == rc {
        Some(join_dashed(pc.skip(rc.len() as int)))
    } else {
        None
    }
}

/// The desktop id of a desktop file found below an applications directory.
pub fn desktop_id_for_path(root: &str, path: &str) -> (r: Option<String>)
    ensures
        opt_view(r) == desktop_id_for_path_spec(root@, path@),
{
    let rc = components_vec(&chars_of(root));
    let pc = components_vec(&chars_of(path));
    let ghost rv = rc@.map_values(|w: Vec<char>| w@);
    let ghost pv = pc@.map_values(|w: Vec<char>| w@);
    if rc.len() >= pc.len() {
        return None;
    }
    let mut i: usize = 0;
    while i < rc.len()
        invariant
            i <= rc@.len(),
            rc@.len() < pc@.len(),
            rv == rc@.map_values(|w: Vec<char>| w@),
            pv == pc@.map_values(|w: Vec<char>| w@),
            rv == components(root@),
            pv == components(path@),
            forall|k: int| 0 <= k < i ==> #[trigger] rv[k] == pv[k],
        decreases rc.len() - i,
    {
        assert(rv[i as int] == rc@[i as int]@ && pv[i as int] == pc@[i as int]@);
        if !vec_eq(&rc[i], &pc[i]) {
            assert(pv.take(rv.len() as int)[i as int] != rv[i as int]);
            return None;
        }
        i = i + 1;
    }
    assert(pv.take(rv.len() as int) =~= rv);
    let ghost rest = pv.skip(rv.len() as int);
    let n = rc.len();
    let mut out: Vec<char> = subvec(&pc[n], 0, pc[n].len());
    assert(pc@[n as int]@.subrange(0, pc@[n as int]@.len() as int) =~= pc@[n as int]@);
    assert(rest.take(1) =~= seq![rest[0]]);
    assert(rest[0] == pc@[n as int]@);
    let mut j: usize = n + 1;
    while j < pc.len()
        invariant
            n < j <= pc@.len(),
            n == rv.len(),
            pv == pc@.map_values(|w: Vec<char>| w@),
            rest == pv.skip(n as int),
            out@ == join_dashed(rest.take(j - n)),
        decreases pc.len() - j,
    {
        let ghost before = out@;
        out.push('-');
        let part = &pc[j];
        out = crate::text::concat_vec(&out, part);
        assert(rest.take(j - n + 1).drop_last() =~= rest.take(j - n));
        assert(rest.take(j - n + 1).last() == pc@[j as int]@);
        assert(out@ =~= before + seq!['-'] + pc@[j as int]@);
        j = j + 1;
    }
    assert(rest.take(rest.len() as int) =~= rest);
    Some(string_of(&out))
}

/// The directories searched for desktop entries, from the values of
/// `XDG_DATA_HOME`, `HOME` and the split `XDG_DATA_DIRS`: the user's
/// `applications` directory, then that of each system data directory.
pub fn application_dirs(data_home: Option<&str>, home: Option<&str>, data_dirs: Option<&Vec<String>>) -> (r: Vec<String>)
    ensures
        strings_view(r@) == data_dirs_below(
            opt_str_seq(data_home),
            opt_str_seq(home),
            opt_strings_view(data_dirs),
            "applications"@,
        ),
{
    data_dirs_with(data_home, home, data_dirs, "applications")
}

/// An index built from entries whose ids are distinct ignoring ASCII case
/// holds them as given.
pub proof fn lemma_index_of_unique_apps(apps: Seq<DesktopAppView>)
    requires
        ids_unique(apps),
    ensures
        index_of_apps(apps) == apps,
    decreases apps.len(),
{
    if apps.len() > 0 {
        let t = apps.drop_last();
        assert forall|i: int, j: int| 0 <= i < t.len() && 0 <= j < t.len() && i != j implies !eq_ic(
            #[trigger] t[i].desktop_id,
            #[trigger] t[j].desktop_id,
        ) by {
            assert(t[i] == apps[i] && t[j] == apps[j]);
        }
        lemma_index_of_unique_apps(t);
        let last = apps.last();
        assert forall|k: int| 0 <= k < t.len() implies !same_id(last.desktop_id)(#[trigger] t[k]) by {
            assert(t[k] == apps[k]);
            assert(!eq_ic(apps[k].desktop_id, apps[apps.len() - 1].desktop_id));
        }
        lemma_first_where_none(t, same_id(last.desktop_id));
        assert(t.push(last) =~= apps);
    }
}

/// Looking an id up in an index built from entries with distinct ids
/// (ignoring ASCII case) gives the first of those entries whose id equals
/// it ignoring ASCII case.
pub proof fn lemma_by_id_finds_first_match(apps: Seq<DesktopAppView>, id: Seq<char>)
    requires
        ids_unique(apps),
    ensures
        lookup(index_of_apps(apps), id) == (if first_where(apps, same_id(id)) >= 0 {
            Some(apps[first_where(apps, same_id(id))])
        } else {
            None
        }),
{
    lemma_index_of_unique_apps(apps);
}

/// A window whose class names an entry belongs to it: the class equals,
/// ignoring ASCII case, the entry's StartupWMClass, its desktop id without
/// `.desktop`, or its display name.
pub proof fn lemma_class_names_entry(app: DesktopAppView, w: WindowInfoView, c: Seq<char>)
    requires
        w.class == Some(c),
        (app.startup_wm_class matches Some(s) && eq_ic(s, c)) || eq_ic(
            trim_end_matches(app.desktop_id, ".desktop"@),
            c,
        ) || eq_ic(app.name, c),
    ensures
        app_matches_window(app, w),
{
}

/// A window whose executable is the program of the entry's command belongs
/// to it, whatever its class.
pub proof fn lemma_executable_names_entry(app: DesktopAppView, w: WindowInfoView)
    requires
        executable_matches(app.exec_command, w.executable),
    ensures
        app_matches_window(app, w),
{
}

/// A window with no class and no matching executable belongs to no entry.
pub proof fn lemma_unnamed_window_unmatched(app: DesktopAppView, w: WindowInfoView)
    requires
        w.class is None,
        !executable_matches(app.exec_command, w.executable),
    ensures
        !app_matches_window(app, w),
{
}

} // verus!
