//! Unix path component rules on character sequences.
//!
//! A path's final component is the last `/`-separated segment that is neither
//! empty nor `.`; a path that ends in `..`, or has no such segment, has none.
use crate::seqs::{keep, lemma_keep_push};
use crate::model::assemble::strings_view;
use crate::text::{
    chars_of, concat_vec, last_index_of, last_index_of_vec, lemma_last_index_of_bounds, string_of,
    subvec,
};
use vstd::prelude::*;

verus! {

pub open spec fn dot() -> Seq<char> {
    seq!['.']
}

pub open spec fn dot_dot() -> Seq<char> {
    seq!['.', '.']
}

/// The path starts at the root.
pub open spec fn is_absolute(s: Seq<char>) -> bool {
    s.len() > 0 && s[0] == '/'
}

/// The final component of a path.
pub open spec fn file_name(s: Seq<char>) -> Option<Seq<char>>
    decreases s.len(),
{
    let k = last_index_of(s, '/');
    let seg = s.subrange(k + 1, s.len() as int);
    if seg.len() == 0 || seg == dot() {
        if k < 0 {
            None
        } else {
            proof {
                lemma_last_index_of_bounds(s, '/');
            }
            file_name(s.subrange(0, k))
        }
    } else if seg == dot_dot() {
        None
    } else {
        Some(seg)
    }
}

/// The final component without its extension.
pub open spec fn file_stem(s: Seq<char>) -> Option<Seq<char>> {
    match file_name(s) {
        None => None,
        Some(f) => {
            let k = last_index_of(f, '.');
            if k <= 0 {
                Some(f)
            } else {
                Some(f.subrange(0, k))
            }
        },
    }
}

/// The extension of the final component.
pub open spec fn extension(s: Seq<char>) -> Option<Seq<char>> {
    match file_name(s) {
        None => None,
        Some(f) => {
            let k = last_index_of(f, '.');
            if k <= 0 {
                None
            } else {
                Some(f.subrange(k + 1, f.len() as int))
            }
        },
    }
}

pub fn is_absolute_vec(v: &Vec<char>) -> (r: bool)
    ensures
        r == is_absolute(v@),
{
    v.len() > 0 && v[0] == '/'
}

fn is_dot_segment(v: &Vec<char>, from: usize, to: usize) -> (r: (bool, bool))
    requires
        from <= to <= v.len(),
    ensures
        r.0 == (v@.subrange(from as int, to as int) == dot()),
        r.1 == (v@.subrange(from as int, to as int) == dot_dot()),
{
    let ghost seg = v@.subrange(from as int, to as int);
    let one = to - from == 1 && v[from] == '.';
    let two = to - from == 2 && v[from] == '.' && v[from + 1] == '.';
    proof {
        if to - from == 1 {
            assert(one ==> seg =~= dot());
            assert(seg == dot() ==> seg[0] == '.');
        }
        if to - from == 2 {
            assert(two ==> seg =~= dot_dot());
            assert(seg == dot_dot() ==> seg[0] == '.' && seg[1] == '.');
        }
        if to - from != 1 {
            assert(seg.len() != dot().len());
        }
        if to - from != 2 {
            assert(seg.len() != dot_dot().len());
        }
    }
    (one, two)
}

/// The final component of a path.
pub fn file_name_vec(v: &Vec<char>) -> (r: Option<Vec<char>>)
    ensures
        match r {
            Some(f) => file_name(v@) == Some(f@),
            None => file_name(v@) is None,
        },
{
    let mut end = v.len();
    assert(v@.subrange(0, end as int) == v@);
    loop
        invariant
            end <= v.len(),
            file_name(v@) == file_name(v@.subrange(0, end as int)),
        decreases end,
    {
        let ghost s = v@.subrange(0, end as int);
        let prefix = subvec(v, 0, end);
        let k = last_index_of_vec(&prefix, '/');
        proof {
            lemma_last_index_of_bounds(s, '/');
        }
        let start = match k {
            Some(k) => k + 1,
            None => 0,
        };
        let ghost seg = s.subrange(last_index_of(s, '/') + 1, s.len() as int);
        assert(seg == v@.subrange(start as int, end as int));
        let (one, two) = is_dot_segment(v, start, end);
        if start == end || one {
            match k {
                None => {
                    return None;
                },
                Some(kk) => {
                    assert(s.subrange(0, kk as int) == v@.subrange(0, kk as int));
                    end = kk;
                },
            }
        } else if two {
            return None;
        } else {
            return Some(subvec(v, start, end));
        }
    }
}

/// The final component and extension of a path.
pub fn stem_and_extension(v: &Vec<char>) -> (r: (Option<Vec<char>>, Option<Vec<char>>))
    ensures
        match r.0 {
            Some(f) => file_stem(v@) == Some(f@),
            None => file_stem(v@) is None,
        },
        match r.1 {
            Some(f) => extension(v@) == Some(f@),
            None => extension(v@) is None,
        },
{
    match file_name_vec(v) {
        None => (None, None),
        Some(f) => {
            let k = last_index_of_vec(&f, '.');
            proof {
                lemma_last_index_of_bounds(f@, '.');
            }
            match k {
                Some(k) if k > 0 => {
                    let stem = subvec(&f, 0, k);
                    let ext = subvec(&f, k + 1, f.len());
                    (Some(stem), Some(ext))
                },
                _ => {
                    let whole = subvec(&f, 0, f.len());
                    assert(f@.subrange(0, f@.len() as int) == f@);
                    (Some(whole), None)
                },
            }
        },
    }
}

/// `path` joined below `dir`, as a path join does: an absolute `path`
/// replaces `dir`, otherwise one `/` separates them.
pub open spec fn path_join(dir: Seq<char>, path: Seq<char>) -> Seq<char> {
    if is_absolute(path) {
        path
    } else if dir.len() == 0 || dir.last() == '/' {
        dir + path
    } else {
        dir + seq!['/'] + path
    }
}

pub fn join_path(dir: &Vec<char>, path: &Vec<char>) -> (r: Vec<char>)
    ensures
        r@ == path_join(dir@, path@),
{
    if is_absolute_vec(path) {
        return subvec(path, 0, path.len());
    }
    if dir.len() == 0 || dir[dir.len() - 1] == '/' {
        concat_vec(dir, path)
    } else {
        let mut d = subvec(dir, 0, dir.len());
        d.push('/');
        assert(d@ =~= dir@ + seq!['/']);
        concat_vec(&d, path)
    }
}

/// State of splitting at `/`: the finished segments and the one being read.
pub struct SegmentState {
    pub segments: Seq<Seq<char>>,
    pub current: Seq<char>,
}

pub open spec fn segment_run(s: Seq<char>) -> SegmentState
    decreases s.len(),
{
    if s.len() == 0 {
        SegmentState { segments: Seq::empty(), current: Seq::empty() }
    } else {
        let st = segment_run(s.drop_last());
        if s.last() == '/' {
            SegmentState { segments: st.segments.push(st.current), current: Seq::empty() }
        } else {
            SegmentState { current: st.current.push(s.last()), ..st }
        }
    }
}

/// The `/`-separated segments of a path, empty ones included.
pub open spec fn segments(s: Seq<char>) -> Seq<Seq<char>> {
    segment_run(s).segments.push(segment_run(s).current)
}

/// A segment that names something: neither empty nor `.`.
pub open spec fn named_segment() -> spec_fn(Seq<char>) -> bool {
    |seg: Seq<char>| seg.len() > 0 && seg != dot()
}

/// The components of a Unix path: `/` for the root of an absolute path, `.`
/// when a relative path starts with a `.` segment, then its segments that are
/// neither empty nor `.`.
pub open spec fn components(s: Seq<char>) -> Seq<Seq<char>> {
    let lead: Seq<Seq<char>> = if is_absolute(s) {
        seq![seq!['/']]
    } else if segments(s)[0] == dot() {
        seq![dot()]
    } else {
        Seq::empty()
    };
    lead + keep(segments(s), named_segment())
}

fn is_dot(v: &Vec<char>) -> (r: bool)
    ensures
        r == (v@ == dot()),
{
    if v.len() == 1 && v[0] == '.' {
        assert(v@ =~= dot());
        true
    } else {
        false
    }
}

/// The components of a path.
pub fn components_vec(v: &Vec<char>) -> (r: Vec<Vec<char>>)
    ensures
        r@.map_values(|w: Vec<char>| w@) == components(v@),
{
    let mut out: Vec<Vec<char>> = Vec::new();
    let mut current: Vec<char> = Vec::new();
    let mut first: Option<Vec<char>> = None;
    let ghost named = named_segment();
    let mut i: usize = 0;
    assert(v@.subrange(0, 0) =~= Seq::<char>::empty());
    assert(out@.map_values(|w: Vec<char>| w@) =~= Seq::<Seq<char>>::empty());
    while i < v.len()
        invariant
            i <= v.len(),
            named == named_segment(),
            current@ == segment_run(v@.subrange(0, i as int)).current,
            out@.map_values(|w: Vec<char>| w@) == keep(
                segment_run(v@.subrange(0, i as int)).segments,
                named,
            ),
            match first {
                Some(f) => segment_run(v@.subrange(0, i as int)).segments.len() > 0 && f@
                    == segment_run(v@.subrange(0, i as int)).segments[0],
                None => segment_run(v@.subrange(0, i as int)).segments.len() == 0,
            },
        decreases v.len() - i,
    {
        let ch = v[i];
        let ghost st = segment_run(v@.subrange(0, i as int));
        assert(v@.subrange(0, i + 1).drop_last() == v@.subrange(0, i as int));
        if ch == '/' {
            proof {
                lemma_keep_push(st.segments, st.current, named);
            }
            if first.is_none() {
                first = Some(subvec(&current, 0, current.len()));
                assert(current@.subrange(0, current@.len() as int) =~= current@);
            }
            let keep_it = current.len() > 0 && !is_dot(&current);
            if keep_it {
                let ghost old_out = out@;
                let ghost cur = current@;
                out.push(current);
                assert(out@.map_values(|w: Vec<char>| w@) =~= old_out.map_values(
                    |w: Vec<char>| w@,
                ).push(cur));
            }
            current = Vec::new();
        } else {
            current.push(ch);
        }
        i = i + 1;
    }
    assert(v@.subrange(0, v.len() as int) == v@);
    let ghost st = segment_run(v@);
    proof {
        lemma_keep_push(st.segments, st.current, named);
    }
    let first_is_dot = match &first {
        Some(f) => is_dot(f),
        None => is_dot(&current),
    };
    assert(first_is_dot == (segments(v@)[0] == dot()));
    if current.len() > 0 && !is_dot(&current) {
        let ghost old_out = out@;
        let ghost cur = current@;
        out.push(current);
        assert(out@.map_values(|w: Vec<char>| w@) =~= old_out.map_values(|w: Vec<char>| w@).push(
            cur,
        ));
    }
    let ghost body = out@.map_values(|w: Vec<char>| w@);
    assert(body == keep(segments(v@), named_segment()));
    if is_absolute_vec(v) {
        let mut r: Vec<Vec<char>> = Vec::new();
        let mut head: Vec<char> = Vec::new();
        head.push('/');
        assert(head@ =~= seq!['/']);
        r.push(head);
        let ghost rest = out@;
        r.append(&mut out);
        assert(r@ =~= seq![r@[0]] + rest);
        assert(r@.map_values(|w: Vec<char>| w@) =~= seq![seq!['/']] + body);
        r
    } else if first_is_dot {
        let mut r: Vec<Vec<char>> = Vec::new();
        let mut head: Vec<char> = Vec::new();
        head.push('.');
        assert(head@ =~= dot());
        r.push(head);
        let ghost rest = out@;
        r.append(&mut out);
        assert(r@ =~= seq![r@[0]] + rest);
        assert(r@.map_values(|w: Vec<char>| w@) =~= seq![dot()] + body);
        r
    } else {
        assert(Seq::<Seq<char>>::empty() + body =~= body);
        out
    }
}

/// A component that names a file or directory: not the root, `.` or `..`.
pub open spec fn normal_component(c: Seq<char>) -> bool {
    c != seq!['/'] && c != dot() && c != dot_dot()
}

/// The name of the directory that holds the path: the component before the
/// last one, when there are two and it names a directory.
pub open spec fn parent_name(s: Seq<char>) -> Option<Seq<char>> {
    let c = components(s);
    if c.len() >= 2 && normal_component(c[c.len() - 2]) {
        Some(c[c.len() - 2])
    } else {
        None
    }
}

/// The name of the directory that holds the path.
pub fn parent_name_vec(v: &Vec<char>) -> (r: Option<Vec<char>>)
    ensures
        match r {
            Some(n) => parent_name(v@) == Some(n@),
            None => parent_name(v@) is None,
        },
{
    let mut c = components_vec(v);
    let ghost cv = c@.map_values(|w: Vec<char>| w@);
    let n = c.len();
    if n < 2 {
        return None;
    }
    let cand = c.swap_remove(n - 2);
    assert(cand@ == cv[n - 2]);
    let is_root = cand.len() == 1 && cand[0] == '/';
    let is_dot = cand.len() == 1 && cand[0] == '.';
    let is_dot_dot = cand.len() == 2 && cand[0] == '.' && cand[1] == '.';
    proof {
        if cand@.len() == 1 {
            assert(is_root == (cand@ =~= seq!['/']));
            assert(is_dot == (cand@ =~= dot()));
        } else {
            assert(cand@ != seq!['/'] && cand@ != dot());
        }
        if cand@.len() == 2 {
            assert(is_dot_dot == (cand@ =~= dot_dot()));
        } else {
            assert(cand@ != dot_dot());
        }
    }
    if is_root || is_dot || is_dot_dot {
        None
    } else {
        Some(cand)
    }
}

/// `sub` joined below `dir`, both as strings.
pub fn join_str(dir: &str, sub: &str) -> (r: String)
    ensures
        r@ == path_join(dir@, sub@),
{
    string_of(&join_path(&chars_of(dir), &chars_of(sub)))
}

/// Each of `dirs` with `sub` joined below it.
pub open spec fn joined_below(dirs: Seq<Seq<char>>, sub: Seq<char>) -> Seq<Seq<char>> {
    dirs.map_values(|d: Seq<char>| path_join(d, sub))
}

/// `sub` joined below each of `dirs`, in order.
pub fn join_each(dirs: &Vec<String>, sub: &str) -> (r: Vec<String>)
    ensures
        strings_view(r@) == joined_below(strings_view(dirs@), sub@),
{
    let mut out: Vec<String> = Vec::new();
    let mut i: usize = 0;
    while i < dirs.len()
        invariant
            i <= dirs.len(),
            strings_view(out@) == joined_below(strings_view(dirs@.subrange(0, i as int)), sub@),
        decreases dirs.len() - i,
    {
        let ghost before = out@;
        out.push(join_str(dirs[i].as_str(), sub));
        proof {
            assert(dirs@.subrange(0, i + 1) =~= dirs@.subrange(0, i as int).push(dirs@[i as int]));
            assert(strings_view(out@) =~= strings_view(before).push(path_join(dirs@[i as int]@, sub@)));
            assert(joined_below(strings_view(dirs@.subrange(0, i + 1)), sub@) =~= joined_below(
                strings_view(dirs@.subrange(0, i as int)),
                sub@,
            ).push(path_join(dirs@[i as int]@, sub@)));
        }
        i = i + 1;
    }
    assert(dirs@.subrange(0, dirs@.len() as int) =~= dirs@);
    out
}

/// The system data directories: those listed in `XDG_DATA_DIRS` when it is
/// set, else `/usr/local/share` and `/usr/share`.
pub open spec fn system_data_dirs(listed: Option<Seq<Seq<char>>>) -> Seq<Seq<char>> {
    match listed {
        Some(d) => d,
        None => seq!["/usr/local/share"@, "/usr/share"@],
    }
}

/// The user's data directory below `sub`: `XDG_DATA_HOME/sub` when that is
/// set, else `HOME/.local/share/sub`, else none.
pub open spec fn user_data_dir(
    data_home: Option<Seq<char>>,
    home: Option<Seq<char>>,
    sub: Seq<char>,
) -> Seq<Seq<char>> {
    match data_home {
        Some(h) => seq![path_join(h, sub)],
        None => match home {
            Some(h) => seq![path_join(h, ".local/share/"@ + sub)],
            None => Seq::empty(),
        },
    }
}

/// The data directories of the base-directory rules, each with `sub`
/// joined below: the user's first, then the system's.
pub open spec fn data_dirs_below(
    data_home: Option<Seq<char>>,
    home: Option<Seq<char>>,
    listed: Option<Seq<Seq<char>>>,
    sub: Seq<char>,
) -> Seq<Seq<char>> {
    user_data_dir(data_home, home, sub) + joined_below(system_data_dirs(listed), sub)
}

pub open spec fn opt_strings_view(o: Option<&Vec<String>>) -> Option<Seq<Seq<char>>> {
    match o {
        Some(v) => Some(strings_view(v@)),
        None => None,
    }
}

pub open spec fn opt_str_seq(o: Option<&str>) -> Option<Seq<char>> {
    match o {
        Some(s) => Some(s@),
        None => None,
    }
}

/// The data directories of the base-directory rules with `sub` joined
/// below each, from the values of `XDG_DATA_HOME`, `HOME` and the split
/// `XDG_DATA_DIRS`.
pub fn data_dirs_with(
    data_home: Option<&str>,
    home: Option<&str>,
    listed: Option<&Vec<String>>,
    sub: &str,
) -> (r: Vec<String>)
    ensures
        strings_view(r@) == data_dirs_below(
            opt_str_seq(data_home),
            opt_str_seq(home),
            opt_strings_view(listed),
            sub@,
        ),
{
    let home_sub = string_of(&concat_vec(&chars_of(".local/share/"), &chars_of(sub)));
    let mut out: Vec<String> = Vec::new();
    match data_home {
        Some(h) => out.push(join_str(h, sub)),
        None => match home {
            Some(h) => out.push(join_str(h, home_sub.as_str())),
            None => {},
        },
    }
    let ghost user = strings_view(out@);
    assert(user == user_data_dir(opt_str_seq(data_home), opt_str_seq(home), sub@));
    let system: Vec<String> = match listed {
        Some(d) => join_each(d, sub),
        None => {
            let defaults = vec![String::from_str("/usr/local/share"), String::from_str("/usr/share")];
            proof {
                reveal_strlit("/usr/local/share");
                reveal_strlit("/usr/share");
            }
            assert(strings_view(defaults@) =~= seq!["/usr/local/share"@, "/usr/share"@]);
            join_each(&defaults, sub)
        },
    };
    let mut k: usize = 0;
    while k < system.len()
        invariant
            k <= system.len(),
            strings_view(out@) == user + strings_view(system@.subrange(0, k as int)),
        decreases system.len() - k,
    {
        let ghost before = out@;
        let c = system[k].clone();
        out.push(c);
        assert(system@.subrange(0, k + 1) =~= system@.subrange(0, k as int).push(system@[k as int]));
        assert(strings_view(out@) =~= strings_view(before).push(system@[k as int]@));
        assert(strings_view(out@) =~= user + strings_view(system@.subrange(0, k + 1)));
        k = k + 1;
    }
    assert(system@.subrange(0, system@.len() as int) =~= system@);
    out
}

} // verus!
