use vstd::prelude::*;

use crate::text::{
    chars_of, find_char, lemma_run_len, push_all, push_range, range_eq, run_len, string_of,
    string_of_range,
};

verus! {

// ---------------------------------------------------------------------------
// Unix paths as text: joining, splitting into components, file names.
// ---------------------------------------------------------------------------

/// `PathBuf::join` on Unix: an absolute `p` replaces `base`; otherwise `p` is appended,
/// with a `/` between them unless `base` is empty or already ends with one.
pub open spec fn join_spec(base: Seq<char>, p: Seq<char>) -> Seq<char> {
    if p.len() > 0 && p[0] == '/' {
        p
    } else if base.len() == 0 || base.last() == '/' {
        base + p
    } else {
        base + seq!['/'] + p
    }
}

/// The pieces of `s` between the `c` separators, in order (one piece when there is none).
pub open spec fn split_on(s: Seq<char>, c: char) -> Seq<Seq<char>>
    decreases s.len(),
{
    let k = run_len(s, c);
    if k < s.len() {
        seq![s.take(k as int)] + split_on(s.skip(k + 1int), c)
    } else {
        seq![s]
    }
}

/// A piece that names a path component: not empty and not `.`.
pub open spec fn is_part(p: Seq<char>) -> bool {
    p.len() > 0 && p != seq!['.']
}

/// The pieces of `ps` that name components, in order.
pub open spec fn keep_parts(ps: Seq<Seq<char>>) -> Seq<Seq<char>>
    decreases ps.len(),
{
    if ps.len() == 0 {
        Seq::empty()
    } else {
        (if is_part(ps[0]) {
            seq![ps[0]]
        } else {
            Seq::empty()
        }) + keep_parts(ps.drop_first())
    }
}

/// The named components of a path (`Path::components` without the root and a leading `.`):
/// repeated separators, `.` components and a trailing separator are normalised away.
pub open spec fn path_parts(s: Seq<char>) -> Seq<Seq<char>> {
    keep_parts(split_on(s, '/'))
}

/// The path starts at the root.
pub open spec fn has_root(s: Seq<char>) -> bool {
    s.len() > 0 && s[0] == '/'
}

/// The path is relative and starts with a `.` component, which `Path::components` keeps.
pub open spec fn has_cur_dir(s: Seq<char>) -> bool {
    !has_root(s) && s.len() > 0 && s[0] == '.' && (s.len() == 1 || s[1] == '/')
}

/// `Path` equality: the two paths have the same components.
pub open spec fn same_path(a: Seq<char>, b: Seq<char>) -> bool {
    &&& has_root(a) == has_root(b)
    &&& has_cur_dir(a) == has_cur_dir(b)
    &&& path_parts(a) == path_parts(b)
}

/// `Path::file_name`: the last component when it is a name (not the root, `.` or `..`).
pub open spec fn file_name_spec(s: Seq<char>) -> Option<Seq<char>> {
    let ps = path_parts(s);
    if ps.len() > 0 && ps.last() != seq!['.', '.'] {
        Some(ps.last())
    } else {
        None
    }
}

/// The number of characters after the last `c` in `s` (all of `s` if there is none).
pub open spec fn rrun_len(s: Seq<char>, c: char) -> nat
    decreases s.len(),
{
    if s.len() == 0 || s.last() == c {
        0
    } else {
        1 + rrun_len(s.drop_last(), c)
    }
}

/// `Path::extension`: what follows the last `.` of the file name, when that `.` is not
/// its first character.
pub open spec fn extension_spec(s: Seq<char>) -> Option<Seq<char>> {
    match file_name_spec(s) {
        None => None,
        Some(n) => {
            let k = rrun_len(n, '.');
            if k < n.len() && k + 1 < n.len() {
                Some(n.skip(n.len() - k))
            } else {
                None
            }
        },
    }
}

proof fn lemma_rrun_len_unique(s: Seq<char>, c: char, k: int)
    requires
        0 <= k <= s.len(),
        forall|j: int| s.len() - k <= j < s.len() ==> s[j] != c,
        k < s.len() ==> s[s.len() - k - 1] == c,
    ensures
        rrun_len(s, c) == k,
    decreases s.len(),
{
    if s.len() > 0 && s.last() != c {
        assert forall|j: int| s.drop_last().len() - (k - 1) <= j < s.drop_last().len() implies s.drop_last()[j] != c by {
            assert(s.drop_last()[j] == s[j]);
        }
        lemma_rrun_len_unique(s.drop_last(), c, k - 1);
    }
}

// ---------------------------------------------------------------------------
// Executable path operations
// ---------------------------------------------------------------------------

/// Joins `p` onto `base` as `PathBuf::join` does.
pub fn join(base: &str, p: &str) -> (r: String)
    ensures
        r@ == join_spec(base@, p@),
{
    let bv = chars_of(base);
    let pv = chars_of(p);
    let mut out: Vec<char> = Vec::new();
    if pv.len() > 0 && pv[0] == '/' {
        push_all(&mut out, &pv);
    } else if bv.len() == 0 || bv[bv.len() - 1] == '/' {
        push_all(&mut out, &bv);
        push_all(&mut out, &pv);
    } else {
        push_all(&mut out, &bv);
        out.push('/');
        push_all(&mut out, &pv);
    }
    string_of(&out)
}

/// The bounds of the named components of `v`, in order.
fn part_spans(v: &Vec<char>) -> (spans: Vec<(usize, usize)>)
    ensures
        spans.len() == path_parts(v@).len(),
        forall|i: int|
            0 <= i < spans.len() ==> {
                let (lo, hi) = #[trigger] spans@[i];
                &&& lo <= hi <= v.len()
                &&& v@.subrange(lo as int, hi as int) == path_parts(v@)[i]
            },
{
    let ghost target = path_parts(v@);
    let len = v.len();
    let mut spans: Vec<(usize, usize)> = Vec::new();
    let mut pos: usize = 0;
    let mut done = false;
    let ghost mut got: Seq<Seq<char>> = Seq::empty();
    assert(v@.skip(0) =~= v@);
    while !done
        invariant
            len == v.len(),
            pos <= len,
            target == path_parts(v@),
            spans.len() == got.len(),
            forall|i: int|
                0 <= i < spans.len() ==> {
                    let (lo, hi) = #[trigger] spans@[i];
                    &&& lo <= hi <= v.len()
                    &&& v@.subrange(lo as int, hi as int) == got[i]
                },
            !done ==> got + keep_parts(split_on(v@.skip(pos as int), '/')) == target,
            done ==> got == target,
        decreases len - pos + (if done {
            0int
        } else {
            1int
        }),
    {
        let ghost rest = v@.skip(pos as int);
        let k = find_char(v, pos, len, '/');
        assert(v@.subrange(pos as int, len as int) =~= rest);
        proof {
            lemma_run_len(rest, '/');
        }
        let ghost piece = v@.subrange(pos as int, k as int);
        assert(rest.take(k - pos) =~= piece);
        let ghost tail: Seq<Seq<char>> = if k < len {
            split_on(v@.skip(k + 1), '/')
        } else {
            Seq::empty()
        };
        assert(split_on(rest, '/') == seq![piece] + tail) by {
            if k < len {
                assert(rest.skip(k - pos + 1) =~= v@.skip(k + 1));
            } else {
                assert(rest =~= piece);
            }
        }
        assert((seq![piece] + tail).drop_first() =~= tail);
        let keep = k > pos && !(k == pos + 1 && v[pos] == '.');
        assert(keep == is_part(piece)) by {
            if k == pos + 1 {
                assert(piece.len() == 1);
                assert(piece[0] == v@[pos as int]);
                if v@[pos as int] == '.' {
                    assert(piece =~= seq!['.']);
                }
            }
        }
        let ghost got_before = got;
        if keep {
            spans.push((pos, k));
            proof {
                got = got.push(piece);
            }
        }
        proof {
            assert(got + keep_parts(tail) =~= got_before + keep_parts(split_on(rest, '/')));
        }
        if k < len {
            pos = k + 1;
        } else {
            done = true;
            assert(keep_parts(tail) =~= Seq::<Seq<char>>::empty());
            assert(got + keep_parts(tail) =~= got);
        }
    }
    spans
}

/// Whether two paths name the same path as `Path` equality decides it.
pub fn paths_equal(a: &str, b: &str) -> (eq: bool)
    ensures
        eq == same_path(a@, b@),
{
    let av = chars_of(a);
    let bv = chars_of(b);
    let a_root = av.len() > 0 && av[0] == '/';
    let b_root = bv.len() > 0 && bv[0] == '/';
    let a_cur = !a_root && av.len() > 0 && av[0] == '.' && (av.len() == 1 || av[1] == '/');
    let b_cur = !b_root && bv.len() > 0 && bv[0] == '.' && (bv.len() == 1 || bv[1] == '/');
    if a_root != b_root || a_cur != b_cur {
        return false;
    }
    let sa = part_spans(&av);
    let sb = part_spans(&bv);
    if sa.len() != sb.len() {
        return false;
    }
    let mut i: usize = 0;
    while i < sa.len()
        invariant
            sa.len() == sb.len(),
            av@ == a@,
            bv@ == b@,
            sa.len() == path_parts(av@).len(),
            sb.len() == path_parts(bv@).len(),
            i <= sa.len(),
            forall|j: int|
                0 <= j < sa.len() ==> {
                    let (lo, hi) = #[trigger] sa@[j];
                    &&& lo <= hi <= av.len()
                    &&& av@.subrange(lo as int, hi as int) == path_parts(av@)[j]
                },
            forall|j: int|
                0 <= j < sb.len() ==> {
                    let (lo, hi) = #[trigger] sb@[j];
                    &&& lo <= hi <= bv.len()
                    &&& bv@.subrange(lo as int, hi as int) == path_parts(bv@)[j]
                },
            forall|j: int| 0 <= j < i ==> path_parts(av@)[j] == path_parts(bv@)[j],
        decreases sa.len() - i,
    {
        let (alo, ahi) = sa[i];
        let (blo, bhi) = sb[i];
        assert(sa@[i as int] == (alo, ahi));
        assert(sb@[i as int] == (blo, bhi));
        let piece = slice_chars(&bv, blo, bhi);
        if !range_eq(&av, alo, ahi, &piece) {
            assert(path_parts(av@)[i as int] != path_parts(bv@)[i as int]);
            assert(path_parts(av@) != path_parts(bv@));
            return false;
        }
        i += 1;
    }
    assert(path_parts(av@) =~= path_parts(bv@));
    true
}

/// The characters `v[lo..hi]` as a vector.
fn slice_chars(v: &Vec<char>, lo: usize, hi: usize) -> (w: Vec<char>)
    requires
        lo <= hi <= v.len(),
    ensures
        w@ == v@.subrange(lo as int, hi as int),
{
    let mut w: Vec<char> = Vec::new();
    push_range(&mut w, v, lo, hi);
    w
}

/// The file name of a path, as `Path::file_name` gives it.
pub fn file_name(p: &str) -> (r: Option<String>)
    ensures
        match r {
            Some(n) => file_name_spec(p@) == Some(n@),
            None => file_name_spec(p@) is None,
        },
{
    let v = chars_of(p);
    let spans = part_spans(&v);
    if spans.len() == 0 {
        return None;
    }
    let (lo, hi) = spans[spans.len() - 1];
    assert(spans@[spans.len() - 1] == (lo, hi));
    let dots = vec!['.', '.'];
    if range_eq(&v, lo, hi, &dots) {
        None
    } else {
        Some(string_of_range(&v, lo, hi))
    }
}

/// The extension of a path, as `Path::extension` gives it.
pub fn extension(p: &str) -> (r: Option<String>)
    ensures
        match r {
            Some(e) => extension_spec(p@) == Some(e@),
            None => extension_spec(p@) is None,
        },
{
    match file_name(p) {
        None => None,
        Some(name) => {
            let n = chars_of(name.as_str());
            let len = n.len();
            let mut k: usize = 0;
            while k < len && n[len - 1 - k] != '.'
                invariant
                    len == n.len(),
                    k <= len,
                    forall|j: int| len - k <= j < len ==> n@[j] != '.',
                decreases len - k,
            {
                k += 1;
            }
            proof {
                lemma_rrun_len_unique(n@, '.', k as int);
            }
            if k < len && k + 1 < len {
                Some(string_of_range(&n, len - k, len))
            } else {
                None
            }
        },
    }
}

} // verus!

verus! {

// ---------------------------------------------------------------------------
// Choosing the desktop entry among the files of a directory
// ---------------------------------------------------------------------------

/// `a` comes strictly before `b` in the lexicographic order of their characters, the
/// order in which sorted paths of one directory list their files.
pub open spec fn text_before(a: Seq<char>, b: Seq<char>) -> bool
    decreases a.len(),
{
    if b.len() == 0 {
        false
    } else if a.len() == 0 {
        true
    } else if a[0] != b[0] {
        (a[0] as u32) < (b[0] as u32)
    } else {
        text_before(a.drop_first(), b.drop_first())
    }
}

proof fn lemma_text_before_transitive(a: Seq<char>, b: Seq<char>, c: Seq<char>)
    requires
        text_before(a, b),
        text_before(b, c),
    ensures
        text_before(a, c),
    decreases a.len(),
{
    if a.len() > 0 && a[0] == b[0] && b[0] == c[0] {
        lemma_text_before_transitive(a.drop_first(), b.drop_first(), c.drop_first());
    }
}

proof fn lemma_text_before_irreflexive(a: Seq<char>)
    ensures
        !text_before(a, a),
    decreases a.len(),
{
    if a.len() > 0 {
        lemma_text_before_irreflexive(a.drop_first());
    }
}

/// A path whose extension is `desktop`.
pub open spec fn is_desktop_file(p: Seq<char>) -> bool {
    extension_spec(p) == Some("desktop"@)
}

fn chars_before(a: &Vec<char>, b: &Vec<char>) -> (r: bool)
    ensures
        r == text_before(a@, b@),
{
    let mut i: usize = 0;
    assert(a@.skip(0) =~= a@ && b@.skip(0) =~= b@);
    while i < a.len() && i < b.len() && a[i] == b[i]
        invariant
            i <= a.len(),
            i <= b.len(),
            text_before(a@, b@) == text_before(a@.skip(i as int), b@.skip(i as int)),
        decreases a.len() - i,
    {
        assert(a@.skip(i as int).drop_first() =~= a@.skip(i + 1));
        assert(b@.skip(i as int).drop_first() =~= b@.skip(i + 1));
        i += 1;
    }
    let ghost sa = a@.skip(i as int);
    let ghost sb = b@.skip(i as int);
    assert(sb.len() > 0 ==> sb[0] == b@[i as int]);
    assert(sa.len() > 0 ==> sa[0] == a@[i as int]);
    if i == b.len() {
        false
    } else if i == a.len() {
        true
    } else {
        (a[i] as u32) < (b[i] as u32)
    }
}

/// The desktop entry among the files `paths` of one directory: the first path with the
/// extension `desktop` in sorted order, if there is any.
pub fn pick_desktop(paths: &Vec<String>) -> (r: Option<usize>)
    ensures
        r is None <==> forall|i: int| 0 <= i < paths.len() ==> !is_desktop_file(#[trigger] paths@[i]@),
        r matches Some(i) ==> {
            &&& i < paths.len()
            &&& is_desktop_file(paths@[i as int]@)
            &&& forall|j: int|
                0 <= j < paths.len() && is_desktop_file(#[trigger] paths@[j]@) ==> !text_before(
                    paths@[j]@,
                    paths@[i as int]@,
                )
        },
{
    let ext = chars_of("desktop");
    let mut best: Option<usize> = None;
    let mut best_chars: Vec<char> = Vec::new();
    let mut i: usize = 0;
    while i < paths.len()
        invariant
            i <= paths.len(),
            ext@ == "desktop"@,
            best is None <==> forall|j: int| 0 <= j < i ==> !is_desktop_file(#[trigger] paths@[j]@),
            best matches Some(b) ==> {
                &&& b < i
                &&& is_desktop_file(paths@[b as int]@)
                &&& best_chars@ == paths@[b as int]@
                &&& forall|j: int|
                    0 <= j < i && is_desktop_file(#[trigger] paths@[j]@) ==> !text_before(
                        paths@[j]@,
                        paths@[b as int]@,
                    )
            },
        decreases paths.len() - i,
    {
        let p = &paths[i];
        let is_desktop = match extension(p.as_str()) {
            Some(e) => {
                let ec = chars_of(e.as_str());
                assert(ec@.subrange(0, ec@.len() as int) =~= ec@);
                range_eq(&ec, 0, ec.len(), &ext)
            },
            None => false,
        };
        if is_desktop {
            let pc = chars_of(p.as_str());
            proof {
                lemma_text_before_irreflexive(pc@);
            }
            match best {
                None => {
                    best = Some(i);
                    best_chars = pc;
                },
                Some(b) => {
                    if chars_before(&pc, &best_chars) {
                        proof {
                            assert forall|j: int|
                                0 <= j < i && is_desktop_file(#[trigger] paths@[j]@) implies !text_before(
                                paths@[j]@,
                                pc@,
                            ) by {
                                if text_before(paths@[j]@, pc@) {
                                    lemma_text_before_transitive(paths@[j]@, pc@, best_chars@);
                                }
                            }
                        }
                        best = Some(i);
                        best_chars = pc;
                    }
                },
            }
        }
        i += 1;
    }
    best
}

} // verus!

verus! {

/// Paths are equal exactly when they agree on starting at the root, on a leading `.`,
/// and on every component in order: two paths that differ in any component (a directory
/// as well as the file name), or in their number of components, are different paths.
pub proof fn law_path_equality(a: Seq<char>, b: Seq<char>)
    ensures
        same_path(a, b) ==> has_root(a) == has_root(b) && path_parts(a).len() == path_parts(
            b,
        ).len(),
        same_path(a, b) ==> forall|i: int|
            0 <= i < path_parts(a).len() ==> #[trigger] path_parts(a)[i] == path_parts(b)[i],
        path_parts(a).len() != path_parts(b).len() ==> !same_path(a, b),
        forall|i: int|
            0 <= i < path_parts(a).len() && 0 <= i < path_parts(b).len() && #[trigger] path_parts(
                a,
            )[i] != path_parts(b)[i] ==> !same_path(a, b),
        has_root(a) == has_root(b) && has_cur_dir(a) == has_cur_dir(b) && path_parts(a)
            =~= path_parts(b) ==> same_path(a, b),
        same_path(a, b) == same_path(b, a),
{
}

} // verus!
