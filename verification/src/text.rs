use vstd::prelude::*;

verus! {

// ---------------------------------------------------------------------------
// Specifications of the string operations that the library's text handling
// follows: Unicode whitespace, `str::trim`, `str::lines`, `str::split_once`.
// ---------------------------------------------------------------------------

/// `char::is_whitespace`: the Unicode `White_Space` property.
pub open spec fn is_ws(c: char) -> bool {
    let u: u32 = c as u32;
    ||| 0x09 <= u <= 0x0d
    ||| u == 0x20
    ||| u == 0x85
    ||| u == 0xa0
    ||| u == 0x1680
    ||| 0x2000 <= u <= 0x200a
    ||| u == 0x2028
    ||| u == 0x2029
    ||| u == 0x202f
    ||| u == 0x205f
    ||| u == 0x3000
}

/// Leading whitespace removed.
pub open spec fn trim_start(s: Seq<char>) -> Seq<char>
    decreases s.len(),
{
    if s.len() > 0 && is_ws(s[0]) {
        trim_start(s.drop_first())
    } else {
        s
    }
}

/// Trailing whitespace removed.
pub open spec fn trim_end(s: Seq<char>) -> Seq<char>
    decreases s.len(),
{
    if s.len() > 0 && is_ws(s.last()) {
        trim_end(s.drop_last())
    } else {
        s
    }
}

/// `str::trim`: leading and trailing whitespace removed.
pub open spec fn trim(s: Seq<char>) -> Seq<char> {
    trim_end(trim_start(s))
}

/// The number of characters before the first `c` in `s` (all of `s` if there is none).
pub open spec fn run_len(s: Seq<char>, c: char) -> nat
    decreases s.len(),
{
    if s.len() == 0 || s[0] == c {
        0
    } else {
        1 + run_len(s.drop_first(), c)
    }
}

/// A trailing carriage return removed.
pub open spec fn strip_cr(s: Seq<char>) -> Seq<char> {
    if s.len() > 0 && s.last() == '\r' {
        s.drop_last()
    } else {
        s
    }
}

/// The first line of `s`, without its line ending (`\n` or `\r\n`).
pub open spec fn first_line(s: Seq<char>) -> Seq<char> {
    let k: nat = run_len(s, '\n');
    if k < s.len() {
        strip_cr(s.take(k as int))
    } else {
        s
    }
}

/// What follows the first line ending of `s` (empty if `s` has none).
pub open spec fn after_first_line(s: Seq<char>) -> Seq<char> {
    let k: nat = run_len(s, '\n');
    if k < s.len() {
        s.skip(k + 1int)
    } else {
        Seq::empty()
    }
}

/// `str::lines`: the lines of `s`, split at `\n` or `\r\n`, line endings removed;
/// a final line ending is optional.
pub open spec fn lines(s: Seq<char>) -> Seq<Seq<char>>
    decreases s.len(),
{
    if s.len() == 0 {
        Seq::empty()
    } else {
        seq![first_line(s)] + lines(after_first_line(s))
    }
}

/// `str::split_once(c)`: the parts before and after the first `c`, if there is one.
pub open spec fn split_once(s: Seq<char>, c: char) -> Option<(Seq<char>, Seq<char>)> {
    let k: nat = run_len(s, c);
    if k < s.len() {
        Some((s.take(k as int), s.skip(k + 1int)))
    } else {
        None
    }
}

/// Every line of `s` followed by a newline, in order.
pub open spec fn unlines(ls: Seq<Seq<char>>) -> Seq<char>
    decreases ls.len(),
{
    if ls.len() == 0 {
        Seq::empty()
    } else {
        ls[0] + seq!['\n'] + unlines(ls.drop_first())
    }
}

/// `s` contains the character `c`.
pub open spec fn has_char(s: Seq<char>, c: char) -> bool {
    exists|i: int| 0 <= i < s.len() && s[i] == c
}

// ---------------------------------------------------------------------------
// Lemmas
// ---------------------------------------------------------------------------

/// `run_len` is the index of the first `c`, or the length when there is none.
pub proof fn lemma_run_len(s: Seq<char>, c: char)
    ensures
        run_len(s, c) <= s.len(),
        forall|j: int| 0 <= j < run_len(s, c) ==> s[j] != c,
        run_len(s, c) < s.len() ==> s[run_len(s, c) as int] == c,
    decreases s.len(),
{
    if s.len() > 0 && s[0] != c {
        lemma_run_len(s.drop_first(), c);
        assert forall|j: int| 0 <= j < run_len(s, c) implies s[j] != c by {
            if j > 0 {
                assert(s[j] == s.drop_first()[j - 1]);
            }
        }
    }
}

/// Any index with the properties of `run_len` is `run_len`.
pub proof fn lemma_run_len_unique(s: Seq<char>, c: char, k: int)
    requires
        0 <= k <= s.len(),
        forall|j: int| 0 <= j < k ==> s[j] != c,
        k < s.len() ==> s[k] == c,
    ensures
        run_len(s, c) == k,
    decreases s.len(),
{
    if s.len() > 0 && s[0] != c {
        assert forall|j: int| 0 <= j < k - 1 implies s.drop_first()[j] != c by {
            assert(s[j + 1] != c);
        }
        lemma_run_len_unique(s.drop_first(), c, k - 1);
    }
}

/// The run before `c` in `a + b`, when `a` holds no `c`, covers all of `a`.
pub proof fn lemma_run_len_append(a: Seq<char>, b: Seq<char>, c: char)
    requires
        !has_char(a, c),
    ensures
        run_len(a + b, c) == a.len() + run_len(b, c),
{
    lemma_run_len(b, c);
    let s = a + b;
    let k: nat = a.len() + run_len(b, c);
    assert forall|j: int| 0 <= j < k implies s[j] != c by {
        if j < a.len() {
            assert(s[j] == a[j]);
        } else {
            assert(s[j] == b[j - a.len()]);
        }
    }
    if k < s.len() {
        assert(s[k as int] == b[run_len(b, c) as int]);
    }
    lemma_run_len_unique(s, c, k as int);
}

/// A string of whitespace-free ends is its own trim.
pub proof fn lemma_trim_fixed(s: Seq<char>)
    requires
        s.len() > 0 ==> !is_ws(s[0]) && !is_ws(s.last()),
    ensures
        trim(s) == s,
{
}

/// The lines of `a + b`, when `a` is a run of newline-terminated lines.
pub proof fn lemma_lines_append_line(line: Seq<char>, rest: Seq<char>)
    requires
        !has_char(line, '\n'),
        line.len() > 0 ==> line.last() != '\r',
    ensures
        lines(line + seq!['\n'] + rest) == seq![line] + lines(rest),
        first_line(line + seq!['\n'] + rest) == line,
        after_first_line(line + seq!['\n'] + rest) == rest,
{
    let s = line + seq!['\n'] + rest;
    assert(s =~= line + (seq!['\n'] + rest));
    lemma_run_len_append(line, seq!['\n'] + rest, '\n');
    assert(run_len(seq!['\n'] + rest, '\n') == 0);
    assert(run_len(s, '\n') == line.len());
    assert(s.take(line.len() as int) =~= line);
    assert(s.skip(line.len() + 1int) =~= rest);
}

/// `unlines` of a sequence with one more line.
pub proof fn lemma_unlines_push(ls: Seq<Seq<char>>, l: Seq<char>)
    ensures
        unlines(ls.push(l)) == unlines(ls) + l + seq!['\n'],
    decreases ls.len(),
{
    if ls.len() == 0 {
        assert(ls.push(l).drop_first() =~= Seq::<Seq<char>>::empty());
        assert(unlines(Seq::<Seq<char>>::empty()) == Seq::<char>::empty());
        assert(ls.push(l)[0] == l);
        assert(unlines(ls.push(l)) =~= l + seq!['\n'] + Seq::<char>::empty());
        assert(unlines(ls) == Seq::<char>::empty());
    } else {
        lemma_unlines_push(ls.drop_first(), l);
        assert(ls.push(l).drop_first() =~= ls.drop_first().push(l));
        assert(unlines(ls.push(l)) =~= unlines(ls) + l + seq!['\n']);
    }
}

/// `unlines` distributes over concatenation.
pub proof fn lemma_unlines_append(a: Seq<Seq<char>>, b: Seq<Seq<char>>)
    ensures
        unlines(a + b) == unlines(a) + unlines(b),
    decreases a.len(),
{
    if a.len() == 0 {
        assert(a + b =~= b);
        assert(unlines(a) == Seq::<char>::empty());
        assert(unlines(a) + unlines(b) =~= unlines(b));
    } else {
        lemma_unlines_append(a.drop_first(), b);
        assert((a + b).drop_first() =~= a.drop_first() + b);
        assert((a + b)[0] == a[0]);
        assert(unlines(a + b) =~= unlines(a) + unlines(b));
    }
}

/// The lines after a line ending, with any final carriage return removed from each.
pub open spec fn strip_all(ls: Seq<Seq<char>>) -> Seq<Seq<char>> {
    Seq::new(ls.len(), |i: int| strip_cr(ls[i]))
}

/// Splitting a newline-terminated line off the front of a text.
pub proof fn lemma_lines_append_any(line: Seq<char>, rest: Seq<char>)
    requires
        !has_char(line, '\n'),
    ensures
        lines(line + seq!['\n'] + rest) == seq![strip_cr(line)] + lines(rest),
{
    let s = line + seq!['\n'] + rest;
    assert(s =~= line + (seq!['\n'] + rest));
    lemma_run_len_append(line, seq!['\n'] + rest, '\n');
    assert(run_len(seq!['\n'] + rest, '\n') == 0);
    assert(s.take(line.len() as int) =~= line);
    assert(s.skip(line.len() + 1int) =~= rest);
}

/// Writing newline-free lines out and splitting them again gives them back, less any
/// final carriage return.
pub proof fn lemma_lines_unlines_cr(ls: Seq<Seq<char>>)
    requires
        forall|i: int| 0 <= i < ls.len() ==> !has_char(#[trigger] ls[i], '\n'),
    ensures
        lines(unlines(ls)) == strip_all(ls),
    decreases ls.len(),
{
    if ls.len() > 0 {
        assert(!has_char(ls[0], '\n'));
        assert forall|i: int| 0 <= i < ls.drop_first().len() implies !has_char(
            #[trigger] ls.drop_first()[i],
            '\n',
        ) by {
            assert(ls.drop_first()[i] == ls[i + 1]);
        }
        lemma_lines_unlines_cr(ls.drop_first());
        lemma_lines_append_any(ls[0], unlines(ls.drop_first()));
        assert(seq![strip_cr(ls[0])] + strip_all(ls.drop_first()) =~= strip_all(ls));
    } else {
        assert(strip_all(ls) =~= Seq::<Seq<char>>::empty());
    }
}

/// Trimming keeps a first character that is not whitespace.
pub proof fn lemma_trim_keeps_first(x: Seq<char>)
    requires
        x.len() > 0,
        !is_ws(x[0]),
    ensures
        trim(x).len() > 0,
        trim(x)[0] == x[0],
{
    assert(trim_start(x) == x);
    lemma_trim_end_keeps_first(x);
}

proof fn lemma_trim_end_keeps_first(x: Seq<char>)
    requires
        x.len() > 0,
        !is_ws(x[0]),
    ensures
        trim_end(x).len() > 0,
        trim_end(x)[0] == x[0],
    decreases x.len(),
{
    if is_ws(x.last()) {
        assert(x.len() > 1);
        assert(x.drop_last()[0] == x[0]);
        lemma_trim_end_keeps_first(x.drop_last());
    }
}

/// A line that `lines` gives back unchanged: no newline, no final carriage return.
pub open spec fn plain_line(l: Seq<char>) -> bool {
    &&& !has_char(l, '\n')
    &&& (l.len() > 0 ==> l.last() != '\r')
}

/// Writing plain lines out and splitting them again gives them back.
pub proof fn lemma_lines_unlines(ls: Seq<Seq<char>>)
    requires
        forall|i: int| 0 <= i < ls.len() ==> plain_line(#[trigger] ls[i]),
    ensures
        lines(unlines(ls)) == ls,
    decreases ls.len(),
{
    if ls.len() > 0 {
        assert(plain_line(ls[0]));
        lemma_unlines_tail_plain(ls);
        lemma_lines_unlines(ls.drop_first());
        lemma_lines_append_line(ls[0], unlines(ls.drop_first()));
        assert(seq![ls[0]] + ls.drop_first() =~= ls);
    }
}

proof fn lemma_unlines_tail_plain(ls: Seq<Seq<char>>)
    requires
        ls.len() > 0,
        forall|i: int| 0 <= i < ls.len() ==> plain_line(#[trigger] ls[i]),
    ensures
        forall|i: int| 0 <= i < ls.drop_first().len() ==> plain_line(#[trigger] ls.drop_first()[i]),
{
    assert forall|i: int| 0 <= i < ls.drop_first().len() implies plain_line(
        #[trigger] ls.drop_first()[i],
    ) by {
        assert(ls.drop_first()[i] == ls[i + 1]);
    }
}

/// Trimmed text that is not empty starts and ends with a non-whitespace character.
pub proof fn lemma_trimmed_ends(s: Seq<char>)
    requires
        trim(s) == s,
        s.len() > 0,
    ensures
        !is_ws(s[0]),
        !is_ws(s.last()),
{
    lemma_trim_start_shape(s);
    lemma_trim_end_shape(trim_start(s));
}

/// `trim_start` keeps a suffix, whose first character is not whitespace.
pub proof fn lemma_trim_start_shape(s: Seq<char>)
    ensures
        trim_start(s).len() <= s.len(),
        trim_start(s) == s.skip(s.len() - trim_start(s).len()),
        trim_start(s).len() > 0 ==> !is_ws(trim_start(s)[0]),
    decreases s.len(),
{
    if s.len() > 0 && is_ws(s[0]) {
        lemma_trim_start_shape(s.drop_first());
        assert(s.drop_first().skip(s.drop_first().len() - trim_start(s).len()) =~= s.skip(
            s.len() - trim_start(s).len(),
        ));
    } else {
        assert(s.skip(0) =~= s);
    }
}

/// `trim_end` keeps a prefix, whose last character is not whitespace.
pub proof fn lemma_trim_end_shape(s: Seq<char>)
    ensures
        trim_end(s).len() <= s.len(),
        trim_end(s) == s.take(trim_end(s).len() as int),
        trim_end(s).len() > 0 ==> !is_ws(trim_end(s).last()),
    decreases s.len(),
{
    if s.len() > 0 && is_ws(s.last()) {
        lemma_trim_end_shape(s.drop_last());
        assert(s.drop_last().take(trim_end(s).len() as int) =~= s.take(trim_end(s).len() as int));
    } else {
        assert(s.take(s.len() as int) =~= s);
    }
}

/// Trimming twice is trimming once; trimming keeps a contiguous part of the text.
pub proof fn lemma_trim_idempotent(s: Seq<char>)
    ensures
        trim(trim(s)) == trim(s),
        !has_char(s, '\n') ==> !has_char(trim(s), '\n'),
{
    lemma_trim_start_shape(s);
    lemma_trim_end_shape(trim_start(s));
    let t = trim(s);
    if t.len() > 0 {
        lemma_trim_fixed(t);
    }
    if !has_char(s, '\n') {
        let a = s.len() - trim_start(s).len();
        assert forall|i: int| 0 <= i < t.len() implies t[i] != '\n' by {
            assert(t[i] == trim_start(s)[i]);
            assert(trim_start(s)[i] == s[a + i]);
        }
    }
}

/// No line of `s` holds a newline.
pub proof fn lemma_lines_no_newline(s: Seq<char>)
    ensures
        forall|i: int| 0 <= i < lines(s).len() ==> !has_char(#[trigger] lines(s)[i], '\n'),
    decreases s.len(),
{
    if s.len() > 0 {
        lemma_run_len(s, '\n');
        let k = run_len(s, '\n');
        let l = first_line(s);
        if k < s.len() {
            assert forall|j: int| 0 <= j < l.len() implies l[j] != '\n' by {
                assert(l[j] == s[j]);
            }
        }
        lemma_lines_no_newline(after_first_line(s));
        assert forall|i: int| 0 <= i < lines(s).len() implies !has_char(#[trigger] lines(s)[i], '\n') by {
            if i > 0 {
                assert(lines(s)[i] == lines(after_first_line(s))[i - 1]);
            }
        }
    }
}

// ---------------------------------------------------------------------------
// Executable helpers over character vectors
// ---------------------------------------------------------------------------

/// Appends one character to a string.
/// Calls `String::push`, whose documentation says it appends the given char to the end.
#[verifier::external_body]
pub(crate) fn push_char(s: &mut String, c: char)
    ensures
        final(s)@ == old(s)@.push(c),
{
    s.push(c);
}

/// The characters of a string slice, in order.
pub fn chars_of(s: &str) -> (v: Vec<char>)
    ensures
        v@ == s@,
{
    let mut v: Vec<char> = Vec::new();
    for c in it: s.chars()
        invariant
            v@ == it.seq().subrange(0, it.index() as int),
            it.seq() == s@,
    {
        v.push(c);
    }
    v
}

/// A string holding the characters `v[lo..hi]`.
pub fn string_of_range(v: &Vec<char>, lo: usize, hi: usize) -> (s: String)
    requires
        lo <= hi <= v.len(),
    ensures
        s@ == v@.subrange(lo as int, hi as int),
{
    let mut s = String::new();
    let mut i: usize = lo;
    while i < hi
        invariant
            lo <= i <= hi <= v.len(),
            s@ == v@.subrange(lo as int, i as int),
        decreases hi - i,
    {
        push_char(&mut s, v[i]);
        assert(v@.subrange(lo as int, i + 1) =~= v@.subrange(lo as int, i as int).push(v@[i as int]));
        i += 1;
    }
    s
}

/// A string holding the characters of `v`.
pub fn string_of(v: &Vec<char>) -> (s: String)
    ensures
        s@ == v@,
{
    let s = string_of_range(v, 0, v.len());
    assert(v@.subrange(0, v.len() as int) =~= v@);
    s
}

/// Appends `v[lo..hi]` to `out`.
pub fn push_range(out: &mut Vec<char>, v: &Vec<char>, lo: usize, hi: usize)
    requires
        lo <= hi <= v.len(),
    ensures
        final(out)@ == old(out)@ + v@.subrange(lo as int, hi as int),
{
    let ghost start = out@;
    let mut i: usize = lo;
    while i < hi
        invariant
            lo <= i <= hi <= v.len(),
            out@ == start + v@.subrange(lo as int, i as int),
        decreases hi - i,
    {
        out.push(v[i]);
        assert(v@.subrange(lo as int, i + 1) =~= v@.subrange(lo as int, i as int).push(v@[i as int]));
        i += 1;
    }
}

/// Appends all of `w` to `out`.
pub fn push_all(out: &mut Vec<char>, w: &Vec<char>)
    ensures
        final(out)@ == old(out)@ + w@,
{
    push_range(out, w, 0, w.len());
    assert(w@.subrange(0, w.len() as int) =~= w@);
}

/// `char::is_whitespace`.
pub fn is_whitespace(c: char) -> (b: bool)
    ensures
        b == is_ws(c),
{
    let u: u32 = c as u32;
    (0x09 <= u && u <= 0x0d) || u == 0x20 || u == 0x85 || u == 0xa0 || u == 0x1680 || (0x2000
        <= u && u <= 0x200a) || u == 0x2028 || u == 0x2029 || u == 0x202f || u == 0x205f || u
        == 0x3000
}

/// The index of the first `c` in `v[lo..hi]`, or `hi` when there is none.
pub fn find_char(v: &Vec<char>, lo: usize, hi: usize, c: char) -> (k: usize)
    requires
        lo <= hi <= v.len(),
    ensures
        lo <= k <= hi,
        k == lo + run_len(v@.subrange(lo as int, hi as int), c),
{
    let ghost s = v@.subrange(lo as int, hi as int);
    let mut k: usize = lo;
    while k < hi && v[k] != c
        invariant
            lo <= k <= hi <= v.len(),
            forall|j: int| lo <= j < k ==> v@[j] != c,
        decreases hi - k,
    {
        k += 1;
    }
    proof {
        assert forall|j: int| 0 <= j < k - lo implies s[j] != c by {
            assert(s[j] == v@[lo + j]);
        }
        lemma_run_len_unique(s, c, k - lo);
    }
    k
}

/// The bounds of `trim(v[lo..hi])` within `v`.
pub fn trim_range(v: &Vec<char>, lo: usize, hi: usize) -> (r: (usize, usize))
    requires
        lo <= hi <= v.len(),
    ensures
        lo <= r.0 <= r.1 <= hi,
        v@.subrange(r.0 as int, r.1 as int) == trim(v@.subrange(lo as int, hi as int)),
{
    let ghost s = v@.subrange(lo as int, hi as int);
    let mut a: usize = lo;
    while a < hi && is_whitespace(v[a])
        invariant
            lo <= a <= hi <= v.len(),
            trim_start(s) == trim_start(v@.subrange(a as int, hi as int)),
        decreases hi - a,
    {
        assert(v@.subrange(a as int, hi as int).drop_first() =~= v@.subrange(a + 1, hi as int));
        a += 1;
    }
    assert(trim_start(v@.subrange(a as int, hi as int)) == v@.subrange(a as int, hi as int));
    let mut b: usize = hi;
    while b > a && is_whitespace(v[b - 1])
        invariant
            lo <= a <= b <= hi <= v.len(),
            trim_end(v@.subrange(a as int, hi as int)) == trim_end(v@.subrange(a as int, b as int)),
        decreases b - a,
    {
        assert(v@.subrange(a as int, b as int).drop_last() =~= v@.subrange(a as int, b - 1));
        b -= 1;
    }
    assert(trim_end(v@.subrange(a as int, b as int)) == v@.subrange(a as int, b as int));
    (a, b)
}

/// The line that starts at `pos`: its end (line ending excluded) and where the next line starts.
pub fn next_line(v: &Vec<char>, pos: usize) -> (r: (usize, usize))
    requires
        pos < v.len(),
    ensures
        pos <= r.0 <= r.1 <= v.len(),
        pos < r.1,
        v@.subrange(pos as int, r.0 as int) == first_line(v@.skip(pos as int)),
        v@.skip(r.1 as int) == after_first_line(v@.skip(pos as int)),
{
    let ghost s = v@.skip(pos as int);
    let len: usize = v.len();
    let k: usize = find_char(v, pos, len, '\n');
    assert(v@.subrange(pos as int, len as int) =~= s);
    proof {
        lemma_run_len(s, '\n');
    }
    if k < len {
        let e: usize = if k > pos && v[k - 1] == '\r' {
            k - 1
        } else {
            k
        };
        assert(s.take(k - pos) =~= v@.subrange(pos as int, k as int));
        assert(v@.subrange(pos as int, e as int) =~= strip_cr(v@.subrange(pos as int, k as int)));
        assert(v@.skip(k + 1) =~= s.skip(k - pos + 1));
        (e, k + 1)
    } else {
        assert(v@.skip(len as int) =~= Seq::<char>::empty());
        (k, k)
    }
}

/// `v[lo..hi]` equals `w`.
pub fn range_eq(v: &Vec<char>, lo: usize, hi: usize, w: &Vec<char>) -> (b: bool)
    requires
        lo <= hi <= v.len(),
    ensures
        b == (v@.subrange(lo as int, hi as int) == w@),
{
    if hi - lo != w.len() {
        return false;
    }
    let mut i: usize = 0;
    while i < w.len()
        invariant
            lo <= hi <= v.len(),
            hi - lo == w.len(),
            0 <= i <= w.len(),
            forall|j: int| 0 <= j < i ==> v@[lo + j] == w@[j],
        decreases w.len() - i,
    {
        if v[lo + i] != w[i] {
            assert(v@.subrange(lo as int, hi as int)[i as int] != w@[i as int]);
            return false;
        }
        i += 1;
    }
    assert(v@.subrange(lo as int, hi as int) =~= w@);
    true
}

/// `v[lo..hi]` starts with `w`.
pub fn range_starts_with(v: &Vec<char>, lo: usize, hi: usize, w: &Vec<char>) -> (b: bool)
    requires
        lo <= hi <= v.len(),
    ensures
        b == (w@.len() <= hi - lo && v@.subrange(lo as int, lo + w@.len()) == w@),
{
    if hi - lo < w.len() {
        return false;
    }
    range_eq(v, lo, lo + w.len(), w)
}

} // verus!
