use vstd::prelude::*;

use crate::overrides::{
    key_index, key_line, law_merge_applies_overrides, merge_contents, merge_spec, merged_lines,
    OverrideMap,
};
use crate::text::{
    unlines, chars_of, first_line, after_first_line, is_ws, is_whitespace, lines, next_line, range_starts_with,
    string_of, string_of_range, trim, trim_range, trim_start, lemma_trim_start_shape,
};

verus! {

/// What the listing and the messages show of a desktop entry.
pub struct DesktopEntry {
    name: String,
    version: Option<String>,
}

/// Why a desktop entry or an editor cannot be used.
pub enum DesktopError {
    /// The entry has no `Name=` line.
    NoName,
    /// Neither `VISUAL` nor `EDITOR` is set.
    EditorNotSet,
    /// The chosen editor variable holds only whitespace.
    EditorEmpty,
}

pub open spec fn desktop_error_message(e: DesktopError) -> Seq<char> {
    match e {
        DesktopError::NoName => "No Name= field in .desktop"@,
        DesktopError::EditorNotSet => "Neither $EDITOR nor $VISUAL are set"@,
        DesktopError::EditorEmpty => "$EDITOR/$VISUAL is empty"@,
    }
}

impl DesktopError {
    /// The message of the error.
    pub fn message(&self) -> (m: String)
        ensures
            m@ == desktop_error_message(*self),
    {
        match self {
            DesktopError::NoName => "No Name= field in .desktop".to_owned(),
            DesktopError::EditorNotSet => "Neither $EDITOR nor $VISUAL are set".to_owned(),
            DesktopError::EditorEmpty => "$EDITOR/$VISUAL is empty".to_owned(),
        }
    }
}

/// `l` starts with `p`.
pub open spec fn starts_with(l: Seq<char>, p: Seq<char>) -> bool {
    p.len() <= l.len() && l.take(p.len() as int) == p
}

/// The trimmed rest of the first line of `ls` that starts with `p`.
pub open spec fn first_field(ls: Seq<Seq<char>>, p: Seq<char>) -> Option<Seq<char>>
    decreases ls.len(),
{
    if ls.len() == 0 {
        None
    } else if starts_with(ls[0], p) {
        Some(trim(ls[0].skip(p.len() as int)))
    } else {
        first_field(ls.drop_first(), p)
    }
}

/// The model of a desktop entry's metadata: name and version.
impl View for DesktopEntry {
    type V = (Seq<char>, Option<Seq<char>>);

    closed spec fn view(&self) -> (Seq<char>, Option<Seq<char>>) {
        (self.name@, match self.version {
            Some(v) => Some(v@),
            None => None,
        })
    }
}

impl DesktopEntry {
    /// The app's name.
    pub fn name(&self) -> (r: &str)
        ensures
            r@ == self@.0,
    {
        self.name.as_str()
    }

    /// The app's version, when the entry gives one.
    pub fn version(&self) -> (r: Option<&str>)
        ensures
            match r {
                Some(v) => self@.1 == Some(v@),
                None => self@.1 is None,
            },
    {
        match &self.version {
            Some(v) => Some(v.as_str()),
            None => None,
        }
    }

    /// The app id made from the name (see `slug`).
    pub fn slug(&self) -> (r: String)
        ensures
            r@ == slug_spec(self@.0),
    {
        slug(self.name.as_str())
    }
}

/// Reads a desktop entry's metadata: the name is the trimmed rest of the first line
/// starting with `Name=`, the version that of the first line starting with
/// `X-AppImage-Version=`; without a `Name=` line the entry is refused.
pub fn desktop_metadata(contents: &str) -> (r: Result<DesktopEntry, DesktopError>)
    ensures
        match first_field(lines(contents@), "Name="@) {
            None => r matches Err(DesktopError::NoName),
            Some(n) => r matches Ok(e) && e@ == (n, first_field(
                lines(contents@),
                "X-AppImage-Version="@,
            )),
        },
{
    let v = chars_of(contents);
    let name_key = chars_of("Name=");
    let version_key = chars_of("X-AppImage-Version=");
    let mut name: Option<String> = None;
    let mut version: Option<String> = None;
    let len = v.len();
    let mut pos: usize = 0;
    assert(v@.skip(0) =~= v@);
    while pos < len
        invariant
            len == v.len(),
            pos <= len,
            v@ == contents@,
            name_key@ == "Name="@,
            version_key@ == "X-AppImage-Version="@,
            first_field(lines(v@), name_key@) == match name {
                Some(n) => Some(n@),
                None => first_field(lines(v@.skip(pos as int)), name_key@),
            },
            first_field(lines(v@), version_key@) == match version {
                Some(n) => Some(n@),
                None => first_field(lines(v@.skip(pos as int)), version_key@),
            },
        decreases len - pos,
    {
        let ghost rest = v@.skip(pos as int);
        let (end, next) = next_line(&v, pos);
        let ghost line = v@.subrange(pos as int, end as int);
        assert(lines(rest) == seq![first_line(rest)] + lines(after_first_line(rest)));
        assert((seq![first_line(rest)] + lines(after_first_line(rest))).drop_first()
            =~= lines(after_first_line(rest)));
        let sn = range_starts_with(&v, pos, end, &name_key);
        assert(sn == starts_with(line, name_key@)) by {
            if name_key@.len() <= line.len() {
                assert(line.take(name_key@.len() as int) =~= v@.subrange(pos as int, pos + name_key@.len()));
            }
        }
        let sv = range_starts_with(&v, pos, end, &version_key);
        assert(sv == starts_with(line, version_key@)) by {
            if version_key@.len() <= line.len() {
                assert(line.take(version_key@.len() as int) =~= v@.subrange(pos as int, pos + version_key@.len()));
            }
        }
        if name.is_none() && sn {
            let (a, b) = trim_range(&v, pos + name_key.len(), end);
            assert(line.skip(name_key@.len() as int) =~= v@.subrange(pos + name_key.len(), end as int));
            name = Some(string_of_range(&v, a, b));
        }
        if version.is_none() && sv {
            let (a, b) = trim_range(&v, pos + version_key.len(), end);
            assert(line.skip(version_key@.len() as int) =~= v@.subrange(pos + version_key.len(), end as int));
            version = Some(string_of_range(&v, a, b));
        }
        pos = next;
    }
    assert(v@.skip(len as int) =~= Seq::<char>::empty());
    match name {
        Some(n) => Ok(DesktopEntry { name: n, version }),
        None => Err(DesktopError::NoName),
    }
}

// ---------------------------------------------------------------------------
// The editor command
// ---------------------------------------------------------------------------

/// The number of leading non-whitespace characters of `s`.
pub open spec fn word_len(s: Seq<char>) -> nat
    decreases s.len(),
{
    if s.len() == 0 || is_ws(s[0]) {
        0
    } else {
        1 + word_len(s.drop_first())
    }
}

/// `str::split_whitespace`: the maximal runs of non-whitespace characters, in order.
pub open spec fn words(s: Seq<char>) -> Seq<Seq<char>>
    decreases s.len(),
{
    let t = trim_start(s);
    if t.len() == 0 {
        Seq::empty()
    } else {
        let k = word_len(t);
        proof {
            lemma_trim_start_shape(s);
            lemma_word_len(t);
        }
        seq![t.take(k as int)] + words(t.skip(k as int))
    }
}

/// The editor to run, from `VISUAL` and `EDITOR` (each `None` when unset or not Unicode):
/// `VISUAL` when set, otherwise `EDITOR`; its first word is the command, the rest its
/// arguments.
pub open spec fn editor_spec(visual: Option<Seq<char>>, editor: Option<Seq<char>>) -> Result<
    Seq<Seq<char>>,
    DesktopError,
> {
    let chosen = match visual {
        Some(v) => Some(v),
        None => editor,
    };
    match chosen {
        None => Err(DesktopError::EditorNotSet),
        Some(c) => if words(c).len() == 0 {
            Err(DesktopError::EditorEmpty)
        } else {
            Ok(words(c))
        },
    }
}

pub proof fn lemma_word_len(s: Seq<char>)
    ensures
        word_len(s) <= s.len(),
        forall|j: int| 0 <= j < word_len(s) ==> !is_ws(s[j]),
        word_len(s) < s.len() ==> is_ws(s[word_len(s) as int]),
    decreases s.len(),
{
    if s.len() > 0 && !is_ws(s[0]) {
        lemma_word_len(s.drop_first());
        assert forall|j: int| 0 <= j < word_len(s) implies !is_ws(s[j]) by {
            if j > 0 {
                assert(s[j] == s.drop_first()[j - 1]);
            }
        }
    }
}

proof fn lemma_word_len_unique(s: Seq<char>, k: int)
    requires
        0 <= k <= s.len(),
        forall|j: int| 0 <= j < k ==> !is_ws(s[j]),
        k < s.len() ==> is_ws(s[k]),
    ensures
        word_len(s) == k,
    decreases s.len(),
{
    if s.len() > 0 && !is_ws(s[0]) {
        assert forall|j: int| 0 <= j < k - 1 implies !is_ws(s.drop_first()[j]) by {
            assert(!is_ws(s[j + 1]));
        }
        lemma_word_len_unique(s.drop_first(), k - 1);
    }
}

/// The words of `v[lo..]`, as strings.
fn words_of(v: &Vec<char>) -> (ws: Vec<String>)
    ensures
        ws@.map_values(|w: String| w@) == words(v@),
{
    let len = v.len();
    let mut ws: Vec<String> = Vec::new();
    let mut pos: usize = 0;
    assert(v@.skip(0) =~= v@);
    while pos < len
        invariant
            len == v.len(),
            pos <= len,
            ws@.map_values(|w: String| w@) + words(v@.skip(pos as int)) == words(v@),
        decreases len - pos,
    {
        let ghost s = v@.skip(pos as int);
        let mut a = pos;
        while a < len && is_whitespace(v[a])
            invariant
                pos <= a <= len,
                len == v.len(),
                trim_start(s) == trim_start(v@.skip(a as int)),
                s == v@.skip(pos as int),
            decreases len - a,
        {
            assert(v@.skip(a as int).drop_first() =~= v@.skip(a + 1));
            a += 1;
        }
        assert(trim_start(v@.skip(a as int)) == v@.skip(a as int));
        let ghost t = v@.skip(a as int);
        proof {
            lemma_trim_start_shape(s);
        }
        if a == len {
            assert(t.len() == 0);
            assert(words(s) == Seq::<Seq<char>>::empty());
            assert(ws@.map_values(|w: String| w@) + words(s) =~= ws@.map_values(|w: String| w@));
            assert(v@.skip(len as int) =~= Seq::<char>::empty());
            pos = len;
        } else {
            let mut b = a;
            while b < len && !is_whitespace(v[b])
                invariant
                    a <= b <= len,
                    len == v.len(),
                    forall|j: int| a <= j < b ==> !is_ws(v@[j]),
                decreases len - b,
            {
                b += 1;
            }
            proof {
                assert forall|j: int| 0 <= j < b - a implies !is_ws(t[j]) by {
                    assert(t[j] == v@[a + j]);
                }
                lemma_word_len_unique(t, b - a);
                assert(t.take(b - a) =~= v@.subrange(a as int, b as int));
                assert(t.skip(b - a) =~= v@.skip(b as int));
            }
            let ghost before = ws@.map_values(|w: String| w@);
            ws.push(string_of_range(v, a, b));
            assert(ws@.map_values(|w: String| w@) =~= before.push(v@.subrange(a as int, b as int)));
            assert(words(s) == seq![v@.subrange(a as int, b as int)] + words(v@.skip(b as int)));
            assert(ws@.map_values(|w: String| w@) + words(v@.skip(b as int)) =~= before + words(s));
            pos = b;
        }
    }
    assert(v@.skip(len as int) =~= Seq::<char>::empty());
    assert(words(Seq::<char>::empty()) == Seq::<Seq<char>>::empty());
    assert(ws@.map_values(|w: String| w@) + Seq::<Seq<char>>::empty() =~= ws@.map_values(|w: String| w@));
    ws
}

/// The editor command and its arguments (see `editor_spec`).
pub fn editor_command(visual: Option<&str>, editor: Option<&str>) -> (r: Result<
    (String, Vec<String>),
    DesktopError,
>)
    ensures
        match editor_spec(opt_view(visual), opt_view(editor)) {
            Err(e) => r matches Err(f) && f == e,
            Ok(ws) => r matches Ok((cmd, args)) && cmd@ == ws[0] && args@.map_values(
                |w: String| w@,
            ) == ws.drop_first(),
        },
{
    let chosen = match visual {
        Some(v) => Some(v),
        None => editor,
    };
    match chosen {
        None => Err(DesktopError::EditorNotSet),
        Some(c) => {
            let cv = chars_of(c);
            let mut ws = words_of(&cv);
            if ws.len() == 0 {
                Err(DesktopError::EditorEmpty)
            } else {
                let ghost all = ws@.map_values(|w: String| w@);
                let cmd = ws.remove(0);
                assert(ws@.map_values(|w: String| w@) =~= all.drop_first());
                Ok((cmd, ws))
            }
        },
    }
}

pub open spec fn opt_view(o: Option<&str>) -> Option<Seq<char>> {
    match o {
        Some(s) => Some(s@),
        None => None,
    }
}

// ---------------------------------------------------------------------------
// App ids
// ---------------------------------------------------------------------------

pub open spec fn is_ascii_alnum(c: char) -> bool {
    ('a' <= c <= 'z') || ('A' <= c <= 'Z') || ('0' <= c <= '9')
}

pub open spec fn ascii_lower(c: char) -> char {
    if 'A' <= c <= 'Z' {
        ((c as u32) + 32) as char
    } else {
        c
    }
}

/// The id made from the rest of a name `s`, given the id so far and whether a separator
/// is pending: ASCII letters and digits are kept (letters lowercased), every run of other
/// characters becomes one `-` between kept characters.
pub open spec fn slug_from(s: Seq<char>, out: Seq<char>, pending: bool) -> Seq<char>
    decreases s.len(),
{
    if s.len() == 0 {
        out
    } else if is_ascii_alnum(s[0]) {
        let o = if pending && out.len() > 0 {
            out.push('-')
        } else {
            out
        };
        slug_from(s.drop_first(), o.push(ascii_lower(s[0])), false)
    } else {
        slug_from(s.drop_first(), out, true)
    }
}

/// The app id made from a name: lowercase ASCII letters and digits, words joined by `-`.
pub open spec fn slug_spec(s: Seq<char>) -> Seq<char> {
    slug_from(s, Seq::empty(), false)
}

/// The app id made from a name (see `slug_spec`).
pub fn slug(name: &str) -> (r: String)
    ensures
        r@ == slug_spec(name@),
{
    let v = chars_of(name);
    let mut out: Vec<char> = Vec::new();
    let mut pending = false;
    let mut i: usize = 0;
    assert(v@.skip(0) =~= v@);
    while i < v.len()
        invariant
            i <= v.len(),
            slug_from(v@.skip(i as int), out@, pending) == slug_spec(name@),
            v@ == name@,
        decreases v.len() - i,
    {
        let c = v[i];
        assert(v@.skip(i as int).drop_first() =~= v@.skip(i + 1));
        assert(v@.skip(i as int)[0] == c);
        if ('a' <= c && c <= 'z') || ('A' <= c && c <= 'Z') || ('0' <= c && c <= '9') {
            if pending && out.len() > 0 {
                out.push('-');
            }
            let lc = if 'A' <= c && c <= 'Z' {
                ((c as u32) + 32) as u8 as char
            } else {
                c
            };
            assert(lc == ascii_lower(c));
            out.push(lc);
            pending = false;
        } else {
            pending = true;
        }
        i += 1;
    }
    assert(v@.skip(v.len() as int) =~= Seq::<char>::empty());
    string_of(&out)
}

// ---------------------------------------------------------------------------
// The container's desktop entry
// ---------------------------------------------------------------------------

/// The installed desktop entry: the AppImage's entry with `Exec` set to the installed
/// AppImage and, when the container has an icon, `Icon` set to it.
pub open spec fn updated_spec(contents: Seq<char>, appimage: Seq<char>, icon: Option<Seq<char>>) -> Seq<char> {
    let m = Map::<Seq<char>, Seq<char>>::empty().insert("Exec"@, appimage);
    merge_spec(contents, match icon {
        Some(i) => m.insert("Icon"@, i),
        None => m,
    })
}

/// The desktop entry to install into a container (see `updated_spec`).
pub fn updated_desktop(contents: &str, appimage_path: &str, icon_path: Option<&str>) -> (r: String)
    ensures
        r@ == updated_spec(contents@, appimage_path@, opt_view(icon_path)),
{
    let mut m = OverrideMap::new();
    m.insert("Exec", appimage_path);
    match icon_path {
        Some(i) => {
            m.insert("Icon", i);
        },
        None => {},
    }
    merge_contents(contents, m)
}

} // verus!

verus! {

/// An app id as `slug` writes them: ASCII lowercase letters, digits and single `-`
/// separators, neither first nor last.
pub open spec fn is_id(s: Seq<char>) -> bool {
    &&& forall|i: int| 0 <= i < s.len() ==> is_id_char(#[trigger] s[i])
    &&& s.len() > 0 ==> s[0] != '-' && s.last() != '-'
    &&& forall|i: int| 0 <= i < s.len() - 1 && #[trigger] s[i] == '-' ==> s[i + 1] != '-'
}

pub open spec fn is_id_char(c: char) -> bool {
    ('a' <= c <= 'z') || ('0' <= c <= '9') || c == '-'
}

proof fn lemma_slug_is_id(s: Seq<char>, out: Seq<char>, pending: bool)
    requires
        is_id(out),
    ensures
        is_id(slug_from(s, out, pending)),
    decreases s.len(),
{
    if s.len() > 0 {
        if is_ascii_alnum(s[0]) {
            let o = if pending && out.len() > 0 {
                out.push('-')
            } else {
                out
            };
            let c = ascii_lower(s[0]);
            assert('a' <= c <= 'z' || '0' <= c <= '9');
            let o2 = o.push(c);
            assert forall|i: int| 0 <= i < o2.len() - 1 && #[trigger] o2[i] == '-' implies o2[i + 1]
                != '-' by {
                if i < out.len() - 1 {
                    assert(o2[i] == out[i] && o2[i + 1] == out[i + 1]);
                }
            }
            assert(is_id(o2));
            lemma_slug_is_id(s.drop_first(), o2, false);
        } else {
            lemma_slug_is_id(s.drop_first(), out, true);
        }
    }
}

proof fn lemma_slug_keeps_id(s: Seq<char>, out: Seq<char>, pending: bool)
    requires
        is_id(out + (if pending { seq!['-'] } else { Seq::empty() }) + s),
        out.len() > 0 ==> out.last() != '-',
    ensures
        slug_from(s, out, pending) == out + (if pending { seq!['-'] } else { Seq::empty() }) + s,
    decreases s.len(),
{
    let w = out + (if pending { seq!['-'] } else { Seq::<char>::empty() }) + s;
    if s.len() == 0 {
        if pending {
            assert(w.last() == '-');
        }
        assert(w =~= out);
    } else {
        let c = s[0];
        let k = out.len() + (if pending { 1int } else { 0int });
        assert(w[k] == c);
        assert(is_id_char(c));
        if pending {
            assert(w[k - 1] == '-');
            if out.len() == 0 {
                assert(w[0] == '-');
            }
        }
        if c == '-' {
            assert(!pending);
            assert(out.len() > 0) by {
                if out.len() == 0 {
                    assert(w[0] == '-');
                }
            }
            assert(out + seq!['-'] + s.drop_first() =~= w);
            lemma_slug_keeps_id(s.drop_first(), out, true);
        } else {
            assert(is_ascii_alnum(c));
            assert(ascii_lower(c) == c);
            let o = if pending && out.len() > 0 {
                out.push('-')
            } else {
                out
            };
            assert(o =~= out + (if pending { seq!['-'] } else { Seq::<char>::empty() }));
            assert(o.push(c) + s.drop_first() =~= w);
            lemma_slug_keeps_id(s.drop_first(), o.push(c), false);
        }
    }
}

/// Ids are stable: making an id from an id gives it back, so an id that `slug` gave
/// names the same app when it is passed through `slug` again.
pub proof fn law_slug_idempotent(s: Seq<char>)
    ensures
        is_id(slug_spec(s)),
        slug_spec(slug_spec(s)) == slug_spec(s),
{
    lemma_slug_is_id(s, Seq::empty(), false);
    let t = slug_spec(s);
    assert(Seq::<char>::empty() + Seq::<char>::empty() + t =~= t);
    lemma_slug_keeps_id(t, Seq::empty(), false);
}

} // verus!

verus! {

/// The desktop entry that a sync installs: the AppImage's entry pointed at the container
/// (see `updated_spec`), with the user's overrides merged over it.
pub open spec fn synced_spec(
    contents: Seq<char>,
    appimage: Seq<char>,
    icon: Option<Seq<char>>,
    overrides: Map<Seq<char>, Seq<char>>,
) -> Seq<char> {
    merge_spec(updated_spec(contents, appimage, icon), overrides)
}

/// The desktop entry to install on a sync (see `synced_spec`): the user's edits are
/// applied again over the new entry.
pub fn synced_desktop(
    contents: &str,
    appimage_path: &str,
    icon_path: Option<&str>,
    overrides: OverrideMap,
) -> (r: String)
    ensures
        r@ == synced_spec(contents@, appimage_path@, opt_view(icon_path), overrides@),
{
    let updated = updated_desktop(contents, appimage_path, icon_path);
    merge_contents(updated.as_str(), overrides)
}

/// Edits persist through a sync: every override of an override key that the user set is
/// a `key=value` line of the entry that the sync installs.
pub proof fn law_sync_keeps_overrides(
    contents: Seq<char>,
    appimage: Seq<char>,
    icon: Option<Seq<char>>,
    overrides: Map<Seq<char>, Seq<char>>,
    k: Seq<char>,
)
    requires
        key_index(k) is Some,
        overrides.contains_key(k),
    ensures
        merged_lines(updated_spec(contents, appimage, icon), overrides).contains(
            key_line(k, overrides[k]),
        ),
        synced_spec(contents, appimage, icon, overrides) == unlines(
            merged_lines(updated_spec(contents, appimage, icon), overrides),
        ),
{
    law_merge_applies_overrides(updated_spec(contents, appimage, icon), overrides, k);
}

} // verus!

verus! {

/// The editor comes from `VISUAL` whenever it is set, whatever `EDITOR` holds, and from
/// `EDITOR` otherwise, read the same way: a variable is never ignored for the other one
/// being unset, so "not set" is answered only when neither is set. A chosen variable
/// that holds words runs its first word with the rest as arguments.
pub proof fn law_editor_choice(visual: Option<Seq<char>>, editor: Option<Seq<char>>)
    ensures
        visual is Some ==> editor_spec(visual, editor) == editor_spec(visual, None),
        visual is None ==> editor_spec(visual, editor) == editor_spec(editor, None),
        editor_spec(visual, editor) == Err::<Seq<Seq<char>>, DesktopError>(
            DesktopError::EditorNotSet,
        ) <==> visual is None && editor is None,
        visual is Some && words(visual->0).len() > 0 ==> editor_spec(visual, editor) == Ok::<
            Seq<Seq<char>>,
            DesktopError,
        >(words(visual->0)),
        visual is None && editor is Some && words(editor->0).len() > 0 ==> editor_spec(
            visual,
            editor,
        ) == Ok::<Seq<Seq<char>>, DesktopError>(words(editor->0)),
        editor_spec(visual, editor) matches Ok(ws) ==> ws.len() > 0,
{
}

} // verus!
