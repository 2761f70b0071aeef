use vstd::prelude::*;

use crate::container::{member, staging_spec, Container, ContainerView, StagedWrite};
use crate::desktop::DesktopEntry;
use crate::text::{chars_of, push_all, string_of, trim, trim_range, range_eq};

verus! {

// ---------------------------------------------------------------------------
// Decisions of the commands
// ---------------------------------------------------------------------------

/// `s` cut to fit a column of `max` characters: when it has more than `max - 3`
/// characters (0 when `max < 3`), its first `max - 3` characters followed by `...`.
pub open spec fn truncate_spec(s: Seq<char>, max: nat) -> Seq<char> {
    let m: nat = if max >= 3 { (max - 3) as nat } else { 0 };
    if s.len() > m {
        s.take(m as int) + "..."@
    } else {
        s
    }
}

/// Cuts `s` to fit a column of `max` characters (see `truncate_spec`); the result never
/// has more than `max` characters, or 3 when `max` is smaller.
pub fn truncate(s: &str, max: usize) -> (r: String)
    ensures
        r@ == truncate_spec(s@, max as nat),
        r@.len() <= if max >= 3 { max as nat } else { 3 },
{
    proof {
        reveal_strlit("...");
    }
    let m: usize = if max >= 3 { max - 3 } else { 0 };
    let v = chars_of(s);
    if v.len() > m {
        let mut out: Vec<char> = Vec::new();
        crate::text::push_range(&mut out, &v, 0, m);
        push_all(&mut out, &chars_of("..."));
        string_of(&out)
    } else {
        string_of(&v)
    }
}

pub open spec fn ascii_lower(c: char) -> char {
    if 'A' <= c <= 'Z' {
        ((c as u32) + 32) as char
    } else {
        c
    }
}

/// `s` with its ASCII letters lowercased.
pub open spec fn lower_ascii(s: Seq<char>) -> Seq<char> {
    s.map_values(|c: char| ascii_lower(c))
}

/// The answer to a yes/no prompt: `y` or `yes` is yes, `n`, `no` or nothing is no, in
/// any letter case and with surrounding whitespace ignored; anything else asks again.
/// (Unicode lowercasing maps no other character onto these ASCII letters, so lowercasing
/// the ASCII letters decides the same.)
pub open spec fn answer_spec(input: Seq<char>) -> Option<bool> {
    let t = lower_ascii(trim(input));
    if t == "y"@ || t == "yes"@ {
        Some(true)
    } else if t == "n"@ || t == "no"@ || t.len() == 0 {
        Some(false)
    } else {
        None
    }
}

/// Reads one answer to a yes/no prompt (see `answer_spec`): `None` means ask again.
pub fn prompt_answer(input: &str) -> (r: Option<bool>)
    ensures
        r == answer_spec(input@),
{
    let v = chars_of(input);
    let (a, b) = trim_range(&v, 0, v.len());
    assert(v@.subrange(0, v@.len() as int) =~= input@);
    let mut t: Vec<char> = Vec::new();
    let mut i = a;
    while i < b
        invariant
            a <= i <= b <= v.len(),
            t@ == lower_ascii(v@.subrange(a as int, i as int)),
        decreases b - i,
    {
        let c = v[i];
        let lc = if 'A' <= c && c <= 'Z' {
            ((c as u32) + 32) as u8 as char
        } else {
            c
        };
        assert(lc == ascii_lower(c));
        t.push(lc);
        assert(lower_ascii(v@.subrange(a as int, i + 1)) =~= lower_ascii(v@.subrange(a as int, i as int)).push(lc));
        i += 1;
    }
    let n = t.len();
    let y = chars_of("y");
    let yes = chars_of("yes");
    let no1 = chars_of("n");
    let no2 = chars_of("no");
    assert(t@.subrange(0, n as int) =~= t@);
    if range_eq(&t, 0, n, &y) || range_eq(&t, 0, n, &yes) {
        Some(true)
    } else if range_eq(&t, 0, n, &no1) || range_eq(&t, 0, n, &no2) || n == 0 {
        Some(false)
    } else {
        None
    }
}

/// The permission bits of a file made executable for its owner, group and others.
pub fn executable_mode(mode: u32) -> (r: u32)
    ensures
        r == mode | 0o111,
        r & 0o111 == 0o111,
        r & !0o111u32 == mode & !0o111u32,
{
    let r = mode | 0o111;
    assert(r & 0o111 == 0o111) by (bit_vector)
        requires
            r == mode | 0o111,
    ;
    assert(r & !0o111u32 == mode & !0o111u32) by (bit_vector)
        requires
            r == mode | 0o111,
    ;
    r
}

/// Whether a sync changes a container: its desktop entry would change, or its icon was
/// synced.
pub fn sync_needed(new_desktop: &str, installed_desktop: &str, icon_synced: bool) -> (r: bool)
    ensures
        r == !(new_desktop@ == installed_desktop@ && !icon_synced),
{
    let a = chars_of(new_desktop);
    let b = chars_of(installed_desktop);
    assert(a@.subrange(0, a@.len() as int) =~= a@);
    let same = range_eq(&a, 0, a.len(), &b);
    !(same && !icon_synced)
}

/// Whether the AppImage's icon must be installed: the container has none, or its bytes
/// differ.
pub fn icon_differs(new_icon: &[u8], installed_icon: Option<&[u8]>) -> (r: bool)
    ensures
        r == match installed_icon {
            None => true,
            Some(b) => new_icon@ != b@,
        },
{
    match installed_icon {
        None => true,
        Some(b) => {
            if new_icon.len() != b.len() {
                return true;
            }
            let mut i: usize = 0;
            while i < b.len()
                invariant
                    installed_icon == Some(b),
                    new_icon@.len() == b@.len(),
                    i <= b.len(),
                    forall|j: int| 0 <= j < i ==> new_icon@[j] == b@[j],
                decreases b.len() - i,
            {
                if new_icon[i] != b[i] {
                    assert(new_icon@[i as int] != b@[i as int]);
                    return true;
                }
                i += 1;
            }
            assert(new_icon@ =~= b@);
            false
        },
    }
}

/// What a sync does with the AppImage's icon.
pub struct IconSync {
    /// The icon counts as synced: it is new or changed.
    pub synced: bool,
    /// The icon is installed into the container (never in check mode).
    pub install: bool,
}

/// The icon step of a sync: with `--icon`, an icon found in the AppImage (`new_icon`) is
/// synced when the container has none or a different one; it is installed unless in
/// check mode. Without `--icon`, or without an icon in the AppImage, nothing happens.
pub fn icon_sync(
    sync_icon: bool,
    check: bool,
    new_icon: Option<&[u8]>,
    installed_icon: Option<&[u8]>,
) -> (s: IconSync)
    ensures
        s.synced == (sync_icon && match new_icon {
            None => false,
            Some(n) => match installed_icon {
                None => true,
                Some(b) => n@ != b@,
            },
        }),
        s.install == (s.synced && !check),
{
    let synced = if !sync_icon {
        false
    } else {
        match new_icon {
            None => false,
            Some(n) => icon_differs(n, installed_icon),
        }
    };
    IconSync { synced, install: synced && !check }
}

/// The line reporting a synced icon: `Synced: <file>`, or `Would sync: <file>` in check
/// mode.
pub fn icon_report(check: bool, file_name: &str) -> (r: String)
    ensures
        r@ == (if check {
            "Would sync: "@
        } else {
            "Synced: "@
        }) + file_name@,
{
    let mut out = if check {
        chars_of("Would sync: ")
    } else {
        chars_of("Synced: ")
    };
    push_all(&mut out, &chars_of(file_name));
    string_of(&out)
}

/// A staged write as its staging file, target and contents.
pub open spec fn write_view(w: StagedWrite) -> (Seq<char>, Seq<char>, Seq<char>) {
    (w.staging@, w.target@, w.contents@)
}

/// The write of `contents` to the container's file with `suffix`, through its staging file.
pub open spec fn member_write(c: ContainerView, suffix: Seq<char>, contents: Seq<char>) -> (
    Seq<char>,
    Seq<char>,
    Seq<char>,
) {
    let target = member(c.root, c.id, suffix);
    (staging_spec(target), target, contents)
}

/// The writes of a sync that changes a container: none in check mode; otherwise, when
/// the app was edited, the fresh unedited entry as `.original.desktop`, and then the new
/// entry as `.desktop`.
pub open spec fn sync_writes_spec(
    c: ContainerView,
    check: bool,
    edited: bool,
    fresh: Seq<char>,
    new_desktop: Seq<char>,
) -> Seq<(Seq<char>, Seq<char>, Seq<char>)> {
    let desktop = member_write(c, ".desktop"@, new_desktop);
    if check {
        Seq::empty()
    } else if edited {
        seq![member_write(c, ".original.desktop"@, fresh), desktop]
    } else {
        seq![desktop]
    }
}

/// What a sync writes into container `c`: `None` when nothing changes (the new entry
/// equals the installed one and no icon was synced); otherwise the writes of
/// `sync_writes_spec`, so that check mode changes nothing.
pub fn sync_plan(
    c: &Container,
    check: bool,
    edited: bool,
    fresh: &str,
    new_desktop: &str,
    installed: &str,
    icon_synced: bool,
) -> (p: Option<Vec<StagedWrite>>)
    ensures
        p is None <==> (new_desktop@ == installed@ && !icon_synced),
        p matches Some(ws) ==> ws@.map_values(|w: StagedWrite| write_view(w)) == sync_writes_spec(
            c@,
            check,
            edited,
            fresh@,
            new_desktop@,
        ),
{
    if !sync_needed(new_desktop, installed, icon_synced) {
        return None;
    }
    let mut ws: Vec<StagedWrite> = Vec::new();
    if !check {
        if edited {
            ws.push(c.install_original(fresh));
        }
        ws.push(c.install_desktop(new_desktop));
    }
    assert(ws@.map_values(|w: StagedWrite| write_view(w)) =~= sync_writes_spec(
        c@,
        check,
        edited,
        fresh@,
        new_desktop@,
    ));
    Some(ws)
}

/// What resetting a container's edits does.
pub struct ResetPlan {
    /// There is something to reset.
    pub has_edits: bool,
    /// The override file is removed.
    pub remove_override: bool,
    /// The unedited desktop entry is moved back over the desktop entry.
    pub restore_original: bool,
}

/// Resetting edits, given which of the unedited entry and the override file exist: no
/// edits when neither does; the override file goes when it exists; the unedited entry
/// is restored when it exists.
pub fn reset_plan(original_exists: bool, override_exists: bool) -> (p: ResetPlan)
    ensures
        p.has_edits == (original_exists || override_exists),
        p.remove_override == override_exists,
        p.restore_original == original_exists,
{
    ResetPlan {
        has_edits: original_exists || override_exists,
        remove_override: override_exists,
        restore_original: original_exists,
    }
}

} // verus!

verus! {

/// How an app is named in messages: its name, followed by ` v<version>` when known.
pub open spec fn label_spec(meta: (Seq<char>, Option<Seq<char>>)) -> Seq<char> {
    match meta.1 {
        Some(v) => meta.0 + " v"@ + v,
        None => meta.0,
    }
}

/// How an app is named in messages (see `label_spec`).
pub fn entry_label(meta: &DesktopEntry) -> (r: String)
    ensures
        r@ == label_spec(meta@),
{
    let mut out = chars_of(meta.name());
    match meta.version() {
        Some(v) => {
            push_all(&mut out, &chars_of(" v"));
            push_all(&mut out, &chars_of(v));
        },
        None => {},
    }
    string_of(&out)
}

/// The line reporting a synced container: `Synced` (or `Would sync` in check mode), then
/// the container's id when either entry cannot be read, the new name when neither has a
/// version, and otherwise `<installed> -> <new>` with their versions.
pub open spec fn sync_report_spec(
    check: bool,
    id: Seq<char>,
    new_meta: Option<(Seq<char>, Option<Seq<char>>)>,
    installed_meta: Option<(Seq<char>, Option<Seq<char>>)>,
) -> Seq<char> {
    let verb = if check { "Would sync"@ } else { "Synced"@ };
    match (new_meta, installed_meta) {
        (Some(n), Some(i)) => if n.1 is None && i.1 is None {
            verb + ": "@ + n.0
        } else {
            verb + ": "@ + label_spec(i) + " -> "@ + label_spec(n)
        },
        _ => verb + ": "@ + id,
    }
}

pub open spec fn meta_view(m: Option<&DesktopEntry>) -> Option<(Seq<char>, Option<Seq<char>>)> {
    match m {
        Some(e) => Some(e@),
        None => None,
    }
}

/// The line reporting a synced container (see `sync_report_spec`); an entry is `None`
/// when it could not be read.
pub fn sync_report(
    check: bool,
    id: &str,
    new_meta: Option<&DesktopEntry>,
    installed_meta: Option<&DesktopEntry>,
) -> (r: String)
    ensures
        r@ == sync_report_spec(check, id@, meta_view(new_meta), meta_view(installed_meta)),
{
    let mut out = if check {
        chars_of("Would sync")
    } else {
        chars_of("Synced")
    };
    push_all(&mut out, &chars_of(": "));
    match (new_meta, installed_meta) {
        (Some(n), Some(i)) => {
            if n.version().is_none() && i.version().is_none() {
                push_all(&mut out, &chars_of(n.name()));
            } else {
                push_all(&mut out, &chars_of(entry_label(i).as_str()));
                push_all(&mut out, &chars_of(" -> "));
                push_all(&mut out, &chars_of(entry_label(n).as_str()));
            }
        },
        _ => {
            push_all(&mut out, &chars_of(id));
        },
    }
    string_of(&out)
}

} // verus!

verus! {

/// The decimal digit `d` (for `d < 10`).
pub open spec fn digit_char(d: nat) -> char {
    if d == 0 {
        '0'
    } else if d == 1 {
        '1'
    } else if d == 2 {
        '2'
    } else if d == 3 {
        '3'
    } else if d == 4 {
        '4'
    } else if d == 5 {
        '5'
    } else if d == 6 {
        '6'
    } else if d == 7 {
        '7'
    } else if d == 8 {
        '8'
    } else {
        '9'
    }
}

/// `n` written in decimal, without leading zeros.
pub open spec fn decimal(n: nat) -> Seq<char>
    decreases n,
{
    if n < 10 {
        seq![digit_char(n)]
    } else {
        decimal(n / 10).push(digit_char(n % 10))
    }
}

fn digit(d: u64) -> (c: char)
    requires
        d < 10,
    ensures
        c == digit_char(d as nat),
{
    if d == 0 {
        '0'
    } else if d == 1 {
        '1'
    } else if d == 2 {
        '2'
    } else if d == 3 {
        '3'
    } else if d == 4 {
        '4'
    } else if d == 5 {
        '5'
    } else if d == 6 {
        '6'
    } else if d == 7 {
        '7'
    } else if d == 8 {
        '8'
    } else {
        '9'
    }
}

fn push_decimal(out: &mut Vec<char>, n: u64)
    ensures
        final(out)@ == old(out)@ + decimal(n as nat),
    decreases n,
{
    if n >= 10 {
        push_decimal(out, n / 10);
    }
    out.push(digit(n % 10));
    proof {
        if n >= 10 {
            assert(decimal(n as nat) == decimal((n / 10) as nat).push(digit_char((n % 10) as nat)));
        }
    }
    assert(final(out)@ =~= old(out)@ + decimal(n as nat)) by {
        if n < 10 {
            assert(decimal(n as nat) == seq![digit_char(n as nat)]);
        }
    }
}

/// The line closing a sync of all containers: that everything is up to date when none
/// was synced, otherwise how many were (or, in check mode, would be) synced.
pub open spec fn sync_summary_spec(synced: nat, check: bool) -> Seq<char> {
    if synced == 0 {
        "Everything up to date."@
    } else if check {
        decimal(synced) + " container(s) would be synced."@
    } else {
        "Synced "@ + decimal(synced) + " container(s)."@
    }
}

/// The line closing a sync of all containers (see `sync_summary_spec`).
pub fn sync_summary(synced: u64, check: bool) -> (r: String)
    ensures
        r@ == sync_summary_spec(synced as nat, check),
{
    if synced == 0 {
        return "Everything up to date.".to_owned();
    }
    let mut out: Vec<char> = Vec::new();
    if check {
        push_decimal(&mut out, synced);
        push_all(&mut out, &chars_of(" container(s) would be synced."));
    } else {
        push_all(&mut out, &chars_of("Synced "));
        push_decimal(&mut out, synced);
        push_all(&mut out, &chars_of(" container(s)."));
    }
    string_of(&out)
}

} // verus!

verus! {

/// `s` padded with spaces on the right to `width` characters (`{:<width}`).
pub open spec fn pad_spec(s: Seq<char>, width: nat) -> Seq<char> {
    if s.len() >= width {
        s
    } else {
        s + Seq::new((width - s.len()) as nat, |i: int| ' ')
    }
}

fn push_padded(out: &mut Vec<char>, s: &str, width: usize)
    ensures
        final(out)@ == old(out)@ + pad_spec(s@, width as nat),
{
    let v = chars_of(s);
    let ghost start = out@;
    push_all(out, &v);
    let mut n = v.len();
    while n < width
        invariant
            v@ == s@,
            v.len() <= n <= width || (n == v.len() && n >= width),
            out@ == start + v@ + Seq::new((n - v.len()) as nat, |i: int| ' '),
        decreases width - n,
    {
        out.push(' ');
        assert(Seq::new((n + 1 - v.len()) as nat, |i: int| ' ') =~= Seq::new(
            (n - v.len()) as nat,
            |i: int| ' ',
        ).push(' '));
        n += 1;
    }
    assert(out@ =~= start + pad_spec(s@, width as nat));
}

/// The width of the id column of the listing.
pub const ID_WIDTH: usize = 32;

/// The width of the name column of the listing.
pub const NAME_WIDTH: usize = 24;

/// The heading of the listing.
pub open spec fn list_header_spec() -> Seq<char> {
    pad_spec("ID"@, ID_WIDTH as nat) + " "@ + pad_spec("NAME"@, NAME_WIDTH as nat) + " VERSION"@
}

/// One row of the listing: the id, then the name cut to its column (or `BROKEN` when
/// the desktop entry cannot be read), then the version when there is one.
pub open spec fn list_row_spec(id: Seq<char>, meta: Option<(Seq<char>, Option<Seq<char>>)>) -> Seq<char> {
    let first = pad_spec(id, ID_WIDTH as nat) + " "@;
    match meta {
        None => first + pad_spec("BROKEN"@, NAME_WIDTH as nat),
        Some((name, version)) => {
            let named = first + pad_spec(truncate_spec(name, NAME_WIDTH as nat), NAME_WIDTH as nat);
            match version {
                Some(v) => named + " "@ + v,
                None => named,
            }
        },
    }
}

/// The heading of the listing (see `list_header_spec`).
pub fn list_header() -> (r: String)
    ensures
        r@ == list_header_spec(),
{
    let mut out: Vec<char> = Vec::new();
    push_padded(&mut out, "ID", ID_WIDTH);
    push_all(&mut out, &chars_of(" "));
    push_padded(&mut out, "NAME", NAME_WIDTH);
    push_all(&mut out, &chars_of(" VERSION"));
    string_of(&out)
}

/// One row of the listing (see `list_row_spec`); the entry is `None` when it cannot be
/// read.
pub fn list_row(id: &str, meta: Option<&DesktopEntry>) -> (r: String)
    ensures
        r@ == list_row_spec(id@, meta_view(meta)),
{
    let mut out: Vec<char> = Vec::new();
    push_padded(&mut out, id, ID_WIDTH);
    push_all(&mut out, &chars_of(" "));
    match meta {
        None => {
            push_padded(&mut out, "BROKEN", NAME_WIDTH);
        },
        Some(m) => {
            let name = truncate(m.name(), NAME_WIDTH);
            push_padded(&mut out, name.as_str(), NAME_WIDTH);
            match m.version() {
                Some(v) => {
                    push_all(&mut out, &chars_of(" "));
                    push_all(&mut out, &chars_of(v));
                },
                None => {},
            }
        },
    }
    string_of(&out)
}

} // verus!

verus! {

/// A yes/no answer is decided by the typed word alone, whatever its letter case and the
/// whitespace around it: `n`, `no` or nothing means no, and yes is given only for `y` or
/// `yes`, so a yes always starts with `y` and a no is empty or starts with `n`.
pub proof fn law_prompt_answer(input: Seq<char>)
    ensures
        ({
            let t = lower_ascii(trim(input));
            &&& (t == "n"@ || t == "no"@ || t.len() == 0) ==> answer_spec(input) == Some(false)
            &&& (t == "y"@ || t == "yes"@) ==> answer_spec(input) == Some(true)
            &&& answer_spec(input) == Some(true) ==> (t == "y"@ || t == "yes"@)
            &&& answer_spec(input) == Some(true) ==> t.len() > 0 && t[0] == 'y'
            &&& answer_spec(input) == Some(false) ==> t.len() == 0 || t[0] == 'n'
        }),
{
    reveal_strlit("y");
    reveal_strlit("yes");
    reveal_strlit("n");
    reveal_strlit("no");
    let t = lower_ascii(trim(input));
    assert("y"@ != "n"@ && "y"@ != "no"@ && "yes"@ != "n"@ && "yes"@ != "no"@) by {
        assert("y"@[0] != "n"@[0]);
        assert("y"@[0] != "no"@[0]);
        assert("yes"@[0] != "n"@[0]);
        assert("yes"@[0] != "no"@[0]);
    }
    if t == "y"@ || t == "yes"@ {
        assert(t[0] == 'y');
    }
    if t == "n"@ || t == "no"@ {
        assert(t[0] == 'n');
    }
}

proof fn lemma_truncate_fits(s: Seq<char>, max: nat)
    requires
        max >= 3,
    ensures
        truncate_spec(s, max).len() <= max,
{
    reveal_strlit("...");
}

proof fn lemma_pad_len(s: Seq<char>, width: nat)
    ensures
        pad_spec(s, width).len() == if s.len() >= width { s.len() } else { width },
        pad_spec(s, width).take(s.len() as int) == s,
{
    assert(pad_spec(s, width).take(s.len() as int) =~= s);
}

/// The listing is a table: every row of an app whose entry could be read starts with its
/// id padded to the id column, a space, and its name, cut to the name column and padded
/// to it, with or without a version. When the id fits its column, the name starts under
/// the heading's `NAME` and the version, when there is one, starts exactly under the
/// heading's `VERSION` and ends the row.
pub proof fn law_list_columns(id: Seq<char>, name: Seq<char>, version: Option<Seq<char>>)
    ensures
        ({
            let row = list_row_spec(id, Some((name, version)));
            let cut = truncate_spec(name, NAME_WIDTH as nat);
            let head = list_header_spec();
            let lead = pad_spec(id, ID_WIDTH as nat) + " "@ + pad_spec(cut, NAME_WIDTH as nat);
            &&& row.take(lead.len() as int) == lead
            &&& id.len() <= ID_WIDTH ==> {
                &&& lead.len() == ID_WIDTH + 1 + NAME_WIDTH
                &&& row.subrange(ID_WIDTH + 1, ID_WIDTH + 1 + cut.len()) == cut
                &&& head.subrange(ID_WIDTH + 1, ID_WIDTH + 5) == "NAME"@
                &&& head.skip(ID_WIDTH + 1 + NAME_WIDTH + 1) == "VERSION"@
                &&& match version {
                    Some(v) => row.len() == ID_WIDTH + 1 + NAME_WIDTH + 1 + v.len()
                        && row[ID_WIDTH + 1 + NAME_WIDTH] == ' '
                        && row.skip(ID_WIDTH + 1 + NAME_WIDTH + 1) == v,
                    None => row.len() == ID_WIDTH + 1 + NAME_WIDTH,
                }
            }
        }),
{
    reveal_strlit(" ");
    reveal_strlit("ID");
    reveal_strlit("NAME");
    reveal_strlit(" VERSION");
    reveal_strlit("VERSION");
    let cut = truncate_spec(name, NAME_WIDTH as nat);
    lemma_truncate_fits(name, NAME_WIDTH as nat);
    lemma_pad_len(id, ID_WIDTH as nat);
    lemma_pad_len(cut, NAME_WIDTH as nat);
    lemma_pad_len("ID"@, ID_WIDTH as nat);
    lemma_pad_len("NAME"@, NAME_WIDTH as nat);
    let first = pad_spec(id, ID_WIDTH as nat) + " "@;
    let lead = first + pad_spec(cut, NAME_WIDTH as nat);
    let row = list_row_spec(id, Some((name, version)));
    match version {
        Some(v) => {
            assert(row == lead + " "@ + v);
            assert(row.take(lead.len() as int) =~= lead);
            if id.len() <= ID_WIDTH {
                assert(row.skip(ID_WIDTH + 1 + NAME_WIDTH + 1) =~= v);
                assert(row.subrange(ID_WIDTH + 1, ID_WIDTH + 1 + cut.len()) =~= cut);
            }
        },
        None => {
            assert(row == lead);
            assert(row.take(lead.len() as int) =~= lead);
            if id.len() <= ID_WIDTH {
                assert(row.subrange(ID_WIDTH + 1, ID_WIDTH + 1 + cut.len()) =~= cut);
            }
        },
    }
    let head = list_header_spec();
    let hfirst = pad_spec("ID"@, ID_WIDTH as nat) + " "@;
    assert(head == hfirst + pad_spec("NAME"@, NAME_WIDTH as nat) + " VERSION"@);
    assert(head.subrange(ID_WIDTH + 1, ID_WIDTH + 5) =~= "NAME"@);
    assert(head.skip(ID_WIDTH + 1 + NAME_WIDTH + 1) =~= "VERSION"@);
}

/// A sync is reported from the installed entry to the new one: whenever either entry has
/// a version, the report reads `<verb>: <installed> -> <new>`, the installed entry's
/// name and version on the left of the arrow and the new entry's on the right, so the
/// report ends with the new entry's label (and version, when it has one).
pub proof fn law_sync_report_direction(
    check: bool,
    id: Seq<char>,
    new_meta: (Seq<char>, Option<Seq<char>>),
    installed_meta: (Seq<char>, Option<Seq<char>>),
)
    requires
        new_meta.1 is Some || installed_meta.1 is Some,
    ensures
        ({
            let verb = if check {
                "Would sync"@
            } else {
                "Synced"@
            };
            let report = sync_report_spec(check, id, Some(new_meta), Some(installed_meta));
            let left = verb + ": "@ + installed_meta.0 + match installed_meta.1 {
                Some(v) => " v"@ + v,
                None => Seq::<char>::empty(),
            };
            let right = new_meta.0 + match new_meta.1 {
                Some(v) => " v"@ + v,
                None => Seq::<char>::empty(),
            };
            &&& report == left + " -> "@ + right
            &&& report.take(left.len() as int) == left
            &&& report.skip(report.len() - right.len()) == right
        }),
{
    let verb = if check {
        "Would sync"@
    } else {
        "Synced"@
    };
    let left = verb + ": "@ + installed_meta.0 + match installed_meta.1 {
        Some(v) => " v"@ + v,
        None => Seq::<char>::empty(),
    };
    let right = new_meta.0 + match new_meta.1 {
        Some(v) => " v"@ + v,
        None => Seq::<char>::empty(),
    };
    let report = sync_report_spec(check, id, Some(new_meta), Some(installed_meta));
    assert(report =~= left + " -> "@ + right);
    assert(report.take(left.len() as int) =~= left);
    assert(report.skip(report.len() - right.len()) =~= right);
}

} // verus!
