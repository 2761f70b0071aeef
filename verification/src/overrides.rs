use vstd::prelude::*;

use crate::text::{
    lemma_lines_unlines_cr, lemma_trim_keeps_first, strip_all, strip_cr,
    after_first_line, chars_of, find_char, first_line, has_char, is_ws, lemma_lines_no_newline,
    lemma_lines_unlines, lemma_run_len, lemma_run_len_append, lemma_run_len_unique,
    lemma_trim_fixed, lemma_trim_idempotent, lemma_trimmed_ends, lemma_unlines_append,
    lemma_unlines_push, lines, next_line, plain_line, push_all, push_range, range_eq, run_len,
    split_once, string_of, string_of_range, trim, trim_range, unlines,
};

verus! {

/// The number of keys that an override file may set.
pub const KEY_COUNT: usize = 10;

/// The keys of a desktop entry that an override file may set, in template order:
/// `Name`, `Comment`, `Categories`, `Keywords`, `Icon`, `Path`, `Exec`, `Terminal`,
/// `StartupWMClass`, `MimeType`.
pub open spec fn override_key(i: int) -> Seq<char> {
    if i == 0 {
        "Name"@
    } else if i == 1 {
        "Comment"@
    } else if i == 2 {
        "Categories"@
    } else if i == 3 {
        "Keywords"@
    } else if i == 4 {
        "Icon"@
    } else if i == 5 {
        "Path"@
    } else if i == 6 {
        "Exec"@
    } else if i == 7 {
        "Terminal"@
    } else if i == 8 {
        "StartupWMClass"@
    } else {
        "MimeType"@
    }
}

/// The position of `k` among the override keys at or after `from`.
pub open spec fn key_index_from(k: Seq<char>, from: int) -> Option<int>
    decreases KEY_COUNT - from,
{
    if from < 0 || from >= KEY_COUNT {
        None
    } else if k == override_key(from) {
        Some(from)
    } else {
        key_index_from(k, from + 1)
    }
}

/// The position of `k` among the override keys, if it is one.
pub open spec fn key_index(k: Seq<char>) -> Option<int> {
    key_index_from(k, 0)
}

/// The override keys as characters.
pub proof fn reveal_keys()
    ensures
        override_key(0) == seq!['N', 'a', 'm', 'e'],
        override_key(1) == seq!['C', 'o', 'm', 'm', 'e', 'n', 't'],
        override_key(2) == seq!['C', 'a', 't', 'e', 'g', 'o', 'r', 'i', 'e', 's'],
        override_key(3) == seq!['K', 'e', 'y', 'w', 'o', 'r', 'd', 's'],
        override_key(4) == seq!['I', 'c', 'o', 'n'],
        override_key(5) == seq!['P', 'a', 't', 'h'],
        override_key(6) == seq!['E', 'x', 'e', 'c'],
        override_key(7) == seq!['T', 'e', 'r', 'm', 'i', 'n', 'a', 'l'],
        override_key(8) == seq![
            'S', 't', 'a', 'r', 't', 'u', 'p', 'W', 'M', 'C', 'l', 'a', 's', 's'
        ],
        override_key(9) == seq!['M', 'i', 'm', 'e', 'T', 'y', 'p', 'e'],
{
    reveal_strlit("Name");
    reveal_strlit("Comment");
    reveal_strlit("Categories");
    reveal_strlit("Keywords");
    reveal_strlit("Icon");
    reveal_strlit("Path");
    reveal_strlit("Exec");
    reveal_strlit("Terminal");
    reveal_strlit("StartupWMClass");
    reveal_strlit("MimeType");
    assert(override_key(0) =~= seq!['N', 'a', 'm', 'e']);
    assert(override_key(1) =~= seq!['C', 'o', 'm', 'm', 'e', 'n', 't']);
    assert(override_key(2) =~= seq!['C', 'a', 't', 'e', 'g', 'o', 'r', 'i', 'e', 's']);
    assert(override_key(3) =~= seq!['K', 'e', 'y', 'w', 'o', 'r', 'd', 's']);
    assert(override_key(4) =~= seq!['I', 'c', 'o', 'n']);
    assert(override_key(5) =~= seq!['P', 'a', 't', 'h']);
    assert(override_key(6) =~= seq!['E', 'x', 'e', 'c']);
    assert(override_key(7) =~= seq!['T', 'e', 'r', 'm', 'i', 'n', 'a', 'l']);
    assert(override_key(8) =~= seq![
        'S', 't', 'a', 'r', 't', 'u', 'p', 'W', 'M', 'C', 'l', 'a', 's', 's'
    ]);
    assert(override_key(9) =~= seq!['M', 'i', 'm', 'e', 'T', 'y', 'p', 'e']);
}

/// Each override key finds its own position, and holds no whitespace, `=`, `#` or newline.
pub proof fn lemma_keys()
    ensures
        forall|i: int| 0 <= i < KEY_COUNT ==> #[trigger] key_index(override_key(i)) == Some(i),
        forall|i: int, j: int|
            0 <= i < KEY_COUNT && 0 <= j < override_key(i).len() ==> {
                let c = #[trigger] override_key(i)[j];
                &&& !is_ws(c)
                &&& c != '='
                &&& c != '#'
                &&& c != '\n'
            },
        forall|i: int| 0 <= i < KEY_COUNT ==> #[trigger] override_key(i).len() > 0,
{
    reveal_keys();
    reveal_with_fuel(key_index_from, 11);
    assert forall|i: int, j: int|
        0 <= i < KEY_COUNT && 0 <= j < override_key(i).len() implies {
            let c = #[trigger] override_key(i)[j];
            &&& !is_ws(c)
            &&& c != '='
            &&& c != '#'
            &&& c != '\n'
        } by {
        let k = override_key(i);
        assert('A' <= k[j] <= 'z');
    }
}

/// A key's position is within the key list.
pub proof fn lemma_key_index_range(k: Seq<char>, from: int)
    ensures
        key_index_from(k, from) matches Some(i) ==> 0 <= from <= i < KEY_COUNT && override_key(i) == k,
    decreases KEY_COUNT - from,
{
    if 0 <= from < KEY_COUNT && k != override_key(from) {
        lemma_key_index_range(k, from + 1);
    }
}

/// The key at position `i`, as characters.
pub fn key_chars(i: usize) -> (k: Vec<char>)
    requires
        i < KEY_COUNT,
    ensures
        k@ == override_key(i as int),
{
    proof {
        reveal_keys();
    }
    if i == 0 {
        vec!['N', 'a', 'm', 'e']
    } else if i == 1 {
        vec!['C', 'o', 'm', 'm', 'e', 'n', 't']
    } else if i == 2 {
        vec!['C', 'a', 't', 'e', 'g', 'o', 'r', 'i', 'e', 's']
    } else if i == 3 {
        vec!['K', 'e', 'y', 'w', 'o', 'r', 'd', 's']
    } else if i == 4 {
        vec!['I', 'c', 'o', 'n']
    } else if i == 5 {
        vec!['P', 'a', 't', 'h']
    } else if i == 6 {
        vec!['E', 'x', 'e', 'c']
    } else if i == 7 {
        vec!['T', 'e', 'r', 'm', 'i', 'n', 'a', 'l']
    } else if i == 8 {
        vec!['S', 't', 'a', 'r', 't', 'u', 'p', 'W', 'M', 'C', 'l', 'a', 's', 's']
    } else {
        vec!['M', 'i', 'm', 'e', 'T', 'y', 'p', 'e']
    }
}

/// The position of `v[lo..hi]` among the override keys, if it is one.
pub fn key_index_of(v: &Vec<char>, lo: usize, hi: usize) -> (r: Option<usize>)
    requires
        lo <= hi <= v.len(),
    ensures
        r matches Some(i) ==> i < KEY_COUNT,
        r matches Some(i) ==> key_index(v@.subrange(lo as int, hi as int)) == Some(i as int),
        r is None ==> key_index(v@.subrange(lo as int, hi as int)) is None,
{
    let ghost k = v@.subrange(lo as int, hi as int);
    let mut i: usize = 0;
    while i < KEY_COUNT
        invariant
            lo <= hi <= v.len(),
            i <= KEY_COUNT,
            k == v@.subrange(lo as int, hi as int),
            key_index(k) == key_index_from(k, i as int),
        decreases KEY_COUNT - i,
    {
        let key = key_chars(i);
        if range_eq(v, lo, hi, &key) {
            return Some(i);
        }
        i += 1;
    }
    None
}

/// An override table: for each override key, the value it is set to, if any.
pub type Slots = Seq<Option<Seq<char>>>;

/// The table with no key set.
pub open spec fn empty_slots() -> Slots {
    Seq::new(KEY_COUNT as nat, |i: int| None::<Seq<char>>)
}

/// Key-value pairs as text.
pub type Pairs = Seq<(Seq<char>, Seq<char>)>;

/// The value that `k` has in `m`, if any.
pub open spec fn map_get(m: Map<Seq<char>, Seq<char>>, k: Seq<char>) -> Option<Seq<char>> {
    if m.contains_key(k) {
        Some(m[k])
    } else {
        None
    }
}

/// The value of the last pair of `ps` with key `k`, if any: a later pair replaces an
/// earlier one.
pub open spec fn pairs_lookup(ps: Pairs, k: Seq<char>) -> Option<Seq<char>>
    decreases ps.len(),
{
    if ps.len() == 0 {
        None
    } else if ps.last().0 == k {
        Some(ps.last().1)
    } else {
        pairs_lookup(ps.drop_last(), k)
    }
}

/// The value of `k` in a table whose override keys are held in `s` and whose other keys
/// are held in `ps`.
pub open spec fn table_lookup(s: Slots, ps: Pairs, k: Seq<char>) -> Option<Seq<char>> {
    match key_index(k) {
        Some(i) => s[i],
        None => pairs_lookup(ps, k),
    }
}

/// The map that `s` and `ps` make up (see `table_lookup`).
pub open spec fn table_map(s: Slots, ps: Pairs) -> Map<Seq<char>, Seq<char>> {
    Map::new(|k: Seq<char>| table_lookup(s, ps, k) is Some, |k: Seq<char>| table_lookup(s, ps, k)->0)
}

/// The map that sets the override keys as `s` does, and no other key.
pub open spec fn map_of(s: Slots) -> Map<Seq<char>, Seq<char>> {
    table_map(s, Seq::empty())
}

/// The override keys' values in `m`, one slot per key.
pub open spec fn slots_of(m: Map<Seq<char>, Seq<char>>) -> Slots {
    Seq::new(KEY_COUNT as nat, |i: int| map_get(m, override_key(i)))
}

/// A table's override keys are the ones its slots hold.
pub proof fn lemma_slots_of_table(s: Slots, ps: Pairs)
    requires
        s.len() == KEY_COUNT,
    ensures
        slots_of(table_map(s, ps)) == s,
        slots_of(map_of(s)) == s,
{
    lemma_keys();
    assert(slots_of(table_map(s, ps)) =~= s);
    assert(slots_of(map_of(s)) =~= s);
}

/// A map that sets only override keys is rebuilt from its slots.
pub proof fn lemma_map_of_slots(m: Map<Seq<char>, Seq<char>>)
    requires
        forall|k: Seq<char>| #[trigger] m.contains_key(k) ==> key_index(k) is Some,
    ensures
        map_of(slots_of(m)) == m,
{
    assert forall|k: Seq<char>| #[trigger] map_get(map_of(slots_of(m)), k) == map_get(m, k) by {
        lemma_key_index_range(k, 0);
    }
    lemma_map_ext(map_of(slots_of(m)), m);
}

/// The last pair of `ps` with key `k` gives its value.
proof fn lemma_pairs_lookup_at(ps: Pairs, k: Seq<char>, j: int)
    requires
        0 <= j < ps.len(),
        ps[j].0 == k,
        forall|t: int| j < t < ps.len() ==> #[trigger] ps[t].0 != k,
    ensures
        pairs_lookup(ps, k) == Some(ps[j].1),
    decreases ps.len(),
{
    if j < ps.len() - 1 {
        assert(ps.last().0 != k);
        lemma_pairs_lookup_at(ps.drop_last(), k, j);
    }
}

/// A key that no pair has has no value.
proof fn lemma_pairs_lookup_none(ps: Pairs, k: Seq<char>)
    requires
        forall|t: int| 0 <= t < ps.len() ==> #[trigger] ps[t].0 != k,
    ensures
        pairs_lookup(ps, k) is None,
    decreases ps.len(),
{
    if ps.len() > 0 {
        assert(ps.last().0 != k);
        lemma_pairs_lookup_none(ps.drop_last(), k);
    }
}

/// The pairs of `ps` whose key is not `k`, in order.
pub open spec fn without_key(ps: Pairs, k: Seq<char>) -> Pairs
    decreases ps.len(),
{
    if ps.len() == 0 {
        ps
    } else if ps.last().0 == k {
        without_key(ps.drop_last(), k)
    } else {
        without_key(ps.drop_last(), k).push(ps.last())
    }
}

/// Dropping the pairs of key `k` removes `k` and leaves every other key's value.
proof fn lemma_without_key(ps: Pairs, k: Seq<char>, x: Seq<char>)
    ensures
        pairs_lookup(without_key(ps, k), x) == if x == k {
            None
        } else {
            pairs_lookup(ps, x)
        },
    decreases ps.len(),
{
    if ps.len() > 0 {
        lemma_without_key(ps.drop_last(), k, x);
        let w = without_key(ps.drop_last(), k);
        if ps.last().0 != k {
            assert(w.push(ps.last()).drop_last() =~= w);
        }
    }
}

/// Setting a pair: the later pair wins.
proof fn lemma_pairs_push(ps: Pairs, p: (Seq<char>, Seq<char>), x: Seq<char>)
    ensures
        pairs_lookup(ps.push(p), x) == if x == p.0 {
            Some(p.1)
        } else {
            pairs_lookup(ps, x)
        },
{
    assert(ps.push(p).drop_last() =~= ps);
}

/// Giving the last pair of key `k` a new value sets `k` and leaves every other key.
proof fn lemma_pairs_update(ps: Pairs, k: Seq<char>, v: Seq<char>, j: int, x: Seq<char>)
    requires
        0 <= j < ps.len(),
        ps[j].0 == k,
        forall|t: int| j < t < ps.len() ==> #[trigger] ps[t].0 != k,
    ensures
        pairs_lookup(ps.update(j, (k, v)), x) == if x == k {
            Some(v)
        } else {
            pairs_lookup(ps, x)
        },
    decreases ps.len(),
{
    let qs = ps.update(j, (k, v));
    if j == ps.len() - 1 {
        assert(qs.drop_last() =~= ps.drop_last());
    } else {
        assert(qs.drop_last() =~= ps.drop_last().update(j, (k, v)));
        assert(ps.last().0 != k);
        lemma_pairs_update(ps.drop_last(), k, v, j, x);
    }
}

/// An override file's key-value pairs. The override keys have a slot each; any other
/// key is kept among the pairs, where a later pair replaces an earlier one.
pub struct OverrideMap {
    slots: Vec<Option<String>>,
    others: Vec<(String, String)>,
}

pub open spec fn opt_view(o: Option<String>) -> Option<Seq<char>> {
    match o {
        Some(s) => Some(s@),
        None => None,
    }
}

impl OverrideMap {
    /// The values of the override keys, one slot per key.
    closed spec fn slot_view(&self) -> Slots {
        Seq::new(
            KEY_COUNT as nat,
            |i: int|
                if i < self.slots.len() {
                    opt_view(self.slots@[i])
                } else {
                    None
                },
        )
    }

    /// The pairs of the other keys.
    closed spec fn pair_view(&self) -> Pairs {
        self.others@.map_values(|p: (String, String)| (p.0@, p.1@))
    }
}

impl View for OverrideMap {
    type V = Map<Seq<char>, Seq<char>>;

    closed spec fn view(&self) -> Map<Seq<char>, Seq<char>> {
        table_map(self.slot_view(), self.pair_view())
    }
}

impl OverrideMap {
    /// The empty map.
    pub fn new() -> (m: OverrideMap)
        ensures
            m@ == Map::<Seq<char>, Seq<char>>::empty(),
    {
        let m = OverrideMap::empty();
        assert forall|k: Seq<char>| !#[trigger] m@.contains_key(k) by {
            lemma_key_index_range(k, 0);
        }
        assert(m@ =~= Map::<Seq<char>, Seq<char>>::empty());
        m
    }

    fn empty() -> (m: OverrideMap)
        ensures
            m.slot_view() == empty_slots(),
            m.pair_view().len() == 0,
    {
        let mut slots: Vec<Option<String>> = Vec::new();
        let mut i: usize = 0;
        while i < KEY_COUNT
            invariant
                i <= KEY_COUNT,
                slots.len() == i,
                forall|j: int| 0 <= j < i ==> slots@[j] is None,
            decreases KEY_COUNT - i,
        {
            slots.push(None);
            i += 1;
        }
        let m = OverrideMap { slots, others: Vec::new() };
        assert(m.slot_view() =~= empty_slots());
        m
    }

    /// The pairs of the other keys, as characters.
    fn pair_chars(&self) -> (r: Vec<(Vec<char>, Vec<char>)>)
        ensures
            chars_pairs_view(r@) == self.pair_view(),
    {
        let mut r: Vec<(Vec<char>, Vec<char>)> = Vec::new();
        let mut i: usize = 0;
        while i < self.others.len()
            invariant
                i <= self.others.len(),
                r.len() == i,
                chars_pairs_view(r@) == self.pair_view().take(i as int),
            decreases self.others.len() - i,
        {
            let k = &self.others[i].0;
            let v = &self.others[i].1;
            let ghost before = r@;
            let kc = chars_of(k.as_str());
            let vc = chars_of(v.as_str());
            r.push((kc, vc));
            proof {
                assert(self.pair_view()[i as int] == (k@, v@));
                assert(r@ == before.push((kc, vc)));
                assert forall|t: int| 0 <= t < i + 1 implies #[trigger] chars_pairs_view(r@)[t]
                    == self.pair_view().take(i + 1)[t] by {
                    if t < i {
                        assert(r@[t] == before[t]);
                        assert(chars_pairs_view(before)[t] == self.pair_view().take(i as int)[t]);
                    }
                }
            }
            assert(chars_pairs_view(r@) =~= self.pair_view().take(i + 1));
            i += 1;
        }
        assert(self.pair_view().take(i as int) =~= self.pair_view());
        r
    }

    /// The value of `key`, as `HashMap::get` gives it.
    pub fn get(&self, key: &str) -> (r: Option<String>)
        ensures
            opt_view(r) == map_get(self@, key@),
    {
        let v = chars_of(key);
        assert(v@.subrange(0, v@.len() as int) =~= key@);
        match key_index_of(&v, 0, v.len()) {
            Some(i) => {
                if i < self.slots.len() {
                    match &self.slots[i] {
                        Some(s) => Some(s.clone()),
                        None => None,
                    }
                } else {
                    None
                }
            },
            None => {
                let ps = self.pair_chars();
                match last_pair(&ps, &v, 0, v.len()) {
                    Some(j) => {
                        assert(chars_pairs_view(ps@)[j as int] == self.pair_view()[j as int]);
                        Some(self.others[j].1.clone())
                    },
                    None => None,
                }
            },
        }
    }

    /// Sets `key` to `value` and returns its previous value, as `HashMap::insert` does.
    pub fn insert(&mut self, key: &str, value: &str) -> (prev: Option<String>)
        ensures
            opt_view(prev) == map_get(old(self)@, key@),
            final(self)@ == old(self)@.insert(key@, value@),
    {
        let prev = self.get(key);
        let ghost before = self@;
        let ghost ps = self.pair_view();
        let ghost s = self.slot_view();
        let v = chars_of(key);
        assert(v@.subrange(0, v@.len() as int) =~= key@);
        match key_index_of(&v, 0, v.len()) {
            Some(i) => {
                self.set_slot(i, value.to_owned());
                assert forall|k: Seq<char>| #[trigger] map_get(self@, k) == map_get(
                    before.insert(key@, value@),
                    k,
                ) by {
                    lemma_key_index_range(k, 0);
                    lemma_key_index_range(key@, 0);
                }
            },
            None => {
                let cs = self.pair_chars();
                match last_pair(&cs, &v, 0, v.len()) {
                    Some(j) => {
                        // the key is there: its last pair takes the new value
                        self.others.set(j, (key.to_owned(), value.to_owned()));
                        assert(self.slot_view() =~= s);
                        assert(self.pair_view() =~= ps.update(j as int, (key@, value@)));
                        assert forall|k: Seq<char>| #[trigger] map_get(self@, k) == map_get(
                            before.insert(key@, value@),
                            k,
                        ) by {
                            lemma_pairs_update(ps, key@, value@, j as int, k);
                        }
                    },
                    None => {
                        self.others.push((key.to_owned(), value.to_owned()));
                        assert(self.slot_view() =~= s);
                        assert(self.pair_view() =~= ps.push((key@, value@)));
                        assert forall|k: Seq<char>| #[trigger] map_get(self@, k) == map_get(
                            before.insert(key@, value@),
                            k,
                        ) by {
                            lemma_pairs_push(ps, (key@, value@), k);
                        }
                    },
                }
            },
        }
        proof {
            lemma_map_ext(self@, before.insert(key@, value@));
        }
        prev
    }

    fn set_slot(&mut self, i: usize, value: String)
        requires
            i < KEY_COUNT,
        ensures
            final(self).slot_view() == old(self).slot_view().update(i as int, Some(value@)),
            final(self).pair_view() == old(self).pair_view(),
    {
        let ghost before = self.slot_view();
        while self.slots.len() <= i
            invariant
                self.slot_view() == before,
                self.pair_view() == old(self).pair_view(),
            decreases i + 1 - self.slots.len(),
        {
            self.slots.push(None);
            assert(self.slot_view() =~= before);
        }
        self.slots.set(i, Some(value));
        assert(self.slot_view() =~= before.update(i as int, Some(value@)));
    }
}

/// Character pairs as text pairs.
pub open spec fn chars_pairs_view(ps: Seq<(Vec<char>, Vec<char>)>) -> Pairs {
    ps.map_values(|p: (Vec<char>, Vec<char>)| (p.0@, p.1@))
}

/// The index of the last pair of `ps` whose key is `v[lo..hi]`.
fn last_pair(ps: &Vec<(Vec<char>, Vec<char>)>, v: &Vec<char>, lo: usize, hi: usize) -> (r: Option<
    usize,
>)
    requires
        lo <= hi <= v.len(),
    ensures
        match r {
            Some(j) => j < ps.len() && pairs_lookup(chars_pairs_view(ps@), v@.subrange(
                lo as int,
                hi as int,
            )) == Some(ps@[j as int].1@) && chars_pairs_view(ps@)[j as int].0 == v@.subrange(
                lo as int,
                hi as int,
            ) && forall|t: int|
                j < t < ps.len() ==> #[trigger] chars_pairs_view(ps@)[t].0 != v@.subrange(
                    lo as int,
                    hi as int,
                ),
            None => pairs_lookup(chars_pairs_view(ps@), v@.subrange(lo as int, hi as int)) is None,
        },
{
    let ghost k = v@.subrange(lo as int, hi as int);
    let ghost pv = chars_pairs_view(ps@);
    let mut j: usize = ps.len();
    while j > 0
        invariant
            j <= ps.len(),
            lo <= hi <= v.len(),
            k == v@.subrange(lo as int, hi as int),
            pv == chars_pairs_view(ps@),
            forall|t: int| j <= t < ps.len() ==> #[trigger] pv[t].0 != k,
        decreases j,
    {
        if range_eq(v, lo, hi, &ps[j - 1].0) {
            proof {
                lemma_pairs_lookup_at(pv, k, j - 1);
            }
            return Some(j - 1);
        }
        j -= 1;
    }
    proof {
        lemma_pairs_lookup_none(pv, k);
    }
    None
}

/// The pairs of `ps` whose key is not `v[lo..hi]`.
fn drop_pairs(ps: &Vec<(Vec<char>, Vec<char>)>, v: &Vec<char>, lo: usize, hi: usize) -> (r: Vec<
    (Vec<char>, Vec<char>),
>)
    requires
        lo <= hi <= v.len(),
    ensures
        chars_pairs_view(r@) == without_key(chars_pairs_view(ps@), v@.subrange(lo as int, hi as int)),
{
    let ghost k = v@.subrange(lo as int, hi as int);
    let ghost pv = chars_pairs_view(ps@);
    let mut r: Vec<(Vec<char>, Vec<char>)> = Vec::new();
    let mut i: usize = 0;
    assert(pv.take(0) =~= Seq::<(Seq<char>, Seq<char>)>::empty());
    while i < ps.len()
        invariant
            i <= ps.len(),
            lo <= hi <= v.len(),
            k == v@.subrange(lo as int, hi as int),
            pv == chars_pairs_view(ps@),
            chars_pairs_view(r@) == without_key(pv.take(i as int), k),
        decreases ps.len() - i,
    {
        assert(pv.take(i + 1).drop_last() =~= pv.take(i as int));
        assert(pv.take(i + 1).last() == pv[i as int]);
        if !range_eq(v, lo, hi, &ps[i].0) {
            let mut kc: Vec<char> = Vec::new();
            push_all(&mut kc, &ps[i].0);
            let mut vc: Vec<char> = Vec::new();
            push_all(&mut vc, &ps[i].1);
            r.push((kc, vc));
            assert(chars_pairs_view(r@) =~= without_key(pv.take(i as int), k).push(pv[i as int]));
        }
        i += 1;
    }
    assert(pv.take(ps.len() as int) =~= pv);
    r
}

// ---------------------------------------------------------------------------
// Parsing an override file
// ---------------------------------------------------------------------------

/// One line of an override file applied to `m`: blank lines, `#` comments, lines
/// without `=` and keys other than the override keys are skipped; otherwise the
/// trimmed key is set to the trimmed value.
pub open spec fn parse_line(m: Slots, line: Seq<char>) -> Slots {
    let t = trim(line);
    if t.len() == 0 || t[0] == '#' {
        m
    } else {
        match split_once(t, '=') {
            None => m,
            Some((k, v)) => match key_index(trim(k)) {
                Some(i) => m.update(i, Some(trim(v))),
                None => m,
            },
        }
    }
}

/// The lines `ls` applied to `m`, in order.
pub open spec fn parse_lines(m: Slots, ls: Seq<Seq<char>>) -> Slots
    decreases ls.len(),
{
    if ls.len() == 0 {
        m
    } else {
        parse_lines(parse_line(m, ls[0]), ls.drop_first())
    }
}

/// The override table that the text `contents` sets; a later line for a key wins.
pub open spec fn parse_slots(contents: Seq<char>) -> Slots {
    parse_lines(empty_slots(), lines(contents))
}

/// The map that an override file sets: the override keys that `parse_slots` sets, and no
/// other key.
pub open spec fn parse_spec(contents: Seq<char>) -> Map<Seq<char>, Seq<char>> {
    map_of(parse_slots(contents))
}

/// A map of override keys only, with clean values.
pub open spec fn clean_overrides(m: Map<Seq<char>, Seq<char>>) -> bool {
    forall|k: Seq<char>| #[trigger] m.contains_key(k) ==> key_index(k) is Some && clean_value(m[k])
}

/// Reads the override keys set in an override file.
pub fn parse(contents: &str) -> (m: OverrideMap)
    ensures
        m@ == parse_spec(contents@),
        clean_overrides(m@),
{
    proof {
        lemma_parse_slots_clean(contents@);
    }
    let v = chars_of(contents);
    let mut m = OverrideMap::empty();
    let len = v.len();
    let mut pos: usize = 0;
    assert(v@.skip(0) =~= v@);
    while pos < len
        invariant
            len == v.len(),
            pos <= len,
            parse_lines(m.slot_view(), lines(v@.skip(pos as int))) == parse_slots(contents@),
            m.pair_view().len() == 0,
            v@ == contents@,
        decreases len - pos,
    {
        let ghost rest = v@.skip(pos as int);
        let (end, next) = next_line(&v, pos);
        let ghost line = v@.subrange(pos as int, end as int);
        assert(lines(rest) == seq![first_line(rest)] + lines(after_first_line(rest)));
        assert(parse_lines(m.slot_view(), lines(rest)) == parse_lines(
            parse_line(m.slot_view(), line),
            lines(after_first_line(rest)),
        )) by {
            assert((seq![first_line(rest)] + lines(after_first_line(rest))).drop_first()
                =~= lines(after_first_line(rest)));
        }
        apply_line(&mut m, &v, pos, end);
        pos = next;
    }
    assert(v@.skip(len as int) =~= Seq::<char>::empty());
    proof {
        let t = parse_slots(contents@);
        assert(m.pair_view() =~= Seq::<(Seq<char>, Seq<char>)>::empty());
        assert(m@ =~= map_of(t));
        assert forall|k: Seq<char>| #[trigger] m@.contains_key(k) implies key_index(k) is Some
            && clean_value(m@[k]) by {
            lemma_key_index_range(k, 0);
        }
    }
    m
}

/// Applies the line `v[lo..hi]` to `m`.
fn apply_line(m: &mut OverrideMap, v: &Vec<char>, lo: usize, hi: usize)
    requires
        lo <= hi <= v.len(),
    ensures
        final(m).slot_view() == parse_line(old(m).slot_view(), v@.subrange(lo as int, hi as int)),
        final(m).pair_view() == old(m).pair_view(),
{
    let ghost line = v@.subrange(lo as int, hi as int);
    let (a, b) = trim_range(v, lo, hi);
    let ghost t = v@.subrange(a as int, b as int);
    if a == b || v[a] == '#' {
        return;
    }
    let k = find_char(v, a, b, '=');
    if k == b {
        return;
    }
    proof {
        lemma_run_len(t, '=');
        assert(t.take(k - a) =~= v@.subrange(a as int, k as int));
        assert(t.skip(k - a + 1) =~= v@.subrange(k + 1, b as int));
    }
    let (ka, kb) = trim_range(v, a, k);
    match key_index_of(v, ka, kb) {
        Some(i) => {
            let (va, vb) = trim_range(v, k + 1, b);
            let value = string_of_range(v, va, vb);
            m.set_slot(i, value);
        },
        None => {},
    }
}

} // verus!

verus! {

// ---------------------------------------------------------------------------
// The override template
// ---------------------------------------------------------------------------

/// The lines that open every override template. The longer lines are written as short
/// pieces, which the proofs about the header examine character by character.
pub open spec fn header_lines() -> Seq<Seq<char>> {
    seq![
        "[Desktop Entry]"@,
        "# Uncomment the ones you'd"@ + " like to override, unlisted"@ + " keys are ignored."@,
        "# Comment to undo an"@ + " override."@,
        "# These edits will persist"@ + " when you sync."@,
        Seq::<char>::empty(),
    ]
}

/// The template line of key `i`: `key=value` when `existing` sets it, otherwise the
/// commented `# key=value` with the value from `defaults` (empty when unset).
pub open spec fn template_line(defaults: Slots, existing: Slots, i: int) -> Seq<char> {
    match existing[i] {
        Some(v) => override_key(i) + "="@ + v,
        None => "# "@ + override_key(i) + "="@ + match defaults[i] {
            Some(d) => d,
            None => Seq::<char>::empty(),
        },
    }
}

/// All lines of the template: the header, then one line per override key in order.
pub open spec fn template_lines(defaults: Slots, existing: Slots) -> Seq<Seq<char>> {
    header_lines() + Seq::new(KEY_COUNT as nat, |i: int| template_line(defaults, existing, i))
}

/// The override template text, each line ended by a newline.
pub open spec fn template_slots(defaults: Slots, existing: Slots) -> Seq<char> {
    unlines(template_lines(defaults, existing))
}

/// The override template for maps: the values of the override keys offered from
/// `defaults` and set from `existing` (see `template_slots`); other keys do not appear.
pub open spec fn template_spec(
    defaults: Map<Seq<char>, Seq<char>>,
    existing: Map<Seq<char>, Seq<char>>,
) -> Seq<char> {
    template_slots(slots_of(defaults), slots_of(existing))
}

/// Writes the override template: existing overrides stay set, every other key is
/// offered commented out with its current value from `override_map`.
pub fn make_template(override_map: &OverrideMap, existing_overrides: &OverrideMap) -> (t: String)
    ensures
        t@ == template_spec(override_map@, existing_overrides@),
{
    proof {
        lemma_slots_of_table(override_map.slot_view(), override_map.pair_view());
        lemma_slots_of_table(existing_overrides.slot_view(), existing_overrides.pair_view());
    }
    let ghost ls = template_lines(override_map.slot_view(), existing_overrides.slot_view());
    let mut out: Vec<char> = Vec::new();
    let header = [
        ["[Desktop Entry]", "", ""],
        ["# Uncomment the ones you'd", " like to override, unlisted", " keys are ignored."],
        ["# Comment to undo an", " override.", ""],
        ["# These edits will persist", " when you sync.", ""],
        ["", "", ""],
    ];
    let mut j: usize = 0;
    assert(ls.take(0) =~= Seq::<Seq<char>>::empty());
    proof {
        reveal_strlit("");
        assert(header_lines()[0] =~= header@[0]@[0]@ + header@[0]@[1]@ + header@[0]@[2]@);
        assert(header_lines()[1] =~= header@[1]@[0]@ + header@[1]@[1]@ + header@[1]@[2]@);
        assert(header_lines()[2] =~= header@[2]@[0]@ + header@[2]@[1]@ + header@[2]@[2]@);
        assert(header_lines()[3] =~= header@[3]@[0]@ + header@[3]@[1]@ + header@[3]@[2]@);
        assert(header_lines()[4] =~= header@[4]@[0]@ + header@[4]@[1]@ + header@[4]@[2]@);
    }
    while j < 5
        invariant
            j <= 5,
            ls == template_lines(override_map.slot_view(), existing_overrides.slot_view()),
            header@.len() == 5,
            forall|h: int|
                0 <= h < 5 ==> #[trigger] header_lines()[h] == header@[h]@[0]@ + header@[h]@[1]@
                    + header@[h]@[2]@,
            forall|h: int| 0 <= h < 5 ==> #[trigger] header@[h]@.len() == 3,
            out@ == unlines(ls.take(j as int)),
        decreases 5 - j,
    {
        let ghost before = out@;
        let mut p: usize = 0;
        while p < 3
            invariant
                j < 5,
                p <= 3,
                header@[j as int]@.len() == 3,
                out@ == before + (if p == 0 {
                    Seq::<char>::empty()
                } else if p == 1 {
                    header@[j as int]@[0]@
                } else if p == 2 {
                    header@[j as int]@[0]@ + header@[j as int]@[1]@
                } else {
                    header@[j as int]@[0]@ + header@[j as int]@[1]@ + header@[j as int]@[2]@
                }),
            decreases 3 - p,
        {
            let piece = chars_of(header[j][p]);
            push_all(&mut out, &piece);
            p += 1;
        }
        assert(out@ =~= before + header_lines()[j as int]);
        out.push('\n');
        proof {
            lemma_unlines_push(ls.take(j as int), header_lines()[j as int]);
            assert(ls.take(j + 1) =~= ls.take(j as int).push(header_lines()[j as int]));
        }
        j += 1;
    }
    let mut i: usize = 0;
    while i < KEY_COUNT
        invariant
            i <= KEY_COUNT,
            ls == template_lines(override_map.slot_view(), existing_overrides.slot_view()),
            out@ == unlines(ls.take(5 + i)),
        decreases KEY_COUNT - i,
    {
        let key = key_chars(i);
        let ghost before = out@;
        match existing_overrides.get_slot(i) {
            Some(v) => {
                push_all(&mut out, &key);
                out.push('=');
                let vc = chars_of(v.as_str());
                push_all(&mut out, &vc);
            },
            None => {
                out.push('#');
                out.push(' ');
                push_all(&mut out, &key);
                out.push('=');
                match override_map.get_slot(i) {
                    Some(d) => {
                        let dc = chars_of(d.as_str());
                        push_all(&mut out, &dc);
                    },
                    None => {},
                }
            },
        }
        proof {
            reveal_strlit("=");
            reveal_strlit("# ");
            let l = template_line(override_map.slot_view(), existing_overrides.slot_view(), i as int);
            assert(ls[5 + i] == l);
            assert(out@ =~= before + l);
        }
        out.push('\n');
        proof {
            let l = template_line(override_map.slot_view(), existing_overrides.slot_view(), i as int);
            lemma_unlines_push(ls.take(5 + i), l);
            assert(ls.take(5 + i + 1) =~= ls.take(5 + i).push(l));
        }
        i += 1;
    }
    assert(ls.take(5 + KEY_COUNT) =~= ls);
    string_of(&out)
}

impl OverrideMap {
    /// The value set for the key at position `i`.
    fn get_slot(&self, i: usize) -> (r: Option<&String>)
        requires
            i < KEY_COUNT,
        ensures
            match r {
                Some(s) => self.slot_view()[i as int] == Some(s@),
                None => self.slot_view()[i as int] is None,
            },
    {
        if i < self.slots.len() {
            match &self.slots[i] {
                Some(s) => Some(s),
                None => None,
            }
        } else {
            None
        }
    }
}

} // verus!

verus! {

// ---------------------------------------------------------------------------
// Edits persist through a regenerated template
// ---------------------------------------------------------------------------

/// A value as the parser leaves it: trimmed, on one line.
pub open spec fn clean_value(v: Seq<char>) -> bool {
    trim(v) == v && !has_char(v, '\n')
}

/// An override table whose values are all clean.
pub open spec fn well_formed(m: Slots) -> bool {
    &&& m.len() == KEY_COUNT
    &&& forall|i: int| 0 <= i < KEY_COUNT ==> (#[trigger] m[i] matches Some(v) ==> clean_value(v))
}

/// Applying `a + b` is applying `a`, then `b`.
pub proof fn lemma_parse_lines_append(m: Slots, a: Seq<Seq<char>>, b: Seq<Seq<char>>)
    ensures
        parse_lines(m, a + b) == parse_lines(parse_lines(m, a), b),
    decreases a.len(),
{
    if a.len() > 0 {
        lemma_parse_lines_append(parse_line(m, a[0]), a.drop_first(), b);
        assert((a + b).drop_first() =~= a.drop_first() + b);
        assert((a + b)[0] == a[0]);
    } else {
        assert(a + b =~= b);
    }
}

/// A commented line: plain, and it sets no key.
proof fn lemma_comment_line(m: Slots, l: Seq<char>)
    requires
        l.len() > 0,
        l[0] == '#',
        !is_ws(l.last()),
        l.last() != '\r',
        run_len(l, '\n') == l.len(),
    ensures
        plain_line(l),
        parse_line(m, l) == m,
{
    lemma_run_len(l, '\n');
    lemma_trim_fixed(l);
}

/// A short piece of text with no newline, checked character by character.
proof fn lemma_piece(l: Seq<char>)
    requires
        run_len(l, '\n') == l.len(),
    ensures
        !has_char(l, '\n'),
{
    lemma_run_len(l, '\n');
}

/// Newline-free pieces joined have no newline.
proof fn lemma_join_no_newline(a: Seq<char>, b: Seq<char>)
    requires
        !has_char(a, '\n'),
        !has_char(b, '\n'),
    ensures
        !has_char(a + b, '\n'),
{
    lemma_run_len(b, '\n');
    lemma_run_len_append(a, b, '\n');
    lemma_run_len(a + b, '\n');
    if run_len(b, '\n') < b.len() {
        assert(b[run_len(b, '\n') as int] == '\n');
    }
}

proof fn lemma_header_title()
    ensures
        !has_char("[Desktop Entry]"@, '\n'),
        run_len("[Desktop Entry]"@, '=') == 15,
        "[Desktop Entry]"@.len() == 15,
        "[Desktop Entry]"@[0] == '[',
        "[Desktop Entry]"@[14] == ']',
{
    reveal_strlit("[Desktop Entry]");
    reveal_with_fuel(run_len, 17);
    lemma_piece("[Desktop Entry]"@);
}

proof fn lemma_header_h1a()
    ensures
        !has_char("# Uncomment the ones you'd"@, '\n'),
        "# Uncomment the ones you'd"@.len() == 26,
        "# Uncomment the ones you'd"@[0] == '#',
{
    reveal_strlit("# Uncomment the ones you'd");
    reveal_with_fuel(run_len, 28);
    lemma_piece("# Uncomment the ones you'd"@);
}

proof fn lemma_header_h1b()
    ensures
        !has_char(" like to override, unlisted"@, '\n'),
        " like to override, unlisted"@.len() == 27,

{
    reveal_strlit(" like to override, unlisted");
    reveal_with_fuel(run_len, 29);
    lemma_piece(" like to override, unlisted"@);
}

proof fn lemma_header_h1c()
    ensures
        !has_char(" keys are ignored."@, '\n'),
        " keys are ignored."@.len() == 18,
        " keys are ignored."@.last() == '.',
{
    reveal_strlit(" keys are ignored.");
    reveal_with_fuel(run_len, 20);
    lemma_piece(" keys are ignored."@);
}

proof fn lemma_header_h2a()
    ensures
        !has_char("# Comment to undo an"@, '\n'),
        "# Comment to undo an"@.len() == 20,
        "# Comment to undo an"@[0] == '#',
{
    reveal_strlit("# Comment to undo an");
    reveal_with_fuel(run_len, 22);
    lemma_piece("# Comment to undo an"@);
}

proof fn lemma_header_h2b()
    ensures
        !has_char(" override."@, '\n'),
        " override."@.len() == 10,
        " override."@.last() == '.',
{
    reveal_strlit(" override.");
    reveal_with_fuel(run_len, 12);
    lemma_piece(" override."@);
}

proof fn lemma_header_h3a()
    ensures
        !has_char("# These edits will persist"@, '\n'),
        "# These edits will persist"@.len() == 26,
        "# These edits will persist"@[0] == '#',
{
    reveal_strlit("# These edits will persist");
    reveal_with_fuel(run_len, 28);
    lemma_piece("# These edits will persist"@);
}

proof fn lemma_header_h3b()
    ensures
        !has_char(" when you sync."@, '\n'),
        " when you sync."@.len() == 15,
        " when you sync."@.last() == '.',
{
    reveal_strlit(" when you sync.");
    reveal_with_fuel(run_len, 17);
    lemma_piece(" when you sync."@);
}

/// The header lines are plain lines and set no key.
pub proof fn lemma_header(m: Slots)
    ensures
        parse_lines(m, header_lines()) == m,
        forall|i: int| 0 <= i < header_lines().len() ==> plain_line(#[trigger] header_lines()[i]),
{
    lemma_header_title();
    lemma_header_h1a();
    lemma_header_h1b();
    lemma_header_h1c();
    lemma_header_h2a();
    lemma_header_h2b();
    lemma_header_h3a();
    lemma_header_h3b();

    let h = header_lines();
    let h0 = "[Desktop Entry]"@;
    let a = "# Uncomment the ones you'd"@;
    let b = " like to override, unlisted"@;
    let c = " keys are ignored."@;
    let d = "# Comment to undo an"@;
    let e = " override."@;
    let f = "# These edits will persist"@;
    let g = " when you sync."@;
    lemma_join_no_newline(a, b);
    lemma_join_no_newline(a + b, c);
    lemma_join_no_newline(d, e);
    lemma_join_no_newline(f, g);
    let h1 = a + b + c;
    let h2 = d + e;
    let h3 = f + g;
    assert(h1[0] == '#' && h1.last() == '.');
    assert(h2[0] == '#' && h2.last() == '.');
    assert(h3[0] == '#' && h3.last() == '.');
    lemma_run_len_unique(h1, '\n', h1.len() as int);
    lemma_run_len_unique(h2, '\n', h2.len() as int);
    lemma_run_len_unique(h3, '\n', h3.len() as int);
    lemma_comment_line(m, h1);
    lemma_comment_line(m, h2);
    lemma_comment_line(m, h3);
    lemma_trim_fixed(h0);
    assert(parse_line(m, h0) == m);
    assert(parse_line(m, Seq::<char>::empty()) == m);
    assert(!has_char(Seq::<char>::empty(), '\n'));
    assert(h[0] == h0 && h[1] == h1 && h[2] == h2 && h[3] == h3);
    assert(h[4] == Seq::<char>::empty());
    reveal_with_fuel(parse_lines, 6);
    assert(h.drop_first() =~= seq![h1, h2, h3, Seq::<char>::empty()]);
    assert(h.drop_first().drop_first() =~= seq![h2, h3, Seq::<char>::empty()]);
    assert(h.drop_first().drop_first().drop_first() =~= seq![h3, Seq::<char>::empty()]);
    assert(h.drop_first().drop_first().drop_first().drop_first() =~= seq![
        Seq::<char>::empty(),
    ]);
    assert(h.drop_first().drop_first().drop_first().drop_first().drop_first()
        =~= Seq::<Seq<char>>::empty());
}

/// A commented template line holds no newline and, read back, sets nothing.
proof fn lemma_commented_line(m: Slots, key: Seq<char>, d: Seq<char>)
    requires
        !has_char(key, '\n'),
        !has_char(d, '\n'),
    ensures
        !has_char("# "@ + key + "="@ + d, '\n'),
        parse_line(m, strip_cr("# "@ + key + "="@ + d)) == m,
{
    reveal_strlit("=");
    reveal_strlit("# ");
    let line = "# "@ + key + "="@ + d;
    assert(!has_char("="@, '\n'));
    assert(!has_char("# "@, '\n'));
    lemma_join_no_newline("# "@, key);
    lemma_join_no_newline("# "@ + key, "="@);
    lemma_join_no_newline("# "@ + key + "="@, d);
    assert(line[0] == '#');
    assert(line.len() >= 3);
    let x = strip_cr(line);
    assert(x[0] == '#');
    lemma_trim_keeps_first(x);
}

/// An override table whose values hold no newline.
pub open spec fn newline_free(m: Slots) -> bool {
    &&& m.len() == KEY_COUNT
    &&& forall|i: int| 0 <= i < KEY_COUNT ==> (#[trigger] m[i] matches Some(v) ==> !has_char(v, '\n'))
}

/// A key line or a commented line of the template: it holds no newline, and read back
/// (with a final carriage return dropped, as `lines` does) it sets exactly what
/// `existing` sets for that key.
#[verifier::spinoff_prover]
#[verifier::rlimit(40)]
proof fn lemma_template_line(m: Slots, defaults: Slots, existing: Slots, i: int)
    requires
        newline_free(defaults),
        well_formed(existing),
        0 <= i < KEY_COUNT,
    ensures
        !has_char(template_line(defaults, existing, i), '\n'),
        parse_line(m, strip_cr(template_line(defaults, existing, i))) == match existing[i] {
            Some(v) => m.update(i, Some(v)),
            None => m,
        },
{
    lemma_keys();
    reveal_strlit("=");
    reveal_strlit("# ");
    let key = override_key(i);
    let line = template_line(defaults, existing, i);
    assert(key_index(key) == Some(i));
    assert(key.len() > 0);
    assert(!is_ws(key[0]) && !is_ws(key.last()));
    lemma_trim_fixed(key);
    assert forall|j: int| 0 <= j < key.len() implies key[j] != '\n' && key[j] != '=' by {
        assert(!is_ws(key[j]));
    }
    assert(!has_char(key, '\n'));
    assert(!has_char("="@, '\n'));
    assert(!has_char("# "@, '\n'));
    match existing[i] {
        Some(v) => {
            assert(clean_value(v));
            if v.len() > 0 {
                lemma_trimmed_ends(v);
            }
            lemma_join_no_newline(key, "="@);
            lemma_join_no_newline(key + "="@, v);
            assert(line == key + "="@ + v);
            assert(line[0] == key[0]);
            if v.len() > 0 {
                assert(line.last() == v.last());
            } else {
                assert(line.last() == '=');
            }
            lemma_trim_fixed(line);
            assert forall|j: int| 0 <= j < key.len() implies line[j] != '=' by {
                assert(line[j] == key[j]);
            }
            assert(line[key.len() as int] == '=');
            lemma_run_len_unique(line, '=', key.len() as int);
            assert(line.take(key.len() as int) =~= key);
            assert(line.skip(key.len() + 1int) =~= v);
            assert(strip_cr(line) == line);
        },
        None => {
            let d = match defaults[i] {
                Some(d) => d,
                None => Seq::<char>::empty(),
            };
            assert(!has_char(d, '\n'));
            assert(line == "# "@ + key + "="@ + d);
            lemma_commented_line(m, key, d);
        },
    }
}

/// The key lines of the template.
pub open spec fn template_body(defaults: Slots, existing: Slots) -> Seq<Seq<char>> {
    Seq::new(KEY_COUNT as nat, |i: int| template_line(defaults, existing, i))
}

/// The first `j` entries of `m`, the rest unset.
pub open spec fn slots_prefix(m: Slots, j: int) -> Slots {
    Seq::new(KEY_COUNT as nat, |k: int| if k < j { m[k] } else { None })
}

proof fn lemma_template_body(defaults: Slots, existing: Slots, j: int)
    requires
        newline_free(defaults),
        well_formed(existing),
        0 <= j <= KEY_COUNT,
    ensures
        parse_lines(empty_slots(), strip_all(template_body(defaults, existing)).take(j))
            == slots_prefix(existing, j),
    decreases j,
{
    let body = strip_all(template_body(defaults, existing));
    if j == 0 {
        assert(body.take(0) =~= Seq::<Seq<char>>::empty());
        assert(slots_prefix(existing, 0) =~= empty_slots());
    } else {
        lemma_template_body(defaults, existing, j - 1);
        assert(body.take(j) =~= body.take(j - 1) + seq![body[j - 1]]);
        lemma_parse_lines_append(empty_slots(), body.take(j - 1), seq![body[j - 1]]);
        let m = slots_prefix(existing, j - 1);
        lemma_template_line(m, defaults, existing, j - 1);
        reveal_with_fuel(parse_lines, 2);
        assert(seq![body[j - 1]].drop_first() =~= Seq::<Seq<char>>::empty());
        assert(parse_lines(m, seq![body[j - 1]]) == parse_line(m, body[j - 1]));
        assert(body[j - 1] == strip_cr(template_line(defaults, existing, j - 1)));
        assert(parse_line(m, body[j - 1]) =~= slots_prefix(existing, j));
    }
}

/// Reading back a template gives the table of overrides that it was built from, when
/// those are clean and no default holds a newline.
proof fn lemma_template_keeps_slots(defaults: Slots, existing: Slots)
    requires
        newline_free(defaults),
        well_formed(existing),
    ensures
        parse_slots(template_slots(defaults, existing)) == existing,
{
    let ls = template_lines(defaults, existing);
    let body = template_body(defaults, existing);
    assert(ls == header_lines() + body);
    lemma_header(empty_slots());
    assert forall|i: int| 0 <= i < ls.len() implies !has_char(#[trigger] ls[i], '\n') by {
        if i < 5 {
            assert(ls[i] == header_lines()[i]);
            assert(plain_line(header_lines()[i]));
        } else {
            assert(ls[i] == body[i - 5]);
            lemma_template_line(empty_slots(), defaults, existing, i - 5);
        }
    }
    lemma_lines_unlines_cr(ls);
    assert forall|i: int| 0 <= i < 5 implies strip_cr(#[trigger] header_lines()[i])
        == header_lines()[i] by {
        assert(plain_line(header_lines()[i]));
    }
    assert(strip_all(ls) =~= header_lines() + strip_all(body));
    lemma_parse_lines_append(empty_slots(), header_lines(), strip_all(body));
    lemma_template_body(defaults, existing, KEY_COUNT as int);
    assert(strip_all(body).take(KEY_COUNT as int) =~= strip_all(body));
    assert(slots_prefix(existing, KEY_COUNT as int) =~= existing);
}

/// A line without a newline keeps a table clean.
proof fn lemma_parse_line_clean(m: Slots, line: Seq<char>)
    requires
        well_formed(m),
        !has_char(line, '\n'),
    ensures
        well_formed(parse_line(m, line)),
{
    let t = trim(line);
    lemma_trim_idempotent(line);
    if t.len() > 0 && t[0] != '#' {
        lemma_run_len(t, '=');
        let k = run_len(t, '=');
        if k < t.len() {
            let v = t.skip(k + 1int);
            assert forall|j: int| 0 <= j < v.len() implies v[j] != '\n' by {
                assert(v[j] == t[k + 1 + j]);
            }
            lemma_trim_idempotent(v);
            match key_index(trim(t.take(k as int))) {
                Some(i) => {
                    lemma_key_index_range(trim(t.take(k as int)), 0);
                    let r = m.update(i, Some(trim(v)));
                    assert forall|j: int| 0 <= j < KEY_COUNT implies (#[trigger] r[j] matches Some(w)
                        ==> clean_value(w)) by {
                        if j != i {
                            assert(r[j] == m[j]);
                        }
                    }
                },
                None => {},
            }
        }
    }
}

/// Every table that an override file gives holds clean values.
pub proof fn lemma_parse_clean(m: Slots, ls: Seq<Seq<char>>)
    requires
        well_formed(m),
        forall|i: int| 0 <= i < ls.len() ==> !has_char(#[trigger] ls[i], '\n'),
    ensures
        well_formed(parse_lines(m, ls)),
    decreases ls.len(),
{
    if ls.len() > 0 {
        assert(!has_char(ls[0], '\n'));
        lemma_parse_line_clean(m, ls[0]);
        assert forall|i: int| 0 <= i < ls.drop_first().len() implies !has_char(
            #[trigger] ls.drop_first()[i],
            '\n',
        ) by {
            assert(ls.drop_first()[i] == ls[i + 1]);
        }
        lemma_parse_clean(parse_line(m, ls[0]), ls.drop_first());
    }
}

/// The table read from any text holds clean values.
pub proof fn lemma_parse_slots_clean(contents: Seq<char>)
    ensures
        well_formed(parse_slots(contents)),
{
    lemma_lines_no_newline(contents);
    lemma_parse_clean(empty_slots(), lines(contents));
}

} // verus!

verus! {

// ---------------------------------------------------------------------------
// Merging overrides into a desktop entry
// ---------------------------------------------------------------------------

/// The header of the section that overrides apply to.
pub open spec fn entry_header() -> Seq<char> {
    "[Desktop Entry]"@
}

/// The state of a merge: the lines written so far, the line index after the last
/// `[Desktop Entry]` header (where new keys go), whether the current section is that
/// entry, and the overrides not yet used.
pub type MergeState = (Seq<Seq<char>>, int, bool, Map<Seq<char>, Seq<char>>);

/// The line of key `key` set to `value`.
pub open spec fn key_line(key: Seq<char>, value: Seq<char>) -> Seq<char> {
    key + "="@ + value
}

/// One line of a desktop entry merged: a section header is kept and starts or ends
/// the entry section; inside the entry section, a `key=...` line whose trimmed key has
/// an unused override is replaced by `key=value` and the override is used up; every
/// other line is kept.
pub open spec fn merge_line(st: MergeState, line: Seq<char>) -> MergeState {
    let (out, at, in_entry, rest) = st;
    if line.len() > 0 && line[0] == '[' {
        let entry = trim(line) == entry_header();
        let out2 = out.push(line);
        (out2, if entry { out2.len() as int } else { at }, entry, rest)
    } else if !in_entry {
        (out.push(line), at, in_entry, rest)
    } else {
        match split_once(line, '=') {
            None => (out.push(line), at, in_entry, rest),
            Some((k, _)) => {
                let key = trim(k);
                if rest.contains_key(key) {
                    (out.push(key_line(key, rest[key])), at, in_entry, rest.remove(key))
                } else {
                    (out.push(line), at, in_entry, rest)
                }
            },
        }
    }
}

/// The lines `ls` merged in order.
pub open spec fn merge_lines(st: MergeState, ls: Seq<Seq<char>>) -> MergeState
    decreases ls.len(),
{
    if ls.len() == 0 {
        st
    } else {
        merge_lines(merge_line(st, ls[0]), ls.drop_first())
    }
}

/// The lines for the unused overrides of the first `n` override keys, in key order.
pub open spec fn leftover_lines(rest: Map<Seq<char>, Seq<char>>, n: int) -> Seq<Seq<char>>
    decreases n,
{
    if n <= 0 {
        Seq::empty()
    } else {
        leftover_lines(rest, n - 1) + if rest.contains_key(override_key(n - 1)) {
            seq![key_line(override_key(n - 1), rest[override_key(n - 1)])]
        } else {
            Seq::<Seq<char>>::empty()
        }
    }
}

/// The lines of the merged desktop entry: the lines of `contents` with the overrides of
/// `m` applied, and the unused overrides of override keys inserted, in key order, right
/// after the last `[Desktop Entry]` header (at the top when there is none). Unused
/// overrides of other keys are dropped.
pub open spec fn merged_lines(contents: Seq<char>, m: Map<Seq<char>, Seq<char>>) -> Seq<Seq<char>> {
    let (out, at, _, rest) = merge_lines((Seq::empty(), 0, false, m), lines(contents));
    out.take(at) + leftover_lines(rest, KEY_COUNT as int) + out.skip(at)
}

/// The merged desktop entry text, each line ended by a newline.
pub open spec fn merge_spec(contents: Seq<char>, m: Map<Seq<char>, Seq<char>>) -> Seq<char> {
    unlines(merged_lines(contents, m))
}

impl OverrideMap {
    /// The values of the override keys as character vectors, one slot per key.
    fn slot_chars(&self) -> (r: Vec<Option<Vec<char>>>)
        ensures
            r.len() == KEY_COUNT,
            forall|i: int|
                0 <= i < KEY_COUNT ==> #[trigger] chars_opt_view(r@[i]) == self.slot_view()[i],
    {
        let mut r: Vec<Option<Vec<char>>> = Vec::new();
        let mut i: usize = 0;
        while i < KEY_COUNT
            invariant
                i <= KEY_COUNT,
                r.len() == i,
                forall|j: int| 0 <= j < i ==> #[trigger] chars_opt_view(r@[j]) == self.slot_view()[j],
            decreases KEY_COUNT - i,
        {
            match self.get_slot(i) {
                Some(s) => r.push(Some(chars_of(s.as_str()))),
                None => r.push(None),
            }
            i += 1;
        }
        r
    }
}

pub open spec fn chars_opt_view(o: Option<Vec<char>>) -> Option<Seq<char>> {
    match o {
        Some(w) => Some(w@),
        None => None,
    }
}

pub open spec fn rest_view(rest: Seq<Option<Vec<char>>>) -> Slots {
    Seq::new(KEY_COUNT as nat, |i: int| chars_opt_view(rest[i]))
}

/// Using up the override of the key at slot `i`.
proof fn lemma_table_remove_slot(s: Slots, ps: Pairs, i: int)
    requires
        s.len() == KEY_COUNT,
        0 <= i < KEY_COUNT,
    ensures
        table_map(s.update(i, None), ps) == table_map(s, ps).remove(override_key(i)),
{
    lemma_keys();
    assert forall|k: Seq<char>| #[trigger] table_lookup(s.update(i, None), ps, k) == map_get(
        table_map(s, ps).remove(override_key(i)),
        k,
    ) by {
        lemma_key_index_range(k, 0);
    }
    lemma_map_ext(table_map(s.update(i, None), ps), table_map(s, ps).remove(override_key(i)));
}

/// Using up the override of a key that is not an override key.
proof fn lemma_table_remove_pair(s: Slots, ps: Pairs, k: Seq<char>)
    requires
        key_index(k) is None,
    ensures
        table_map(s, without_key(ps, k)) == table_map(s, ps).remove(k),
{
    assert forall|x: Seq<char>| #[trigger] table_lookup(s, without_key(ps, k), x) == map_get(
        table_map(s, ps).remove(k),
        x,
    ) by {
        lemma_without_key(ps, k, x);
    }
    lemma_map_ext(table_map(s, without_key(ps, k)), table_map(s, ps).remove(k));
}

/// Two maps that give every key the same value are equal.
proof fn lemma_map_ext(a: Map<Seq<char>, Seq<char>>, b: Map<Seq<char>, Seq<char>>)
    requires
        forall|k: Seq<char>| #[trigger] map_get(a, k) == map_get(b, k),
    ensures
        a == b,
{
    assert forall|k: Seq<char>| a.contains_key(k) == b.contains_key(k) by {
        assert(map_get(a, k) == map_get(b, k));
    }
    assert forall|k: Seq<char>| #[trigger] a.contains_key(k) implies a[k] == b[k] by {
        assert(map_get(a, k) == map_get(b, k));
    }
    assert(a =~= b);
}

/// Applies overrides to a desktop entry (see `merged_lines`): keys that the
/// `[Desktop Entry]` section has take the override's value, override keys that it lacks
/// are added after its header.
pub fn merge_contents(desktop_contents: &str, override_map: OverrideMap) -> (r: String)
    ensures
        r@ == merge_spec(desktop_contents@, override_map@),
{
    let v = chars_of(desktop_contents);
    let mut rest = override_map.slot_chars();
    let mut pairs = override_map.pair_chars();
    assert(rest_view(rest@) =~= override_map.slot_view());
    let entry = chars_of("[Desktop Entry]");
    let mut out: Vec<char> = Vec::new();
    let mut offset: usize = 0;
    let mut in_entry = false;
    let ghost mut emitted: Seq<Seq<char>> = Seq::empty();
    let ghost mut at: int = 0;
    let ghost target = merge_lines((Seq::empty(), 0, false, override_map@), lines(v@));
    let len = v.len();
    let mut pos: usize = 0;
    assert(v@.skip(0) =~= v@);
    while pos < len
        invariant
            len == v.len(),
            pos <= len,
            v@ == desktop_contents@,
            entry@ == entry_header(),
            rest.len() == KEY_COUNT,
            0 <= at <= emitted.len(),
            out@ == unlines(emitted),
            offset == unlines(emitted.take(at)).len(),
            merge_lines(
                (emitted, at, in_entry, table_map(rest_view(rest@), chars_pairs_view(pairs@))),
                lines(v@.skip(pos as int)),
            ) == target,
            target == merge_lines((Seq::empty(), 0, false, override_map@), lines(v@)),
        decreases len - pos,
    {
        let ghost restl = v@.skip(pos as int);
        let (end, next) = next_line(&v, pos);
        let ghost line = v@.subrange(pos as int, end as int);
        assert(lines(restl) == seq![first_line(restl)] + lines(after_first_line(restl)));
        assert((seq![first_line(restl)] + lines(after_first_line(restl))).drop_first()
            =~= lines(after_first_line(restl)));
        let ghost tm = table_map(rest_view(rest@), chars_pairs_view(pairs@));
        let ghost st = merge_line((emitted, at, in_entry, tm), line);
        let ghost pushed: Seq<char>;
        let ghost before = out@;
        if end > pos && v[pos] == '[' {
            let (a, b) = trim_range(&v, pos, end);
            in_entry = range_eq(&v, a, b, &entry);
            push_range(&mut out, &v, pos, end);
            out.push('\n');
            proof {
                pushed = line;
            }
            if in_entry {
                offset = out.len();
            }
        } else if !in_entry {
            push_range(&mut out, &v, pos, end);
            out.push('\n');
            proof {
                pushed = line;
            }
        } else {
            let k = find_char(&v, pos, end, '=');
            if k == end {
                push_range(&mut out, &v, pos, end);
                out.push('\n');
                proof {
                    pushed = line;
                }
            } else {
                proof {
                    lemma_run_len(line, '=');
                    assert(line.take(k - pos) =~= v@.subrange(pos as int, k as int));
                }
                let (ka, kb) = trim_range(&v, pos, k);
                let ghost key = v@.subrange(ka as int, kb as int);
                let mut replaced = false;
                match key_index_of(&v, ka, kb) {
                    Some(i) => {
                        let ghost rv = rest_view(rest@);
                        assert(rv[i as int] == chars_opt_view(rest@[i as int]));
                        match &rest[i] {
                            Some(w) => {
                                push_range(&mut out, &v, ka, kb);
                                out.push('=');
                                push_all(&mut out, w);
                                out.push('\n');
                                proof {
                                    reveal_strlit("=");
                                    pushed = key_line(key, w@);
                                    assert(out@ =~= before + pushed + seq!['\n']);
                                }
                                replaced = true;
                            },
                            None => {},
                        }
                        if replaced {
                            rest.set(i, None);
                            proof {
                                lemma_key_index_range(key, 0);
                                assert(rest_view(rest@) =~= rv.update(i as int, None));
                                lemma_table_remove_slot(rv, chars_pairs_view(pairs@), i as int);
                            }
                        }
                    },
                    None => {
                        match last_pair(&pairs, &v, ka, kb) {
                            Some(j) => {
                                push_range(&mut out, &v, ka, kb);
                                out.push('=');
                                push_all(&mut out, &pairs[j].1);
                                out.push('\n');
                                proof {
                                    reveal_strlit("=");
                                    pushed = key_line(key, pairs@[j as int].1@);
                                    assert(out@ =~= before + pushed + seq!['\n']);
                                    lemma_table_remove_pair(
                                        rest_view(rest@),
                                        chars_pairs_view(pairs@),
                                        key,
                                    );
                                }
                                pairs = drop_pairs(&pairs, &v, ka, kb);
                                replaced = true;
                            },
                            None => {},
                        }
                    },
                }
                if !replaced {
                    push_range(&mut out, &v, pos, end);
                    out.push('\n');
                    proof {
                        pushed = line;
                    }
                }
            }
        }
        proof {
            assert(out@ =~= before + pushed + seq!['\n']);
            lemma_unlines_push(emitted, pushed);
            assert(st.0 == emitted.push(pushed));
            if st.1 != at {
                assert(st.0.take(st.1) =~= st.0);
            } else {
                assert(st.0.take(at) =~= emitted.take(at));
            }
            emitted = st.0;
            at = st.1;
        }
        assert(in_entry == st.2);
        assert(table_map(rest_view(rest@), chars_pairs_view(pairs@)) == st.3);
        pos = next;
    }
    assert(v@.skip(len as int) =~= Seq::<char>::empty());
    // the unused overrides of the override keys, in key order
    let ghost tm = table_map(rest_view(rest@), chars_pairs_view(pairs@));
    proof {
        lemma_keys();
    }
    let mut left: Vec<char> = Vec::new();
    let mut i: usize = 0;
    assert(leftover_lines(tm, 0) == Seq::<Seq<char>>::empty());
    while i < KEY_COUNT
        invariant
            i <= KEY_COUNT,
            rest.len() == KEY_COUNT,
            tm == table_map(rest_view(rest@), chars_pairs_view(pairs@)),
            forall|j: int| 0 <= j < KEY_COUNT ==> #[trigger] key_index(override_key(j)) == Some(j),
            left@ == unlines(leftover_lines(tm, i as int)),
        decreases KEY_COUNT - i,
    {
        let ghost rv = rest_view(rest@);
        let ghost before = leftover_lines(tm, i as int);
        let ghost key = override_key(i as int);
        assert(key_index(key) == Some(i as int));
        assert(rv[i as int] == chars_opt_view(rest@[i as int]));
        match &rest[i] {
            Some(w) => {
                let key_cs = key_chars(i);
                push_all(&mut left, &key_cs);
                left.push('=');
                push_all(&mut left, w);
                left.push('\n');
                proof {
                    reveal_strlit("=");
                    assert(table_lookup(rv, chars_pairs_view(pairs@), key) == Some(w@));
                    let l = key_line(key, w@);
                    assert(leftover_lines(tm, i + 1) == before + seq![l]);
                    assert(before + seq![l] =~= before.push(l));
                    lemma_unlines_push(before, l);
                    assert(left@ =~= unlines(before) + l + seq!['\n']);
                }
            },
            None => {
                assert(table_lookup(rv, chars_pairs_view(pairs@), key) is None);
                assert(leftover_lines(tm, i + 1) =~= before);
            },
        }
        i += 1;
    }
    proof {
        lemma_unlines_append(emitted.take(at), emitted.skip(at));
        assert(emitted.take(at) + emitted.skip(at) =~= emitted);
        lemma_unlines_append(emitted.take(at), leftover_lines(tm, KEY_COUNT as int));
        lemma_unlines_append(
            emitted.take(at) + leftover_lines(tm, KEY_COUNT as int),
            emitted.skip(at),
        );
    }
    let mut result: Vec<char> = Vec::new();
    push_range(&mut result, &out, 0, offset);
    push_all(&mut result, &left);
    push_range(&mut result, &out, offset, out.len());
    assert(out@.subrange(0, offset as int) =~= unlines(emitted.take(at)));
    assert(out@.subrange(offset as int, out@.len() as int) =~= unlines(emitted.skip(at)));
    assert(result@ =~= merge_spec(desktop_contents@, override_map@));
    string_of(&result)
}

} // verus!

verus! {

/// Merging keeps the lines already written and only appends.
proof fn lemma_merge_lines_empty(st: MergeState, ls: Seq<Seq<char>>)
    requires
        st.3 == Map::<Seq<char>, Seq<char>>::empty(),
        0 <= st.1 <= st.0.len(),
    ensures
        merge_lines(st, ls).0 == st.0 + ls,
        merge_lines(st, ls).3 == Map::<Seq<char>, Seq<char>>::empty(),
        0 <= merge_lines(st, ls).1 <= merge_lines(st, ls).0.len(),
    decreases ls.len(),
{
    if ls.len() == 0 {
        assert(st.0 + ls =~= st.0);
    } else {
        let st2 = merge_line(st, ls[0]);
        assert(st2.0 == st.0.push(ls[0]));
        lemma_merge_lines_empty(st2, ls.drop_first());
        assert(st.0.push(ls[0]) + ls.drop_first() =~= st.0 + ls);
    }
}

proof fn lemma_leftover_none(n: int)
    ensures
        leftover_lines(Map::<Seq<char>, Seq<char>>::empty(), n) == Seq::<Seq<char>>::empty(),
    decreases n,
{
    if n > 0 {
        lemma_leftover_none(n - 1);
        assert(leftover_lines(Map::<Seq<char>, Seq<char>>::empty(), n) =~= Seq::<
            Seq<char>,
        >::empty());
    }
}

/// With no overrides, merging only ends every line with a newline.
pub proof fn law_merge_without_overrides(contents: Seq<char>)
    ensures
        merged_lines(contents, Map::empty()) == lines(contents),
        merge_spec(contents, Map::empty()) == unlines(lines(contents)),
{
    let st0: MergeState = (Seq::empty(), 0, false, Map::empty());
    lemma_merge_lines_empty(st0, lines(contents));
    lemma_leftover_none(KEY_COUNT as int);
    let st = merge_lines(st0, lines(contents));
    assert(Seq::<Seq<char>>::empty() + lines(contents) =~= lines(contents));
    assert(st.0.take(st.1) + Seq::<Seq<char>>::empty() + st.0.skip(st.1) =~= st.0);
}

/// The unused overrides `rest` are overrides of `m`.
pub open spec fn unused_of(rest: Map<Seq<char>, Seq<char>>, m: Map<Seq<char>, Seq<char>>) -> bool {
    forall|k: Seq<char>| #[trigger] rest.contains_key(k) ==> m.contains_key(k) && rest[k] == m[k]
}

/// Every override of `m` is either still unused in the state or written as a line.
pub open spec fn merge_tracks(st: MergeState, m: Map<Seq<char>, Seq<char>>) -> bool {
    &&& 0 <= st.1 <= st.0.len()
    &&& unused_of(st.3, m)
    &&& forall|k: Seq<char>|
        #[trigger] m.contains_key(k) ==> st.3.contains_key(k) || st.0.contains(key_line(k, m[k]))
}

proof fn lemma_merge_line_tracks(st: MergeState, m: Map<Seq<char>, Seq<char>>, line: Seq<char>)
    requires
        merge_tracks(st, m),
    ensures
        merge_tracks(merge_line(st, line), m),
{
    let st2 = merge_line(st, line);
    let (out, at, in_entry, rest) = st;
    // the override, if any, that this line uses
    let mut used: Option<Seq<char>> = None;
    if !(line.len() > 0 && line[0] == '[') && in_entry {
        match split_once(line, '=') {
            Some((k, _)) => {
                if rest.contains_key(trim(k)) {
                    used = Some(trim(k));
                    assert(st2.0 == out.push(key_line(trim(k), rest[trim(k)])));
                    assert(st2.3 == rest.remove(trim(k)));
                }
            },
            None => {},
        }
    }
    if used is None {
        assert(st2.3 == rest);
    }
    assert(st2.0.len() == out.len() + 1);
    assert forall|j: int| 0 <= j < out.len() implies st2.0[j] == out[j] by {}
    assert forall|k: Seq<char>| #[trigger] m.contains_key(k) implies st2.3.contains_key(k)
        || st2.0.contains(key_line(k, m[k])) by {
        if out.contains(key_line(k, m[k])) {
            let j = choose|j: int| 0 <= j < out.len() && out[j] == key_line(k, m[k]);
            assert(st2.0[j] == out[j]);
        } else if used == Some(k) {
            assert(st2.0[out.len() as int] == key_line(k, m[k]));
        }
    }
}

proof fn lemma_merge_lines_tracks(st: MergeState, m: Map<Seq<char>, Seq<char>>, ls: Seq<Seq<char>>)
    requires
        merge_tracks(st, m),
    ensures
        merge_tracks(merge_lines(st, ls), m),
    decreases ls.len(),
{
    if ls.len() > 0 {
        lemma_merge_line_tracks(st, m, ls[0]);
        lemma_merge_lines_tracks(merge_line(st, ls[0]), m, ls.drop_first());
    }
}

proof fn lemma_leftover_has(rest: Map<Seq<char>, Seq<char>>, n: int, i: int)
    requires
        0 <= i < n,
        rest.contains_key(override_key(i)),
    ensures
        leftover_lines(rest, n).contains(key_line(override_key(i), rest[override_key(i)])),
    decreases n,
{
    let l = key_line(override_key(i), rest[override_key(i)]);
    if i == n - 1 {
        assert(leftover_lines(rest, n) == leftover_lines(rest, n - 1) + seq![l]);
        assert(leftover_lines(rest, n)[leftover_lines(rest, n - 1).len() as int] == l);
    } else {
        lemma_leftover_has(rest, n - 1, i);
        let prev = leftover_lines(rest, n - 1);
        let j = choose|j: int| 0 <= j < prev.len() && prev[j] == l;
        assert(leftover_lines(rest, n)[j] == l);
    }
}

/// Every override of an override key ends up in the merged entry as its own
/// `key=value` line.
pub proof fn law_merge_applies_overrides(
    contents: Seq<char>,
    m: Map<Seq<char>, Seq<char>>,
    k: Seq<char>,
)
    requires
        key_index(k) is Some,
        m.contains_key(k),
    ensures
        merged_lines(contents, m).contains(key_line(k, m[k])),
{
    let st0: MergeState = (Seq::empty(), 0, false, m);
    lemma_merge_lines_tracks(st0, m, lines(contents));
    let st = merge_lines(st0, lines(contents));
    let (out, at, _, rest) = st;
    let left = leftover_lines(rest, KEY_COUNT as int);
    let all = out.take(at) + left + out.skip(at);
    let l = key_line(k, m[k]);
    lemma_key_index_range(k, 0);
    let i = key_index(k)->0;
    if rest.contains_key(k) {
        lemma_leftover_has(rest, KEY_COUNT as int, i);
        let j = choose|j: int| 0 <= j < left.len() && left[j] == l;
        assert(all[at + j] == l);
    } else {
        let j = choose|j: int| 0 <= j < out.len() && out[j] == l;
        if j < at {
            assert(all[j] == l);
        } else {
            assert(all[left.len() + j] == l);
        }
    }
}

} // verus!

verus! {

/// A map whose values hold no newline.
pub open spec fn newline_free_map(m: Map<Seq<char>, Seq<char>>) -> bool {
    forall|k: Seq<char>| #[trigger] m.contains_key(k) ==> !has_char(m[k], '\n')
}

/// Edits persist: reading back a regenerated template gives exactly the overrides that
/// were already set, whatever the offered defaults are, when the existing overrides set
/// only override keys to clean values (as every parsed map does) and no default holds a
/// newline.
pub proof fn law_template_keeps_overrides(
    defaults: Map<Seq<char>, Seq<char>>,
    existing: Map<Seq<char>, Seq<char>>,
)
    requires
        newline_free_map(defaults),
        clean_overrides(existing),
    ensures
        parse_spec(template_spec(defaults, existing)) == existing,
{
    lemma_keys();
    let d = slots_of(defaults);
    let e = slots_of(existing);
    assert forall|i: int| 0 <= i < KEY_COUNT implies (#[trigger] d[i] matches Some(v) ==> !has_char(
        v,
        '\n',
    )) by {
        assert(map_get(defaults, override_key(i)) == d[i]);
    }
    assert forall|i: int| 0 <= i < KEY_COUNT implies (#[trigger] e[i] matches Some(v)
        ==> clean_value(v)) by {
        assert(map_get(existing, override_key(i)) == e[i]);
    }
    lemma_template_keeps_slots(d, e);
    lemma_map_of_slots(existing);
}

/// Regenerating is stable: a template built from the overrides read back from a template
/// is that same template, so opening the editor again without changes rewrites the same
/// override file.
pub proof fn law_template_regeneration_stable(
    defaults: Map<Seq<char>, Seq<char>>,
    existing: Map<Seq<char>, Seq<char>>,
)
    requires
        newline_free_map(defaults),
        clean_overrides(existing),
    ensures
        template_spec(defaults, parse_spec(template_spec(defaults, existing))) == template_spec(
            defaults,
            existing,
        ),
{
    law_template_keeps_overrides(defaults, existing);
}

} // verus!

verus! {

/// What one line of an override file sets: the key's position and the trimmed value,
/// when the trimmed line is not blank, not a `#` comment, holds `=`, and its trimmed key
/// is an override key.
pub open spec fn line_setting(line: Seq<char>) -> Option<(int, Seq<char>)> {
    let t = trim(line);
    if t.len() == 0 || t[0] == '#' {
        None
    } else {
        match split_once(t, '=') {
            None => None,
            Some((k, v)) => match key_index(trim(k)) {
                Some(i) => Some((i, trim(v))),
                None => None,
            },
        }
    }
}

/// The value that the last line of `ls` setting key `j` gives it, if any line does.
pub open spec fn last_setting(ls: Seq<Seq<char>>, j: int) -> Option<Seq<char>>
    decreases ls.len(),
{
    if ls.len() == 0 {
        None
    } else {
        match line_setting(ls.last()) {
            Some((i, v)) if i == j => Some(v),
            _ => last_setting(ls.drop_last(), j),
        }
    }
}

proof fn lemma_parse_lines_last(m: Slots, ls: Seq<Seq<char>>, j: int)
    requires
        m.len() == KEY_COUNT,
        0 <= j < KEY_COUNT,
    ensures
        parse_lines(m, ls).len() == KEY_COUNT,
        parse_lines(m, ls)[j] == match last_setting(ls, j) {
            Some(v) => Some(v),
            None => m[j],
        },
    decreases ls.len(),
{
    if ls.len() > 0 {
        let init = ls.drop_last();
        let l = ls.last();
        lemma_parse_lines_last(m, init, j);
        assert(ls =~= init + seq![l]);
        lemma_parse_lines_append(m, init, seq![l]);
        let p = parse_lines(m, init);
        assert(seq![l].drop_first() =~= Seq::<Seq<char>>::empty());
        assert(seq![l][0] == l);
        reveal_with_fuel(parse_lines, 2);
        assert(parse_lines(p, seq![l]) == parse_line(p, l));
        let t = trim(l);
        if t.len() > 0 && t[0] != '#' {
            match split_once(t, '=') {
                Some((k, v)) => {
                    lemma_key_index_range(trim(k), 0);
                },
                None => {},
            }
        }
    }
}

/// The last line wins: each override key of the map read from an override file holds
/// the trimmed value of the last line that sets it, and is unset when no line does; no
/// other key is set.
pub proof fn law_parse_last_line_wins(contents: Seq<char>, k: Seq<char>)
    ensures
        map_get(parse_spec(contents), k) == match key_index(k) {
            Some(j) => last_setting(lines(contents), j),
            None => None,
        },
{
    lemma_key_index_range(k, 0);
    if let Some(j) = key_index(k) {
        lemma_parse_lines_last(empty_slots(), lines(contents), j);
    }
}

} // verus!

verus! {

/// A line that merging may replace: not a section header, and of the form `key=...`
/// with a trimmed key that `m` sets.
pub open spec fn replaceable(line: Seq<char>, m: Map<Seq<char>, Seq<char>>) -> bool {
    &&& !(line.len() > 0 && line[0] == '[')
    &&& split_once(line, '=') matches Some((k, _)) && m.contains_key(trim(k))
}

/// The line that replaces a replaceable `line`: its trimmed key, `=`, and the override.
pub open spec fn replacement(line: Seq<char>, m: Map<Seq<char>, Seq<char>>) -> Seq<char> {
    match split_once(line, '=') {
        Some((k, _)) => key_line(trim(k), m[trim(k)]),
        None => line,
    }
}

/// The state of the merge before line `i` of `ls`.
pub open spec fn merge_state_at(m: Map<Seq<char>, Seq<char>>, ls: Seq<Seq<char>>, i: int) -> MergeState {
    merge_lines((Seq::empty(), 0, false, m), ls.take(i))
}

proof fn lemma_merge_lines_append(st: MergeState, a: Seq<Seq<char>>, b: Seq<Seq<char>>)
    ensures
        merge_lines(st, a + b) == merge_lines(merge_lines(st, a), b),
    decreases a.len(),
{
    if a.len() > 0 {
        lemma_merge_lines_append(merge_line(st, a[0]), a.drop_first(), b);
        assert((a + b).drop_first() =~= a.drop_first() + b);
        assert((a + b)[0] == a[0]);
    } else {
        assert(a + b =~= b);
    }
}

/// What the merge has written after the first `n` lines.
pub open spec fn merge_prefix_ok(m: Map<Seq<char>, Seq<char>>, ls: Seq<Seq<char>>, n: int) -> bool {
    let st = merge_state_at(m, ls, n);
    &&& st.0.len() == n
    &&& 0 <= st.1 <= n
    &&& unused_of(st.3, m)
    &&& forall|i: int|
        0 <= i < n ==> {
            ||| #[trigger] st.0[i] == ls[i]
            ||| st.0[i] == replacement(ls[i], m) && replaceable(ls[i], m) && merge_state_at(
                m,
                ls,
                i,
            ).2
        }
    &&& forall|i: int| 0 <= i < n && !replaceable(ls[i], m) ==> #[trigger] st.0[i] == ls[i]
}

proof fn lemma_merge_prefix(m: Map<Seq<char>, Seq<char>>, ls: Seq<Seq<char>>, n: int)
    requires
        0 <= n <= ls.len(),
    ensures
        merge_prefix_ok(m, ls, n),
    decreases n,
{
    if n == 0 {
        assert(ls.take(0) =~= Seq::<Seq<char>>::empty());
    } else {
        lemma_merge_prefix(m, ls, n - 1);
        let st = merge_state_at(m, ls, n - 1);
        let l = ls[n - 1];
        assert(ls.take(n) =~= ls.take(n - 1) + seq![l]);
        lemma_merge_lines_append((Seq::empty(), 0, false, m), ls.take(n - 1), seq![l]);
        reveal_with_fuel(merge_lines, 2);
        assert(seq![l].drop_first() =~= Seq::<Seq<char>>::empty());
        assert(seq![l][0] == l);
        let st2 = merge_line(st, l);
        assert(merge_state_at(m, ls, n) == st2);
        assert(st2.0.len() == n);
        assert forall|i: int| 0 <= i < n - 1 implies st2.0[i] == st.0[i] by {}
        let x = st2.0[n - 1];
        assert(x == l || (x == replacement(l, m) && replaceable(l, m) && st.2));
        assert forall|k: Seq<char>| #[trigger] st2.3.contains_key(k) implies m.contains_key(k)
            && st2.3[k] == m[k] by {
            assert(st.3.contains_key(k));
        }
        assert forall|i: int| 0 <= i < n implies {
            ||| #[trigger] st2.0[i] == ls[i]
            ||| st2.0[i] == replacement(ls[i], m) && replaceable(ls[i], m) && merge_state_at(
                m,
                ls,
                i,
            ).2
        } by {
            if i < n - 1 {
                assert(st2.0[i] == st.0[i]);
            }
        }
        assert forall|i: int| 0 <= i < n && !replaceable(ls[i], m) implies #[trigger] st2.0[i]
            == ls[i] by {
            if i < n - 1 {
                assert(st2.0[i] == st.0[i]);
            }
        }
    }
}

/// `l` is the `key=value` line of the override of one of the override keys in `m`.
pub open spec fn override_line(l: Seq<char>, m: Map<Seq<char>, Seq<char>>) -> bool {
    exists|j: int|
        #![trigger override_key(j)]
        0 <= j < KEY_COUNT && m.contains_key(override_key(j)) && l == key_line(
            override_key(j),
            m[override_key(j)],
        )
}

proof fn lemma_leftover_from_overrides(
    rest: Map<Seq<char>, Seq<char>>,
    m: Map<Seq<char>, Seq<char>>,
    n: int,
)
    requires
        0 <= n <= KEY_COUNT,
        unused_of(rest, m),
    ensures
        forall|k: int|
            0 <= k < leftover_lines(rest, n).len() ==> override_line(
                #[trigger] leftover_lines(rest, n)[k],
                m,
            ),
    decreases n,
{
    if n > 0 {
        lemma_leftover_from_overrides(rest, m, n - 1);
        let prev = leftover_lines(rest, n - 1);
        let cur = leftover_lines(rest, n);
        let key = override_key(n - 1);
        assert forall|k: int| 0 <= k < cur.len() implies override_line(#[trigger] cur[k], m) by {
            if k < prev.len() {
                assert(cur[k] == prev[k]);
            } else if rest.contains_key(key) {
                assert(cur == prev + seq![key_line(key, rest[key])]);
                assert(cur[k] == key_line(key, rest[key]));
                assert(m.contains_key(key) && m[key] == rest[key]);
                assert(0 <= n - 1 < KEY_COUNT && m.contains_key(override_key(n - 1)) && cur[k]
                    == key_line(override_key(n - 1), m[override_key(n - 1)]));
            } else {
                assert(cur =~= prev);
            }
        }
    }
}

/// Merging keeps the entry's lines in order: the merged lines are the input lines, one
/// for one, with the new keys inserted after the last `[Desktop Entry]` header (at the top
/// when there is none). Every line that is a section header, has no `=`, or whose trimmed
/// key `m` does not set is kept verbatim; a line that changes lies in a `[Desktop Entry]`
/// section and becomes its trimmed key, `=`, and the override; every inserted line is
/// `key=value` for an override of an override key in `m`.
pub proof fn law_merge_keeps_lines(contents: Seq<char>, m: Map<Seq<char>, Seq<char>>)
    ensures
        ({
            let ls = lines(contents);
            let st = merge_state_at(m, ls, ls.len() as int);
            let left = leftover_lines(st.3, KEY_COUNT as int);
            &&& st.0.len() == ls.len()
            &&& 0 <= st.1 <= ls.len()
            &&& merged_lines(contents, m) == st.0.take(st.1) + left + st.0.skip(st.1)
            &&& forall|i: int|
                0 <= i < ls.len() && !replaceable(ls[i], m) ==> #[trigger] st.0[i] == ls[i]
            &&& forall|i: int|
                0 <= i < ls.len() ==> #[trigger] st.0[i] == ls[i] || st.0[i] == replacement(
                    ls[i],
                    m,
                ) && merge_state_at(m, ls, i).2
            &&& forall|k: int| 0 <= k < left.len() ==> override_line(#[trigger] left[k], m)
        }),
{
    let ls = lines(contents);
    lemma_merge_prefix(m, ls, ls.len() as int);
    assert(ls.take(ls.len() as int) =~= ls);
    let st = merge_state_at(m, ls, ls.len() as int);
    lemma_leftover_from_overrides(st.3, m, KEY_COUNT as int);
}

} // verus!

verus! {

/// A section header line.
pub open spec fn is_header(line: Seq<char>) -> bool {
    line.len() > 0 && line[0] == '['
}

/// The trimmed key of a `key=...` line.
pub open spec fn line_key_of(line: Seq<char>) -> Option<Seq<char>> {
    match split_once(line, '=') {
        Some((k, _)) => Some(trim(k)),
        None => None,
    }
}

/// Line `i` of `ls` lies in a `[Desktop Entry]` section: the last header before it is
/// that entry's.
pub open spec fn in_entry_at(ls: Seq<Seq<char>>, i: int) -> bool
    decreases i,
{
    if i <= 0 {
        false
    } else if is_header(ls[i - 1]) {
        trim(ls[i - 1]) == entry_header()
    } else {
        in_entry_at(ls, i - 1)
    }
}

/// The index after the last `[Desktop Entry]` header among the first `n` lines, 0 when
/// there is none.
pub open spec fn entry_pos(ls: Seq<Seq<char>>, n: int) -> int
    decreases n,
{
    if n <= 0 {
        0
    } else if is_header(ls[n - 1]) && trim(ls[n - 1]) == entry_header() {
        n
    } else {
        entry_pos(ls, n - 1)
    }
}

/// Line `i` is a line of a `[Desktop Entry]` section that sets key `k`.
pub open spec fn sets_key_at(ls: Seq<Seq<char>>, i: int, k: Seq<char>) -> bool {
    !is_header(ls[i]) && in_entry_at(ls, i) && line_key_of(ls[i]) == Some(k)
}

/// Line `i` is the first entry line that sets its key.
pub open spec fn first_setting(ls: Seq<Seq<char>>, i: int) -> bool {
    line_key_of(ls[i]) matches Some(k) && sets_key_at(ls, i, k) && forall|j: int|
        0 <= j < i ==> !#[trigger] sets_key_at(ls, j, k)
}

/// Line `i` as merging writes it: the first entry line that sets a key of `m` becomes
/// `key=value`; every other line is kept.
pub open spec fn merged_line_at(m: Map<Seq<char>, Seq<char>>, ls: Seq<Seq<char>>, i: int) -> Seq<
    char,
> {
    if first_setting(ls, i) && m.contains_key(line_key_of(ls[i])->0) {
        key_line(line_key_of(ls[i])->0, m[line_key_of(ls[i])->0])
    } else {
        ls[i]
    }
}

/// The overrides of `m` whose key no entry line among the first `n` sets.
pub open spec fn unset_overrides(m: Map<Seq<char>, Seq<char>>, ls: Seq<Seq<char>>, n: int) -> Map<
    Seq<char>,
    Seq<char>,
> {
    Map::new(
        |k: Seq<char>| m.contains_key(k) && forall|j: int| 0 <= j < n ==> !#[trigger] sets_key_at(ls, j, k),
        |k: Seq<char>| m[k],
    )
}

/// The merge state after `n` lines, in closed form.
pub open spec fn merge_exact(m: Map<Seq<char>, Seq<char>>, ls: Seq<Seq<char>>, n: int) -> bool {
    let st = merge_state_at(m, ls, n);
    &&& st.0 == Seq::new(n as nat, |i: int| merged_line_at(m, ls, i))
    &&& st.1 == entry_pos(ls, n)
    &&& st.2 == in_entry_at(ls, n)
    &&& st.3 == unset_overrides(m, ls, n)
}

proof fn lemma_merge_exact(m: Map<Seq<char>, Seq<char>>, ls: Seq<Seq<char>>, n: int)
    requires
        0 <= n <= ls.len(),
    ensures
        merge_exact(m, ls, n),
    decreases n,
{
    if n == 0 {
        assert(ls.take(0) =~= Seq::<Seq<char>>::empty());
        assert(Seq::new(0, |i: int| merged_line_at(m, ls, i)) =~= Seq::<Seq<char>>::empty());
        assert(unset_overrides(m, ls, 0) =~= m);
    } else {
        lemma_merge_exact(m, ls, n - 1);
        let st = merge_state_at(m, ls, n - 1);
        let l = ls[n - 1];
        assert(ls.take(n) =~= ls.take(n - 1) + seq![l]);
        lemma_merge_lines_append((Seq::empty(), 0, false, m), ls.take(n - 1), seq![l]);
        reveal_with_fuel(merge_lines, 2);
        assert(seq![l].drop_first() =~= Seq::<Seq<char>>::empty());
        assert(seq![l][0] == l);
        let st2 = merge_line(st, l);
        assert(merge_state_at(m, ls, n) == st2);
        let u = unset_overrides(m, ls, n - 1);
        let u2 = unset_overrides(m, ls, n);
        // the overrides still unset after this line
        assert forall|k: Seq<char>| u2.contains_key(k) == (u.contains_key(k) && !sets_key_at(
            ls,
            n - 1,
            k,
        )) by {
            if u.contains_key(k) && !sets_key_at(ls, n - 1, k) {
                assert forall|j: int| 0 <= j < n implies !#[trigger] sets_key_at(ls, j, k) by {
                    if j < n - 1 {
                        assert(!sets_key_at(ls, j, k));
                    }
                }
            }
        }
        match line_key_of(l) {
            Some(key) => {
                if !is_header(l) && in_entry_at(ls, n - 1) {
                    assert(sets_key_at(ls, n - 1, key));
                    assert forall|k: Seq<char>| k != key implies !#[trigger] sets_key_at(
                        ls,
                        n - 1,
                        k,
                    ) by {}
                    if m.contains_key(key) {
                        assert(first_setting(ls, n - 1) == u.contains_key(key));
                    }
                    assert(st2.3 =~= u2);
                } else {
                    assert forall|k: Seq<char>| !#[trigger] sets_key_at(ls, n - 1, k) by {}
                    assert(st2.3 =~= u2);
                }
            },
            None => {
                assert forall|k: Seq<char>| !#[trigger] sets_key_at(ls, n - 1, k) by {}
                assert(st2.3 =~= u2);
            },
        }
        assert(st2.0 =~= Seq::new(n as nat, |i: int| merged_line_at(m, ls, i)));
    }
}

/// Merging in closed form: every line of the entry is kept, except that the first line
/// of a `[Desktop Entry]` section setting a key of `m` is replaced by that key, `=`, and
/// the override (later lines with the same key are kept); the overrides of override keys
/// that no such line sets follow the last `[Desktop Entry]` header (the top when there is
/// none), in key order; other keys that no line sets are dropped.
pub proof fn law_merge_closed_form(contents: Seq<char>, m: Map<Seq<char>, Seq<char>>)
    ensures
        ({
            let ls = lines(contents);
            let n = ls.len() as int;
            let out = Seq::new(ls.len(), |i: int| merged_line_at(m, ls, i));
            let at = entry_pos(ls, n);
            merged_lines(contents, m) == out.take(at) + leftover_lines(
                unset_overrides(m, ls, n),
                KEY_COUNT as int,
            ) + out.skip(at)
        }),
{
    let ls = lines(contents);
    lemma_merge_exact(m, ls, ls.len() as int);
    assert(ls.take(ls.len() as int) =~= ls);
}

} // verus!
