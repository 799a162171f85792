//! The main server's registry of chat names.
//!
//! Every name in use is held once. A name that is already taken is given a numbered
//! variant (`anna` becomes `anna_2`, then `anna_3`, ...); the counter of each taken name
//! is kept even after its holders leave, so that a numbered name is not handed out twice.

use vstd::prelude::*;
use vstd::string::*;
use vstd::utf8::*;

use crate::text::{decimal, decimal_bytes};

verus! {

pub const USERS_MSG: &'static str = "Users currently online: ";

/// The registry of chat names.
pub struct Names {
    unique: Vec<String>,
    duplicates: Vec<(String, usize)>,
    last_fixed: Option<String>,
}

/// The registry as mathematics: the names in use (in the order they came), the counter
/// of each name that has collided, and the name given to the last collision not yet
/// taken.
pub struct NamesView {
    pub unique: Seq<Seq<char>>,
    pub duplicates: Map<Seq<char>, usize>,
    pub last_fixed: Option<Seq<char>>,
}

/// The counters held in a list of (name, counter) pairs; a later pair wins.
pub open spec fn dups_map(d: Seq<(String, usize)>) -> Map<Seq<char>, usize>
    decreases d.len(),
{
    if d.len() == 0 {
        Map::empty()
    } else {
        dups_map(d.drop_last()).insert(d.last().0@, d.last().1)
    }
}

/// No name is held twice in a list of (name, counter) pairs.
pub open spec fn distinct_keys(d: Seq<(String, usize)>) -> bool {
    forall|i: int, j: int| 0 <= i < j < d.len() ==> #[trigger] d[i].0@ != #[trigger] d[j].0@
}

/// The characters of each string.
pub open spec fn strings_view(v: Seq<String>) -> Seq<Seq<char>> {
    v.map_values(|s: String| s@)
}

/// `s` with every trailing `c` removed.
pub open spec fn trim_end(s: Seq<char>, c: char) -> Seq<char>
    decreases s.len(),
{
    if s.len() > 0 && s.last() == c {
        trim_end(s.drop_last(), c)
    } else {
        s
    }
}

/// The characters of ASCII digit bytes.
pub open spec fn ascii_chars(b: Seq<u8>) -> Seq<char> {
    b.map_values(|x: u8| x as char)
}

/// The numbered variant of a taken name: `name_n`.
pub open spec fn numbered(name: Seq<char>, n: nat) -> Seq<char> {
    name + seq!['_'] + ascii_chars(decimal(n))
}

/// What a name is registered as: without its trailing underscores.
pub open spec fn registered_form(name: Seq<char>) -> Seq<char> {
    if name.len() > 0 && name.last() == '_' {
        trim_end(name, '_')
    } else {
        name
    }
}

/// The counter a collision of `key` moves to: 2 the first time, one more after that.
pub open spec fn next_count(d: Map<Seq<char>, usize>, key: Seq<char>) -> nat {
    if d.contains_key(key) {
        (d[key] + 1) as nat
    } else {
        2
    }
}

/// The name a collision of `key` is given: `key_n`, or, when that is taken too,
/// `key_n!*#$`.
pub open spec fn collision_name(v: NamesView, key: Seq<char>) -> Seq<char> {
    let first = numbered(key, next_count(v.duplicates, key));
    if v.unique.contains(first) {
        first + "!*#$"@
    } else {
        first
    }
}

/// Inserting a name: the registry after it, and whether the name was new.
pub open spec fn insert_spec(v: NamesView, name: Seq<char>) -> (NamesView, bool) {
    let key = registered_form(name);
    if !v.unique.contains(key) {
        (NamesView { unique: v.unique.push(key), ..v }, true)
    } else {
        let fixed = collision_name(v, key);
        (
            NamesView {
                unique: if v.unique.contains(fixed) { v.unique } else { v.unique.push(fixed) },
                duplicates: v.duplicates.insert(key, next_count(v.duplicates, key) as usize),
                last_fixed: Some(fixed),
            },
            false,
        )
    }
}

/// Removing a name: the registry after it, and whether the name was in use.
pub open spec fn remove_spec(v: NamesView, name: Seq<char>) -> (NamesView, bool) {
    if v.unique.contains(name) {
        (NamesView { unique: v.unique.remove(v.unique.index_of(name)), ..v }, true)
    } else {
        (v, false)
    }
}

/// The list of users online: the header, then each name followed by a space.
pub open spec fn users_list(u: Seq<Seq<char>>) -> Seq<u8>
    decreases u.len(),
{
    if u.len() == 0 {
        Seq::empty()
    } else {
        users_list(u.drop_last()) + encode_utf8(u.last()) + seq![32u8]
    }
}

impl View for Names {
    type V = NamesView;

    closed spec fn view(&self) -> NamesView {
        NamesView {
            unique: strings_view(self.unique@),
            duplicates: dups_map(self.duplicates@),
            last_fixed: match self.last_fixed {
                Some(s) => Some(s@),
                None => None,
            },
        }
    }
}

impl Names {
    /// The registry is well formed: no name is held twice, and no name's counter twice.
    pub closed spec fn wf(&self) -> bool {
        &&& strings_view(self.unique@).no_duplicates()
        &&& distinct_keys(self.duplicates@)
    }
}

// ---------------------------------------------------------------------------
// Facts about the counter list
// ---------------------------------------------------------------------------

/// The counter list holds each of its names, with that name's counter.
proof fn lemma_dups_map_lookup(d: Seq<(String, usize)>, i: int)
    requires
        distinct_keys(d),
        0 <= i < d.len(),
    ensures
        dups_map(d).contains_key(d[i].0@),
        dups_map(d)[d[i].0@] == d[i].1,
    decreases d.len(),
{
    if i < d.len() - 1 {
        let dl = d.drop_last();
        assert(distinct_keys(dl)) by {
            assert forall|a: int, b: int| 0 <= a < b < dl.len() implies #[trigger] dl[a].0@ != #[trigger] dl[b].0@ by {
                assert(dl[a] == d[a] && dl[b] == d[b]);
            }
        }
        assert(dl[i] == d[i]);
        lemma_dups_map_lookup(dl, i);
        assert(d[i].0@ != d[d.len() - 1].0@);
    }
}

/// A name not in the counter list has no counter.
proof fn lemma_dups_map_absent(d: Seq<(String, usize)>, k: Seq<char>)
    requires
        forall|i: int| 0 <= i < d.len() ==> (#[trigger] d[i]).0@ != k,
    ensures
        !dups_map(d).contains_key(k),
    decreases d.len(),
{
    if d.len() > 0 {
        let dl = d.drop_last();
        assert forall|i: int| 0 <= i < dl.len() implies (#[trigger] dl[i]).0@ != k by {
            assert(dl[i] == d[i]);
        }
        lemma_dups_map_absent(dl, k);
        assert(d.last() == d[d.len() - 1]);
    }
}

/// Changing the counter of the `i`-th name changes only that name's counter.
proof fn lemma_dups_map_update(d: Seq<(String, usize)>, i: int, v: usize)
    requires
        distinct_keys(d),
        0 <= i < d.len(),
    ensures
        dups_map(d.update(i, (d[i].0, v))) == dups_map(d).insert(d[i].0@, v),
        distinct_keys(d.update(i, (d[i].0, v))),
    decreases d.len(),
{
    let du = d.update(i, (d[i].0, v));
    assert(distinct_keys(du)) by {
        assert forall|a: int, b: int| 0 <= a < b < du.len() implies #[trigger] du[a].0@ != #[trigger] du[b].0@ by {
            assert(du[a].0 == d[a].0 && du[b].0 == d[b].0);
        }
    }
    let dl = d.drop_last();
    assert(distinct_keys(dl)) by {
        assert forall|a: int, b: int| 0 <= a < b < dl.len() implies #[trigger] dl[a].0@ != #[trigger] dl[b].0@ by {
            assert(dl[a] == d[a] && dl[b] == d[b]);
        }
    }
    if i == d.len() - 1 {
        assert(du.drop_last() =~= dl);
        assert(dups_map(du) =~= dups_map(d).insert(d[i].0@, v));
    } else {
        assert(du.drop_last() =~= dl.update(i, (dl[i].0, v)));
        lemma_dups_map_update(dl, i, v);
        assert(d[i].0@ != d.last().0@) by {
            assert(d.last() == d[d.len() - 1]);
        }
        assert(dups_map(du) =~= dups_map(d).insert(d[i].0@, v));
    }
}

// ---------------------------------------------------------------------------
// Text pieces
// ---------------------------------------------------------------------------

/// Appends one ASCII digit.
fn append_digit(s: &mut String, d: u8)
    requires
        48 <= d <= 57,
    ensures
        final(s)@ == old(s)@.push(d as char),
{
    proof {
        reveal_strlit("0");
        reveal_strlit("1");
        reveal_strlit("2");
        reveal_strlit("3");
        reveal_strlit("4");
        reveal_strlit("5");
        reveal_strlit("6");
        reveal_strlit("7");
        reveal_strlit("8");
        reveal_strlit("9");
    }
    if d == 48 {
        s.append("0");
    } else if d == 49 {
        s.append("1");
    } else if d == 50 {
        s.append("2");
    } else if d == 51 {
        s.append("3");
    } else if d == 52 {
        s.append("4");
    } else if d == 53 {
        s.append("5");
    } else if d == 54 {
        s.append("6");
    } else if d == 55 {
        s.append("7");
    } else if d == 56 {
        s.append("8");
    } else {
        s.append("9");
    }
    assert(final(s)@ =~= old(s)@.push(d as char));
}

/// The decimal digits are ASCII digits.
proof fn lemma_decimal_digits(n: nat)
    ensures
        forall|i: int| 0 <= i < decimal(n).len() ==> 48 <= #[trigger] decimal(n)[i] <= 57,
    decreases n,
{
    if n >= 10 {
        lemma_decimal_digits(n / 10);
        assert forall|i: int| 0 <= i < decimal(n).len() implies 48 <= #[trigger] decimal(n)[i] <= 57 by {
            if i < decimal(n / 10).len() {
                assert(decimal(n)[i] == decimal(n / 10)[i]);
            }
        }
    }
}

/// Appends a number in decimal.
fn append_decimal(s: &mut String, n: u64)
    ensures
        final(s)@ == old(s)@ + ascii_chars(decimal(n as nat)),
{
    let digits = decimal_bytes(n);
    proof {
        lemma_decimal_digits(n as nat);
    }
    let mut i: usize = 0;
    while i < digits.len()
        invariant
            i <= digits@.len(),
            digits@ == decimal(n as nat),
            forall|j: int| 0 <= j < digits@.len() ==> 48 <= #[trigger] digits@[j] <= 57,
            s@ == old(s)@ + ascii_chars(digits@.take(i as int)),
        decreases digits@.len() - i,
    {
        append_digit(s, digits[i]);
        assert(ascii_chars(digits@.take(i as int + 1)) =~= ascii_chars(digits@.take(i as int)).push(
            digits@[i as int] as char,
        ));
        i = i + 1;
    }
    assert(digits@.take(i as int) =~= digits@);
}

/// The name without its trailing underscores.
fn trim_underscores(name: &String) -> (out: String)
    ensures
        out@ == trim_end(name@, '_'),
{
    let text = name.as_str();
    let mut k = text.unicode_len();
    assert(name@.take(k as int) =~= name@);
    while k > 0 && text.get_char(k - 1) == '_'
        invariant
            k <= name@.len(),
            text@ == name@,
            trim_end(name@, '_') == trim_end(name@.take(k as int), '_'),
        decreases k,
    {
        assert(name@.take(k as int).drop_last() =~= name@.take(k - 1));
        k = k - 1;
    }
    text.substring_char(0, k).to_owned()
}

// ---------------------------------------------------------------------------
// The registry
// ---------------------------------------------------------------------------

impl Names {
    /// An empty registry.
    pub fn new() -> (n: Names)
        ensures
            n.wf(),
            n@.unique == Seq::<Seq<char>>::empty(),
            n@.duplicates == Map::<Seq<char>, usize>::empty(),
            n@.last_fixed is None,
    {
        let n = Names { unique: Vec::new(), duplicates: Vec::new(), last_fixed: None };
        assert(strings_view(n.unique@) =~= Seq::<Seq<char>>::empty());
        n
    }

    /// Where `name` stands among the names in use.
    fn position(&self, name: &String) -> (pos: Option<usize>)
        ensures
            match pos {
                Some(i) => i < self@.unique.len() && self@.unique[i as int] == name@,
                None => !self@.unique.contains(name@),
            },
    {
        let mut i: usize = 0;
        while i < self.unique.len()
            invariant
                i <= self.unique@.len(),
                forall|j: int| 0 <= j < i ==> (#[trigger] self.unique@[j])@ != name@,
            decreases self.unique@.len() - i,
        {
            if self.unique[i] == *name {
                return Some(i);
            }
            i = i + 1;
        }
        proof {
            if strings_view(self.unique@).contains(name@) {
                let j = choose|j: int| 0 <= j < strings_view(self.unique@).len() && strings_view(self.unique@)[j] == name@;
                assert(self.unique@[j]@ == name@);
            }
        }
        None
    }

    /// Where `key` stands in the counter list.
    fn dup_position(&self, key: &String) -> (pos: Option<usize>)
        ensures
            match pos {
                Some(i) => i < self.duplicates@.len() && self.duplicates@[i as int].0@ == key@,
                None => forall|j: int| 0 <= j < self.duplicates@.len() ==> (#[trigger] self.duplicates@[j]).0@ != key@,
            },
    {
        let mut i: usize = 0;
        while i < self.duplicates.len()
            invariant
                i <= self.duplicates@.len(),
                forall|j: int| 0 <= j < i ==> (#[trigger] self.duplicates@[j]).0@ != key@,
            decreases self.duplicates@.len() - i,
        {
            if self.duplicates[i].0 == *key {
                return Some(i);
            }
            i = i + 1;
        }
        None
    }

    /// Whether `name` is in use.
    pub fn contains(&self, name: &String) -> (b: bool)
        ensures
            b == self@.unique.contains(name@),
    {
        self.position(name).is_some()
    }

    /// Whether `name` can be inserted: the counter of its registered form is not at its
    /// largest value.
    pub fn can_insert(&self, name: &String) -> (ok: bool)
        requires
            self.wf(),
        ensures
            ok == !(self@.duplicates.contains_key(registered_form(name@))
                && self@.duplicates[registered_form(name@)] == usize::MAX),
    {
        let n = name.as_str().unicode_len();
        let key = if n > 0 && name.as_str().get_char(n - 1) == '_' {
            trim_underscores(name)
        } else {
            name.clone()
        };
        match self.dup_position(&key) {
            Some(i) => {
                proof {
                    lemma_dups_map_lookup(self.duplicates@, i as int);
                }
                self.duplicates[i].1 != usize::MAX
            },
            None => {
                proof {
                    lemma_dups_map_absent(self.duplicates@, key@);
                }
                true
            },
        }
    }

    /// Adds `name` to the names in use, as `insert_spec` says; `true` when the name (without
    /// trailing underscores) was new. A name already taken is registered as a numbered
    /// variant, which [`Names::last_collision`] then hands out.
    pub fn insert(&mut self, name: String) -> (new: bool)
        requires
            old(self).wf(),
            !(old(self)@.duplicates.contains_key(registered_form(name@))
                && old(self)@.duplicates[registered_form(name@)] == usize::MAX),
        ensures
            final(self).wf(),
            (final(self)@, new) == insert_spec(old(self)@, name@),
    {
        let ghost v = self@;
        let ghost given = name@;
        let mut name = name;
        let n = name.as_str().unicode_len();
        if n > 0 && name.as_str().get_char(n - 1) == '_' {
            name = trim_underscores(&name);
        }
        assert(name@ == registered_form(given));
        match self.position(&name) {
            None => {
                let ghost before = self.unique@;
                self.unique.push(name);
                proof {
                    assert(strings_view(self.unique@) =~= strings_view(before).push(
                        registered_form(given),
                    ));
                    assert(self@ =~= insert_spec(v, given).0);
                }
                true
            },
            Some(_) => {
                let ghost key = name@;
                let value: usize = match self.dup_position(&name) {
                    Some(i) => {
                        proof {
                            lemma_dups_map_lookup(self.duplicates@, i as int);
                        }
                        let v1 = self.duplicates[i].1 + 1;
                        let k = self.duplicates[i].0.clone();
                        let ghost before = self.duplicates@;
                        self.duplicates.set(i, (k, v1));
                        proof {
                            assert(self.duplicates@ == before.update(i as int, (before[i as int].0, v1)));
                            lemma_dups_map_update(before, i as int, v1);
                        }
                        v1
                    },
                    None => {
                        proof {
                            lemma_dups_map_absent(self.duplicates@, key);
                        }
                        let ghost before = self.duplicates@;
                        self.duplicates.push((name.clone(), 2));
                        proof {
                            assert(self.duplicates@.drop_last() =~= before);
                            assert(distinct_keys(self.duplicates@)) by {
                                assert forall|a: int, b: int|
                                    0 <= a < b < self.duplicates@.len() implies #[trigger] self.duplicates@[a].0@
                                    != #[trigger] self.duplicates@[b].0@ by {
                                    if b == self.duplicates@.len() - 1 {
                                        assert(self.duplicates@[a] == before[a]);
                                    } else {
                                        assert(self.duplicates@[a] == before[a]);
                                        assert(self.duplicates@[b] == before[b]);
                                    }
                                }
                            }
                        }
                        2
                    },
                };
                assert(value == next_count(v.duplicates, key));
                name.append("_");
                proof {
                    reveal_strlit("_");
                }
                append_decimal(&mut name, value as u64);
                assert(name@ =~= numbered(key, next_count(v.duplicates, key)));
                let ghost first = name@;
                match self.position(&name) {
                    None => {
                        let ghost before = self.unique@;
                        self.unique.push(name.clone());
                        proof {
                            assert(strings_view(self.unique@) =~= strings_view(before).push(first));
                        }
                    },
                    Some(_) => {
                        name.append("!*#$");
                        match self.position(&name) {
                            None => {
                                let ghost before = self.unique@;
                                self.unique.push(name.clone());
                                proof {
                                    assert(strings_view(self.unique@) =~= strings_view(before).push(name@));
                                }
                            },
                            Some(_) => {},
                        }
                    },
                }
                self.last_fixed = Some(name);
                proof {
                    assert(self@.unique =~= insert_spec(v, given).0.unique);
                    assert(self@.duplicates =~= insert_spec(v, given).0.duplicates);
                }
                false
            },
        }
    }

    /// Hands out the name given to the last collision, once: afterwards there is none.
    pub fn last_collision(&mut self) -> (fixed: Option<String>)
        requires
            old(self).wf(),
        ensures
            final(self).wf(),
            match fixed {
                Some(f) => old(self)@.last_fixed == Some(f@),
                None => old(self)@.last_fixed is None,
            },
            final(self)@ == (NamesView { last_fixed: None, ..old(self)@ }),
    {
        let fixed = self.last_fixed.take();
        proof {
            assert(self@.unique =~= old(self)@.unique);
        }
        fixed
    }

    /// Takes `name` out of the names in use; `true` when it was in use. Its counter, if
    /// any, is kept.
    pub fn remove(&mut self, name: &String) -> (removed: bool)
        requires
            old(self).wf(),
        ensures
            final(self).wf(),
            (final(self)@, removed) == remove_spec(old(self)@, name@),
            removed == old(self)@.unique.contains(name@),
            !final(self)@.unique.contains(name@),
            forall|m: Seq<char>|
                m != name@ ==> (#[trigger] final(self)@.unique.contains(m) <==> old(self)@.unique.contains(m)),
    {
        proof {
            lemma_wf_names_distinct(self);
            law_remove_takes_out_exactly(self@, name@);
        }
        match self.position(name) {
            Some(i) => {
                let ghost before = strings_view(self.unique@);
                proof {
                    before.index_of_first_ensures(name@);
                    assert(before.index_of(name@) == i) by {
                        let k = before.index_of(name@);
                        assert(before[k] == name@);
                        assert(before[i as int] == name@);
                    }
                }
                self.unique.remove(i);
                proof {
                    assert(strings_view(self.unique@) =~= before.remove(i as int));
                    assert(strings_view(self.unique@).no_duplicates()) by {
                        let u = strings_view(self.unique@);
                        assert forall|a: int, b: int| 0 <= a < u.len() && 0 <= b < u.len() && a != b implies u[a] != u[b] by {
                            let a2 = if a < i { a } else { a + 1 };
                            let b2 = if b < i { b } else { b + 1 };
                            assert(u[a] == before[a2]);
                            assert(u[b] == before[b2]);
                        }
                    }
                }
                true
            },
            None => false,
        }
    }

    /// The list of users online: `Users currently online: ` and then each name in use,
    /// each followed by a space.
    pub fn to_list(&self) -> (list: Vec<u8>)
        ensures
            list@ == encode_utf8(USERS_MSG@) + users_list(self@.unique),
    {
        let mut out: Vec<u8> = USERS_MSG.as_bytes_vec();
        let ghost head = out@;
        let mut i: usize = 0;
        while i < self.unique.len()
            invariant
                i <= self.unique@.len(),
                out@ == head + users_list(strings_view(self.unique@).take(i as int)),
            decreases self.unique@.len() - i,
        {
            let bytes = self.unique[i].as_str().as_bytes();
            crate::text::append_range(&mut out, bytes, 0, bytes.len());
            out.push(32u8);
            proof {
                let u = strings_view(self.unique@);
                assert(u.take(i as int + 1).drop_last() =~= u.take(i as int));
                assert(bytes@.subrange(0, bytes@.len() as int) =~= bytes@);
            }
            i = i + 1;
        }
        assert(strings_view(self.unique@).take(i as int) =~= strings_view(self.unique@));
        out
    }
}

// ---------------------------------------------------------------------------
// Laws
// ---------------------------------------------------------------------------

/// Whether no name is in use twice.
pub open spec fn names_distinct(v: NamesView) -> bool {
    v.unique.no_duplicates()
}

/// A well-formed registry holds each name in use once.
pub proof fn lemma_wf_names_distinct(n: &Names)
    requires
        n.wf(),
    ensures
        names_distinct(n@),
{
}

/// Whether a name ends with the marker that a second collision appends (`!*#$`).
pub open spec fn ends_with_marker(s: Seq<char>) -> bool {
    let m = "!*#$"@;
    s.len() >= m.len() && s.subrange(s.len() - m.len(), s.len() as int) == m
}

/// The name an insert adds to those in use: the name as registered when it was new, the
/// name given to its collision otherwise.
pub open spec fn added_name(v: NamesView, name: Seq<char>) -> Seq<char> {
    if insert_spec(v, name).1 {
        registered_form(name)
    } else {
        collision_name(v, registered_form(name))
    }
}

/// While no name in use ends with the collision marker, each insert adds exactly one new
/// name to those in use: the name itself when it was new, and otherwise the name that
/// `last_collision` then hands out. So every join gets a name of its own.
pub proof fn law_insert_adds_one_name(v: NamesView, name: Seq<char>)
    requires
        forall|i: int| 0 <= i < v.unique.len() ==> !ends_with_marker(#[trigger] v.unique[i]),
    ensures
        ({
            let (after, new) = insert_spec(v, name);
            let added = added_name(v, name);
            &&& !v.unique.contains(added)
            &&& after.unique == v.unique.push(added)
            &&& after.last_fixed == (if new { v.last_fixed } else { Some(added) })
        }),
{
    let key = registered_form(name);
    if v.unique.contains(key) {
        let first = numbered(key, next_count(v.duplicates, key));
        if v.unique.contains(first) {
            let m = "!*#$"@;
            let fixed = first + m;
            assert(fixed.subrange(fixed.len() - m.len(), fixed.len() as int) =~= m);
            assert(ends_with_marker(fixed));
            if v.unique.contains(fixed) {
                let i = choose|i: int| 0 <= i < v.unique.len() && v.unique[i] == fixed;
                assert(!ends_with_marker(v.unique[i]));
            }
        }
    }
}

/// Removing a name takes out exactly that name: afterwards it is not in use, every other
/// name is in use exactly when it was before, and no counter changes; the result says
/// whether the name was in use.
pub proof fn law_remove_takes_out_exactly(v: NamesView, n: Seq<char>)
    requires
        names_distinct(v),
    ensures
        remove_spec(v, n).1 == v.unique.contains(n),
        !remove_spec(v, n).0.unique.contains(n),
        forall|m: Seq<char>|
            m != n ==> (#[trigger] remove_spec(v, n).0.unique.contains(m) <==> v.unique.contains(m)),
        remove_spec(v, n).0.duplicates == v.duplicates,
{
    if v.unique.contains(n) {
        v.unique.index_of_first_ensures(n);
        let i = v.unique.index_of(n);
        let u = v.unique.remove(i);
        assert(u == remove_spec(v, n).0.unique);
        assert forall|a: int| 0 <= a < u.len() implies #[trigger] u[a] == v.unique[if a < i { a } else { a + 1 }] by {}
        if u.contains(n) {
            let a = choose|a: int| 0 <= a < u.len() && u[a] == n;
            let a2 = if a < i { a } else { a + 1 };
            assert(v.unique[a2] == n && a2 != i);
        }
        assert forall|m: Seq<char>| m != n implies (#[trigger] u.contains(m) <==> v.unique.contains(m)) by {
            if u.contains(m) {
                let a = choose|a: int| 0 <= a < u.len() && u[a] == m;
                let a2 = if a < i { a } else { a + 1 };
                assert(v.unique[a2] == m);
            }
            if v.unique.contains(m) {
                let k = choose|k: int| 0 <= k < v.unique.len() && v.unique[k] == m;
                assert(k != i);
                let a = if k < i { k } else { k - 1 };
                assert(u[a] == m);
            }
        }
    }
}

/// Inserting or removing a name keeps every name in use once.
pub proof fn law_names_stay_distinct(v: NamesView, name: Seq<char>)
    requires
        names_distinct(v),
    ensures
        names_distinct(insert_spec(v, name).0),
        names_distinct(remove_spec(v, name).0),
{
    let key = registered_form(name);
    if !v.unique.contains(key) {
        let u = v.unique.push(key);
        assert forall|a: int, b: int| 0 <= a < u.len() && 0 <= b < u.len() && a != b implies u[a] != u[b] by {
            if a == v.unique.len() as int {
                assert(v.unique[b] == u[b]);
            } else if b == v.unique.len() as int {
                assert(v.unique[a] == u[a]);
            }
        }
    } else {
        let fixed = collision_name(v, key);
        if !v.unique.contains(fixed) {
            let u = v.unique.push(fixed);
            assert forall|a: int, b: int| 0 <= a < u.len() && 0 <= b < u.len() && a != b implies u[a] != u[b] by {
                if a == v.unique.len() as int {
                    assert(v.unique[b] == u[b]);
                } else if b == v.unique.len() as int {
                    assert(v.unique[a] == u[a]);
                }
            }
        }
    }
    if v.unique.contains(name) {
        let i = v.unique.index_of(name);
        v.unique.index_of_first_ensures(name);
        let u = v.unique.remove(i);
        assert forall|a: int, b: int| 0 <= a < u.len() && 0 <= b < u.len() && a != b implies u[a] != u[b] by {
            let a2 = if a < i { a } else { a + 1 };
            let b2 = if b < i { b } else { b + 1 };
            assert(u[a] == v.unique[a2]);
            assert(u[b] == v.unique[b2]);
        }
    }
}

/// After an insert the name, or the name given to its collision, is in use; a collision
/// is handed out by `last_collision` and is never the colliding name itself.
pub proof fn law_inserted_name_in_use(v: NamesView, name: Seq<char>)
    ensures
        ({
            let key = registered_form(name);
            let (after, new) = insert_spec(v, name);
            &&& new ==> after.unique.contains(key)
            &&& !new ==> after.unique.contains(collision_name(v, key))
            &&& !new ==> after.last_fixed == Some(collision_name(v, key))
            &&& !new ==> collision_name(v, key) != key
        }),
{
    let key = registered_form(name);
    let (after, new) = insert_spec(v, name);
    if new {
        assert(after.unique.last() == key);
        assert(after.unique[after.unique.len() - 1] == key);
    } else {
        let fixed = collision_name(v, key);
        if !v.unique.contains(fixed) {
            assert(after.unique[after.unique.len() - 1] == fixed);
        }
        let first = numbered(key, next_count(v.duplicates, key));
        assert(first.len() > key.len());
        assert((first + "!*#$"@).len() >= first.len());
    }
}

/// The counters of taken names only ever grow: an insert raises at most the counter of
/// the name it collides with, and a remove leaves every counter as it was. So a numbered
/// name handed out once is not handed out again by the counter.
pub proof fn law_counters_never_go_back(v: NamesView, name: Seq<char>)
    requires
        !(v.duplicates.contains_key(registered_form(name)) && v.duplicates[registered_form(name)]
            == usize::MAX),
    ensures
        forall|k: Seq<char>|
            #![trigger insert_spec(v, name).0.duplicates[k]]
            v.duplicates.contains_key(k) ==> insert_spec(v, name).0.duplicates.contains_key(k)
                && insert_spec(v, name).0.duplicates[k] >= v.duplicates[k],
        !insert_spec(v, name).1 ==> insert_spec(v, name).0.duplicates[registered_form(name)]
            == next_count(v.duplicates, registered_form(name)),
        remove_spec(v, name).0.duplicates == v.duplicates,
{
}

/// A name that was new and is removed again leaves the names in use as they were.
pub proof fn law_insert_then_remove(v: NamesView, name: Seq<char>)
    requires
        names_distinct(v),
        !v.unique.contains(registered_form(name)),
    ensures
        remove_spec(insert_spec(v, name).0, registered_form(name)).0.unique == v.unique,
{
    let key = registered_form(name);
    let u = v.unique.push(key);
    assert(u[u.len() - 1] == key);
    assert(u.contains(key));
    u.index_of_first_ensures(key);
    let i = u.index_of(key);
    assert(i == v.unique.len()) by {
        if i < v.unique.len() {
            assert(v.unique[i] == key);
        }
    }
    assert(u.remove(i) =~= v.unique);
}

} // verus!
