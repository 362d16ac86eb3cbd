//! Part headers: a mapping from header field names to ordered value lists.
//! Entries are kept sorted by strictly increasing field name, which is the
//! order in which a part's header block lists them.

use vstd::prelude::*;
use crate::order::{
    chars_lt, lemma_chars_lt_asymmetric, lemma_chars_lt_connex, lemma_chars_lt_transitive, str_lt,
};

verus! {

/// The carriage-return / line-feed pair ending every emitted line.
pub open spec fn crlf() -> Seq<char> {
    "\r\n"@
}

/// The separator between a field name and a value on a header line.
pub open spec fn colon_space() -> Seq<char> {
    ": "@
}

/// One emitted header line: `<name>: <value>` followed by CRLF.
pub open spec fn header_line(k: Seq<char>, v: Seq<char>) -> Seq<char> {
    k + colon_space() + v + crlf()
}

/// The lines emitted for one field: one line per value, in stored order.
pub open spec fn lines_of_values(k: Seq<char>, vs: Seq<Seq<char>>) -> Seq<char>
    decreases vs.len(),
{
    if vs.len() == 0 {
        Seq::empty()
    } else {
        header_line(k, vs[0]) + lines_of_values(k, vs.drop_first())
    }
}

/// The full header block of a part: the lines of every entry, in stored
/// (that is, sorted) order.
pub open spec fn header_block(m: Seq<(Seq<char>, Seq<Seq<char>>)>) -> Seq<char>
    decreases m.len(),
{
    if m.len() == 0 {
        Seq::empty()
    } else {
        lines_of_values(m[0].0, m[0].1) + header_block(m.drop_first())
    }
}

/// What adding a value does to the entry sequence: a new field is inserted
/// at its sorted position, a value for a present field is appended to that
/// field's value list.
pub open spec fn header_add(
    m: Seq<(Seq<char>, Seq<Seq<char>>)>,
    k: Seq<char>,
    v: Seq<char>,
) -> Seq<(Seq<char>, Seq<Seq<char>>)>
    decreases m.len(),
{
    if m.len() == 0 {
        seq![(k, seq![v])]
    } else if chars_lt(k, m[0].0) {
        seq![(k, seq![v])] + m
    } else if k == m[0].0 {
        seq![(m[0].0, m[0].1.push(v))] + m.drop_first()
    } else {
        seq![m[0]] + header_add(m.drop_first(), k, v)
    }
}

/// The set of field names present in an entry sequence.
pub open spec fn key_set(m: Seq<(Seq<char>, Seq<Seq<char>>)>) -> Set<Seq<char>> {
    Set::new(|k: Seq<char>| exists|i: int| 0 <= i < m.len() && m[i].0 == k)
}

/// A header map: field names with their ordered value lists, stored sorted
/// by strictly increasing field name.
pub struct PartHeader {
    entries: Vec<(String, Vec<String>)>,
}

impl View for PartHeader {
    type V = Seq<(Seq<char>, Seq<Seq<char>>)>;

    closed spec fn view(&self) -> Seq<(Seq<char>, Seq<Seq<char>>)> {
        Seq::new(
            self.entries@.len(),
            |i: int|
                (
                    self.entries@[i].0@,
                    Seq::new(self.entries@[i].1@.len(), |j: int| self.entries@[i].1@[j]@),
                ),
        )
    }
}

impl PartHeader {
    /// Field names are strictly increasing, so each name occurs once and the
    /// stored order is the lexicographic order of the names.
    pub open spec fn wf(&self) -> bool {
        forall|i: int, j: int| 0 <= i < j < self@.len() ==> chars_lt(self@[i].0, self@[j].0)
    }

    /// Returns an empty header map.
    pub fn new() -> (h: PartHeader)
        ensures
            h@ == Seq::<(Seq<char>, Seq<Seq<char>>)>::empty(),
            h.wf(),
    {
        let h = PartHeader { entries: Vec::new() };
        proof {
            assert(h@ =~= Seq::<(Seq<char>, Seq<Seq<char>>)>::empty());
        }
        h
    }

    /// Adds a value for a field: appended to the field's value list if the
    /// field is present, inserted as a fresh entry at its sorted position
    /// otherwise.
    pub fn append_value(&mut self, name: &str, value: &str)
        requires
            old(self).wf(),
        ensures
            final(self)@ == header_add(old(self)@, name@, value@),
            final(self).wf(),
    {
        let ghost m = self@;
        let ghost k = name@;
        let n = self.entries.len();
        let mut j: usize = 0;
        loop
            invariant
                0 <= j <= n,
                n == self@.len(),
                self == old(self),
                m == self@,
                k == name@,
                forall|i: int| 0 <= i < j ==> chars_lt(self@[i].0, k),
            ensures
                0 <= j <= n,
                self == old(self),
                forall|i: int| 0 <= i < j ==> chars_lt(self@[i].0, k),
                j < n ==> !chars_lt(self@[j as int].0, k),
            decreases n - j,
        {
            if j == n {
                break ;
            }
            let entry = &self.entries[j];
            let before = str_lt(entry.0.as_str(), name);
            proof {
                assert(self@[j as int].0 == self.entries@[j as int].0@);
            }
            if !before {
                break ;
            }
            j += 1;
        }
        let found = if j < n {
            let entry = &self.entries[j];
            let r = !str_lt(name, entry.0.as_str());
            proof {
                assert(self@[j as int].0 == self.entries@[j as int].0@);
            }
            r
        } else {
            false
        };
        let ghost oents = self.entries@;
        if found {
            proof {
                lemma_chars_lt_connex(k, m[j as int].0);
                assert(k == m[j as int].0);
            }
            let mut entry = self.entries.remove(j);
            let ov = value.to_owned();
            entry.1.push(ov);
            self.entries.insert(j, entry);
            proof {
                let e = (m[j as int].0, m[j as int].1.push(value@));
                let target = m.update(j as int, e);
                assert forall|i: int| 0 <= i < self@.len() implies self@[i] =~~= target[i] by {
                    if i == j as int {
                        assert(self.entries@[i].0 == oents[i].0);
                        assert(self.entries@[i].1@ == oents[i].1@.push(ov));
                        assert(self@[i].1 =~= e.1);
                    } else {
                        assert(self.entries@[i] == oents[i]);
                        assert(self@[i].1 =~= m[i].1);
                    }
                }
                assert(self@ =~= target);
                lemma_header_add_at(m, k, value@, j as int);
                assert(forall|i1: int, i2: int|
                    0 <= i1 < i2 < self@.len() ==> chars_lt(self@[i1].0, self@[i2].0));
            }
        } else {
            let mut vs: Vec<String> = Vec::new();
            vs.push(value.to_owned());
            let ghost vsv = vs@;
            self.entries.insert(j, (name.to_owned(), vs));
            proof {
                let e = (k, seq![value@]);
                let target = m.insert(j as int, e);
                assert(vsv.len() == 1 && vsv[0]@ == value@);
                assert forall|i: int| 0 <= i < self@.len() implies self@[i] =~~= target[i] by {
                    if i == j as int {
                        assert(self.entries@[i].1@ == vsv);
                        assert(self@[i].1 =~= e.1);
                    } else if i < j as int {
                        assert(self.entries@[i] == oents[i]);
                        assert(self@[i].1 =~= m[i].1);
                    } else {
                        assert(self.entries@[i] == oents[i - 1]);
                        assert(self@[i].1 =~= m[i - 1].1);
                    }
                }
                assert(self@ =~= target);
                lemma_header_add_at(m, k, value@, j as int);
                if j < n {
                    assert(chars_lt(k, m[j as int].0));
                }
                assert forall|i1: int, i2: int|
                    0 <= i1 < i2 < self@.len() implies chars_lt(self@[i1].0, self@[i2].0) by {
                    if i1 < j && i2 == j {
                    } else if i1 == j && i2 > j {
                        lemma_chars_lt_transitive(k, m[j as int].0, m[i2 - 1].0);
                    }
                }
            }
        }
    }

    /// The number of fields.
    pub fn num_entries(&self) -> (n: usize)
        ensures
            n == self@.len(),
    {
        self.entries.len()
    }

    /// The field name of the entry at the given position.
    pub fn name_at(&self, i: usize) -> (r: &String)
        requires
            i < self@.len(),
        ensures
            r@ == self@[i as int].0,
    {
        &self.entries[i].0
    }

    /// The number of values stored for the entry at the given position.
    pub fn num_values(&self, i: usize) -> (n: usize)
        requires
            i < self@.len(),
        ensures
            n == self@[i as int].1.len(),
    {
        self.entries[i].1.len()
    }

    /// The value at the given position in the given entry's value list.
    pub fn value_at(&self, i: usize, j: usize) -> (r: &String)
        requires
            i < self@.len(),
            j < self@[i as int].1.len(),
        ensures
            r@ == self@[i as int].1[j as int],
    {
        &self.entries[i].1[j]
    }
}

/// Where the first `j` field names all sort before `k` and the name at `j`
/// (if any) does not, `header_add` lands exactly at position `j`.
proof fn lemma_header_add_at(
    m: Seq<(Seq<char>, Seq<Seq<char>>)>,
    k: Seq<char>,
    v: Seq<char>,
    j: int,
)
    requires
        0 <= j <= m.len(),
        forall|i: int| 0 <= i < j ==> chars_lt(m[i].0, k),
        j < m.len() ==> !chars_lt(m[j].0, k),
    ensures
        j < m.len() && m[j].0 == k ==> header_add(m, k, v) == m.update(
            j,
            (k, m[j].1.push(v)),
        ),
        !(j < m.len() && m[j].0 == k) ==> header_add(m, k, v) == m.insert(j, (k, seq![v])),
    decreases j,
{
    if j == 0 {
        if m.len() == 0 {
            assert(header_add(m, k, v) =~= m.insert(0, (k, seq![v])));
        } else if m[0].0 == k {
            assert(header_add(m, k, v) =~= m.update(0, (k, m[0].1.push(v))));
        } else {
            lemma_chars_lt_connex(k, m[0].0);
            assert(chars_lt(k, m[0].0));
            assert(header_add(m, k, v) =~= m.insert(0, (k, seq![v])));
        }
    } else {
        lemma_chars_lt_asymmetric(m[0].0, k);
        assert(!chars_lt(k, m[0].0) && k != m[0].0);
        let t = m.drop_first();
        lemma_header_add_at(t, k, v, j - 1);
        if j < m.len() && m[j].0 == k {
            assert(t[j - 1].0 == k);
            assert(header_add(m, k, v) == seq![m[0]] + header_add(t, k, v));
            assert(seq![m[0]] + t.update(j - 1, (k, t[j - 1].1.push(v))) =~= m.update(
                j,
                (k, m[j].1.push(v)),
            ));
        } else {
            assert(seq![m[0]] + t.insert(j - 1, (k, seq![v])) =~= m.insert(j, (k, seq![v])));
        }
    }
}

/// Prepending an entry adds exactly its field name to the key set.
proof fn lemma_key_set_cons(e: (Seq<char>, Seq<Seq<char>>), s: Seq<(Seq<char>, Seq<Seq<char>>)>)
    ensures
        key_set(seq![e] + s) == key_set(s).insert(e.0),
{
    let c = seq![e] + s;
    assert forall|x: Seq<char>| key_set(c).contains(x) implies key_set(s).insert(e.0).contains(
        x,
    ) by {
        let i = choose|i: int| 0 <= i < c.len() && c[i].0 == x;
        if i > 0 {
            assert(s[i - 1].0 == x);
        }
    }
    assert forall|x: Seq<char>| key_set(s).insert(e.0).contains(x) implies key_set(c).contains(
        x,
    ) by {
        if x == e.0 {
            assert(c[0].0 == x);
        } else {
            let i = choose|i: int| 0 <= i < s.len() && s[i].0 == x;
            assert(c[i + 1].0 == x);
        }
    }
    assert(key_set(c) =~= key_set(s).insert(e.0));
}

/// Adding a value introduces exactly the given field name: the key set of
/// the result is the old key set with `k` added, so no field is lost and
/// none appears besides `k`.
pub proof fn lemma_header_add_keys(m: Seq<(Seq<char>, Seq<Seq<char>>)>, k: Seq<char>, v: Seq<char>)
    ensures
        key_set(header_add(m, k, v)) == key_set(m).insert(k),
    decreases m.len(),
{
    let r = header_add(m, k, v);
    if m.len() == 0 {
        assert(r =~= seq![(k, seq![v])] + Seq::<(Seq<char>, Seq<Seq<char>>)>::empty());
        lemma_key_set_cons((k, seq![v]), Seq::empty());
        assert(key_set(Seq::<(Seq<char>, Seq<Seq<char>>)>::empty()) =~= Set::empty());
        assert(key_set(m) =~= Set::empty());
        assert(key_set(r) =~= key_set(m).insert(k));
    } else {
        let t = m.drop_first();
        assert(m =~= seq![m[0]] + t);
        lemma_key_set_cons(m[0], t);
        if chars_lt(k, m[0].0) {
            lemma_key_set_cons((k, seq![v]), m);
            assert(key_set(r) =~= key_set(m).insert(k));
        } else if k == m[0].0 {
            lemma_key_set_cons((m[0].0, m[0].1.push(v)), t);
            assert(key_set(r) =~= key_set(m).insert(k));
        } else {
            lemma_header_add_keys(t, k, v);
            lemma_key_set_cons(m[0], header_add(t, k, v));
            assert(key_set(r) =~= key_set(m).insert(k));
        }
    }
}

/// The header block lists field names in strictly increasing lexicographic
/// order: on a well-formed header the stored entries, which the block walks
/// in order, carry pairwise distinct, strictly increasing names — no name
/// is repeated and none is out of order.
pub proof fn lemma_header_names_strictly_sorted(h: PartHeader)
    requires
        h.wf(),
    ensures
        forall|i: int, j: int|
            0 <= i < j < h@.len() ==> chars_lt(h@[i].0, h@[j].0) && h@[i].0 != h@[j].0,
{
    assert forall|i: int, j: int|
        0 <= i < j < h@.len() implies chars_lt(h@[i].0, h@[j].0) && h@[i].0 != h@[j].0 by {
        lemma_chars_lt_asymmetric(h@[i].0, h@[j].0);
    }
}

/// Unfolds one entry off the end of a header-block prefix.
pub proof fn lemma_header_block_take_step(m: Seq<(Seq<char>, Seq<Seq<char>>)>, i: int)
    requires
        0 <= i < m.len(),
    ensures
        header_block(m.take(i + 1)) == header_block(m.take(i)) + lines_of_values(
            m[i].0,
            m[i].1,
        ),
    decreases i,
{
    if i == 0 {
        assert(m.take(1)[0] == m[0]);
        assert(m.take(1).drop_first() =~= Seq::<(Seq<char>, Seq<Seq<char>>)>::empty());
        assert(m.take(0) =~= Seq::<(Seq<char>, Seq<Seq<char>>)>::empty());
        assert(header_block(m.take(1)) =~= header_block(m.take(0)) + lines_of_values(
            m[0].0,
            m[0].1,
        ));
    } else {
        let t = m.drop_first();
        lemma_header_block_take_step(t, i - 1);
        assert(m.take(i + 1)[0] == m[0]);
        assert(m.take(i)[0] == m[0]);
        assert(m.take(i + 1).drop_first() =~= t.take(i));
        assert(m.take(i).drop_first() =~= t.take(i - 1));
        assert(t[i - 1] == m[i]);
        assert(lines_of_values(m[0].0, m[0].1) + (header_block(t.take(i - 1)) + lines_of_values(
            m[i].0,
            m[i].1,
        )) =~= (lines_of_values(m[0].0, m[0].1) + header_block(t.take(i - 1))) + lines_of_values(
            m[i].0,
            m[i].1,
        ));
    }
}

/// Unfolds one value line off the end of a value-lines prefix.
pub proof fn lemma_lines_of_values_take_step(k: Seq<char>, vs: Seq<Seq<char>>, i: int)
    requires
        0 <= i < vs.len(),
    ensures
        lines_of_values(k, vs.take(i + 1)) == lines_of_values(k, vs.take(i)) + header_line(
            k,
            vs[i],
        ),
    decreases i,
{
    if i == 0 {
        assert(vs.take(1)[0] == vs[0]);
        assert(vs.take(1).drop_first() =~= Seq::<Seq<char>>::empty());
        assert(vs.take(0) =~= Seq::<Seq<char>>::empty());
        assert(lines_of_values(k, vs.take(1)) =~= lines_of_values(k, vs.take(0)) + header_line(
            k,
            vs[0],
        ));
    } else {
        let t = vs.drop_first();
        lemma_lines_of_values_take_step(k, t, i - 1);
        assert(vs.take(i + 1)[0] == vs[0]);
        assert(vs.take(i)[0] == vs[0]);
        assert(vs.take(i + 1).drop_first() =~= t.take(i));
        assert(vs.take(i).drop_first() =~= t.take(i - 1));
        assert(t[i - 1] == vs[i]);
        assert(header_line(k, vs[0]) + (lines_of_values(k, t.take(i - 1)) + header_line(k, vs[i]))
            =~= (header_line(k, vs[0]) + lines_of_values(k, t.take(i - 1))) + header_line(
            k,
            vs[i],
        ));
    }
}

} // verus!
