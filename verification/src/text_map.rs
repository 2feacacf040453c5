//! A map from texts, walked in the order of their bytes.

use vstd::prelude::*;
use vstd::string::StringSliceAdditionalSpecFns;
use vstd::utf8::{encode_utf8, encode_utf8_decode_utf8};

use crate::bytes::{lemma_lex_irreflexive, lemma_lex_total, lemma_lex_transitive, lex_less, lex_lt};
use crate::text::same_text;

verus! {

/// Rows in strictly ascending order of the bytes of their keys.
pub struct TextMap<V> {
    rows: Vec<(String, V)>,
}

/// Whether one text comes before another, byte by byte.
pub open spec fn text_lt(a: Seq<char>, b: Seq<char>) -> bool {
    lex_lt(encode_utf8(a), encode_utf8(b))
}

pub open spec fn sorted<V>(rows: Seq<(String, V)>) -> bool {
    forall|i: int, j: int|
        0 <= i < j < rows.len() ==> text_lt((#[trigger] rows[i]).0@, (#[trigger] rows[j]).0@)
}

/// Whether some row has the key `key`.
pub open spec fn has_key<V>(rows: Seq<(String, V)>, key: Seq<char>) -> bool {
    exists|i: int| 0 <= i < rows.len() && (#[trigger] rows[i]).0@ == key
}

/// The position of the row with the key `key`.
pub open spec fn key_row<V>(rows: Seq<(String, V)>, key: Seq<char>) -> int {
    choose|i: int| 0 <= i < rows.len() && (#[trigger] rows[i]).0@ == key
}

/// The map that the rows stand for.
pub open spec fn text_rows_map<V>(rows: Seq<(String, V)>) -> Map<Seq<char>, V> {
    Map::new(
        |key: Seq<char>| has_key(rows, key),
        |key: Seq<char>| rows[key_row(rows, key)].1,
    )
}

/// One row was added.
pub open spec fn row_added<V>(
    before: Seq<(String, V)>,
    after: Seq<(String, V)>,
    row: (String, V),
) -> bool {
    exists|at: int| 0 <= at <= before.len() && after == #[trigger] before.insert(at, row)
}

/// One row has another value.
pub open spec fn row_replaced<V>(
    before: Seq<(String, V)>,
    after: Seq<(String, V)>,
    key: Seq<char>,
    v: V,
) -> bool {
    exists|at: int|
        0 <= at < before.len() && (#[trigger] before[at]).0@ == key && after == before.update(
            at,
            (before[at].0, v),
        )
}

/// One row was taken away.
pub open spec fn row_dropped<V>(
    before: Seq<(String, V)>,
    after: Seq<(String, V)>,
    key: Seq<char>,
) -> bool {
    exists|at: int|
        0 <= at < before.len() && (#[trigger] before[at]).0@ == key && after == before.remove(at)
}

/// Texts with the same bytes are the same.
pub proof fn lemma_same_bytes_same_text(a: Seq<char>, b: Seq<char>)
    requires
        encode_utf8(a) == encode_utf8(b),
    ensures
        a == b,
{
    encode_utf8_decode_utf8(a);
    encode_utf8_decode_utf8(b);
}

pub proof fn lemma_text_total(a: Seq<char>, b: Seq<char>)
    ensures
        text_lt(a, b) || text_lt(b, a) || a == b,
        !(text_lt(a, b) && text_lt(b, a)),
        text_lt(a, b) ==> a != b,
{
    let x = encode_utf8(a);
    let y = encode_utf8(b);
    lemma_lex_total(x, y);
    lemma_lex_irreflexive(x);
    if lex_lt(x, y) && lex_lt(y, x) {
        lemma_lex_transitive(x, y, x);
    }
    if x == y {
        lemma_same_bytes_same_text(a, b);
    }
}

pub proof fn lemma_text_transitive(a: Seq<char>, b: Seq<char>, c: Seq<char>)
    requires
        text_lt(a, b),
        text_lt(b, c),
    ensures
        text_lt(a, c),
{
    lemma_lex_transitive(encode_utf8(a), encode_utf8(b), encode_utf8(c));
}

pub proof fn lemma_key_row<V>(rows: Seq<(String, V)>, i: int)
    requires
        sorted(rows),
        0 <= i < rows.len(),
    ensures
        has_key(rows, rows[i].0@),
        key_row(rows, rows[i].0@) == i,
        text_rows_map(rows).dom().contains(rows[i].0@),
        text_rows_map(rows)[rows[i].0@] == rows[i].1,
{
    let key = rows[i].0@;
    assert(rows[i].0@ == key);
    let j = key_row(rows, key);
    assert(0 <= j < rows.len() && rows[j].0@ == key);
    lemma_text_total(key, key);
    if j < i {
        assert(text_lt(rows[j].0@, rows[i].0@));
    }
    if i < j {
        assert(text_lt(rows[i].0@, rows[j].0@));
    }
}

fn comes_before(a: &str, b: &str) -> (r: bool)
    ensures
        r == text_lt(a@, b@),
{
    lex_less(a.as_bytes(), b.as_bytes())
}

impl<V> TextMap<V> {
    /// The rows, in the order of their keys.
    pub closed spec fn spec_rows(self) -> Seq<(String, V)> {
        self.rows@
    }

    pub closed spec fn wf(self) -> bool {
        sorted(self.rows@)
    }

    pub open spec fn view(self) -> Map<Seq<char>, V> {
        text_rows_map(self.spec_rows())
    }

    pub proof fn lemma_rows(self)
        requires
            self.wf(),
        ensures
            sorted(self.spec_rows()),
    {
    }

    pub fn new() -> (m: Self)
        ensures
            m.wf(),
            m.spec_rows() == Seq::<(String, V)>::empty(),
            m@ == Map::<Seq<char>, V>::empty(),
    {
        let m = TextMap { rows: Vec::new() };
        proof {
            assert(m@ =~= Map::<Seq<char>, V>::empty());
        }
        m
    }

    pub fn len(&self) -> (n: usize)
        ensures
            n == self.spec_rows().len(),
    {
        self.rows.len()
    }

    /// The first position whose key does not come before `key`.
    fn find(&self, key: &str) -> (at: usize)
        requires
            self.wf(),
        ensures
            at <= self.rows@.len(),
            forall|k: int| 0 <= k < at ==> text_lt((#[trigger] self.rows@[k]).0@, key@),
            forall|k: int|
                at <= k < self.rows@.len() ==> !text_lt((#[trigger] self.rows@[k]).0@, key@),
    {
        let mut lo: usize = 0;
        let mut hi: usize = self.rows.len();
        while lo < hi
            invariant
                self.wf(),
                lo <= hi <= self.rows@.len(),
                forall|k: int| 0 <= k < lo ==> text_lt((#[trigger] self.rows@[k]).0@, key@),
                forall|k: int|
                    hi <= k < self.rows@.len() ==> !text_lt((#[trigger] self.rows@[k]).0@, key@),
            decreases hi - lo,
        {
            let mid: usize = lo + (hi - lo) / 2;
            if comes_before(self.rows[mid].0.as_str(), key) {
                proof {
                    assert forall|k: int| 0 <= k < mid + 1 implies text_lt(
                        (#[trigger] self.rows@[k]).0@,
                        key@,
                    ) by {
                        if k < mid {
                            lemma_text_transitive(
                                self.rows@[k].0@,
                                self.rows@[mid as int].0@,
                                key@,
                            );
                        }
                    }
                }
                lo = mid + 1;
            } else {
                proof {
                    assert forall|k: int| mid <= k < self.rows@.len() implies !text_lt(
                        (#[trigger] self.rows@[k]).0@,
                        key@,
                    ) by {
                        if k > mid && text_lt(self.rows@[k].0@, key@) {
                            lemma_text_transitive(
                                self.rows@[mid as int].0@,
                                self.rows@[k].0@,
                                key@,
                            );
                        }
                    }
                }
                hi = mid;
            }
        }
        lo
    }

    fn position(&self, key: &str) -> (r: (usize, bool))
        requires
            self.wf(),
        ensures
            r.0 <= self.rows@.len(),
            forall|k: int| 0 <= k < r.0 ==> text_lt((#[trigger] self.rows@[k]).0@, key@),
            r.1 ==> r.0 < self.rows@.len() && self.rows@[r.0 as int].0@ == key@,
            !r.1 ==> forall|k: int|
                r.0 <= k < self.rows@.len() ==> text_lt(key@, (#[trigger] self.rows@[k]).0@),
            r.1 == has_key(self.spec_rows(), key@),
    {
        let at = self.find(key);
        if at < self.rows.len() && same_text(self.rows[at].0.as_str(), key) {
            proof {
                assert(self.rows@[at as int].0@ == key@);
            }
            (at, true)
        } else {
            proof {
                assert forall|k: int| at <= k < self.rows@.len() implies text_lt(
                    key@,
                    (#[trigger] self.rows@[k]).0@,
                ) by {
                    lemma_text_total(self.rows@[at as int].0@, key@);
                    if k > at {
                        lemma_text_transitive(
                            key@,
                            self.rows@[at as int].0@,
                            self.rows@[k].0@,
                        );
                    }
                }
                assert forall|k: int| 0 <= k < self.rows@.len() implies (
                #[trigger] self.rows@[k]).0@ != key@ by {
                    lemma_text_total(self.rows@[k].0@, key@);
                }
            }
            (at, false)
        }
    }

    pub fn get(&self, key: &str) -> (r: Option<&V>)
        requires
            self.wf(),
        ensures
            match r {
                Some(v) => self@.dom().contains(key@) && *v == self@[key@],
                None => !self@.dom().contains(key@),
            },
    {
        let (at, found) = self.position(key);
        if found {
            proof {
                lemma_key_row(self.rows@, at as int);
            }
            Some(&self.rows[at].1)
        } else {
            None
        }
    }

    pub fn key_at(&self, i: usize) -> (k: &str)
        requires
            i < self.spec_rows().len(),
        ensures
            k@ == self.spec_rows()[i as int].0@,
    {
        self.rows[i].0.as_str()
    }

    pub fn value_at(&self, i: usize) -> (v: &V)
        requires
            i < self.spec_rows().len(),
        ensures
            *v == self.spec_rows()[i as int].1,
    {
        &self.rows[i].1
    }

    /// Sets the value of a key; returns the value that it had.
    pub fn insert(&mut self, key: String, v: V) -> (r: Option<V>)
        requires
            old(self).wf(),
        ensures
            final(self).wf(),
            final(self)@ == old(self)@.insert(key@, v),
            match r {
                Some(o) => old(self)@.dom().contains(key@) && o == old(self)@[key@]
                    && row_replaced(old(self).spec_rows(), final(self).spec_rows(), key@, v),
                None => !old(self)@.dom().contains(key@) && row_added(
                    old(self).spec_rows(),
                    final(self).spec_rows(),
                    (key, v),
                ),
            },
    {
        let ghost before = self.rows@;
        let (at, found) = self.position(key.as_str());
        if found {
            let mut v = v;
            let ghost new = v;
            std::mem::swap(&mut self.rows[at].1, &mut v);
            proof {
                let after = self.rows@;
                lemma_key_row(before, at as int);
                assert(after =~= before.update(at as int, (before[at as int].0, new)));
                assert forall|i: int, j: int| 0 <= i < j < after.len() implies text_lt(
                    (#[trigger] after[i]).0@,
                    (#[trigger] after[j]).0@,
                ) by {
                    assert(after[i].0 == before[i].0 && after[j].0 == before[j].0);
                }
                lemma_rows_same_keys(before, after, at as int, new);
            }
            Some(v)
        } else {
            let ghost new = (key, v);
            self.rows.insert(at, (key, v));
            proof {
                let after = self.rows@;
                assert(after == before.insert(at as int, new));
                assert forall|i: int, j: int| 0 <= i < j < after.len() implies text_lt(
                    (#[trigger] after[i]).0@,
                    (#[trigger] after[j]).0@,
                ) by {
                    let a = if i < at {
                        i
                    } else {
                        i - 1
                    };
                    let b = if j < at {
                        j
                    } else {
                        j - 1
                    };
                    if i != at {
                        assert(after[i] == before[a]);
                    }
                    if j != at {
                        assert(after[j] == before[b]);
                    }
                }
                lemma_rows_inserted(before, after, at as int, new);
            }
            None
        }
    }

    /// Takes a key away; returns the value that it had.
    pub fn remove(&mut self, key: &str) -> (r: Option<V>)
        requires
            old(self).wf(),
        ensures
            final(self).wf(),
            final(self)@ == old(self)@.remove(key@),
            match r {
                Some(o) => old(self)@.dom().contains(key@) && o == old(self)@[key@]
                    && row_dropped(old(self).spec_rows(), final(self).spec_rows(), key@),
                None => !old(self)@.dom().contains(key@) && *final(self) == *old(self),
            },
    {
        let ghost before = self.rows@;
        let (at, found) = self.position(key);
        if found {
            let gone = self.rows.remove(at);
            proof {
                let after = self.rows@;
                lemma_key_row(before, at as int);
                assert(after == before.remove(at as int));
                assert forall|i: int, j: int| 0 <= i < j < after.len() implies text_lt(
                    (#[trigger] after[i]).0@,
                    (#[trigger] after[j]).0@,
                ) by {
                    let a = if i < at {
                        i
                    } else {
                        i + 1
                    };
                    let b = if j < at {
                        j
                    } else {
                        j + 1
                    };
                    assert(after[i] == before[a] && after[j] == before[b]);
                }
                assert(before =~= after.insert(at as int, before[at as int]));
                lemma_rows_inserted(after, before, at as int, before[at as int]);
                assert(!has_key(after, key@)) by {
                    if has_key(after, key@) {
                        let i = key_row(after, key@);
                        let a = if i < at {
                            i
                        } else {
                            i + 1
                        };
                        assert(after[i] == before[a]);
                        lemma_text_total(key@, key@);
                        if a < at {
                            assert(text_lt(before[a].0@, before[at as int].0@));
                        } else {
                            assert(text_lt(before[at as int].0@, before[a].0@));
                        }
                    }
                }
                assert(text_rows_map(after) =~= text_rows_map(before).remove(key@));
            }
            Some(gone.1)
        } else {
            proof {
                assert(self@.remove(key@) =~= self@);
            }
            None
        }
    }
}

proof fn lemma_rows_same_keys<V>(
    before: Seq<(String, V)>,
    after: Seq<(String, V)>,
    at: int,
    v: V,
)
    requires
        sorted(before),
        sorted(after),
        0 <= at < before.len(),
        after == before.update(at, (before[at].0, v)),
    ensures
        text_rows_map(after) == text_rows_map(before).insert(before[at].0@, v),
{
    let key = before[at].0@;
    assert forall|k: Seq<char>| has_key(after, k) == (has_key(before, k) || k == key) by {
        if has_key(before, k) {
            let i = key_row(before, k);
            assert(after[i].0@ == k);
        }
        if has_key(after, k) {
            let i = key_row(after, k);
            assert(before[i].0@ == k);
        }
        assert(after[at].0@ == key);
    }
    assert forall|k: Seq<char>| has_key(after, k) implies #[trigger] text_rows_map(after)[k]
        == text_rows_map(before).insert(key, v)[k] by {
        let i = key_row(after, k);
        lemma_key_row(after, i);
        lemma_key_row(before, i);
        lemma_key_row(after, at);
    }
    assert(text_rows_map(after) =~= text_rows_map(before).insert(key, v));
}

proof fn lemma_rows_inserted<V>(
    before: Seq<(String, V)>,
    after: Seq<(String, V)>,
    at: int,
    row: (String, V),
)
    requires
        sorted(before),
        sorted(after),
        0 <= at <= before.len(),
        after == before.insert(at, row),
    ensures
        text_rows_map(after) == text_rows_map(before).insert(row.0@, row.1),
{
    let key = row.0@;
    assert(after[at] == row);
    assert forall|k: Seq<char>| has_key(after, k) == (has_key(before, k) || k == key) by {
        if has_key(before, k) {
            let i = key_row(before, k);
            if i < at {
                assert(after[i].0@ == k);
            } else {
                assert(after[i + 1].0@ == k);
            }
        }
        if has_key(after, k) {
            let i = key_row(after, k);
            if i < at {
                assert(before[i].0@ == k);
            } else if i > at {
                assert(before[i - 1].0@ == k);
            }
        }
        assert(after[at].0@ == key);
    }
    assert forall|k: Seq<char>| has_key(after, k) implies #[trigger] text_rows_map(after)[k]
        == text_rows_map(before).insert(key, row.1)[k] by {
        let i = key_row(after, k);
        lemma_key_row(after, i);
        lemma_key_row(after, at);
        if i < at {
            assert(after[i] == before[i]);
            lemma_key_row(before, i);
        } else if i > at {
            assert(after[i] == before[i - 1]);
            lemma_key_row(before, i - 1);
        }
    }
    assert(text_rows_map(after) =~= text_rows_map(before).insert(key, row.1));
}

} // verus!
