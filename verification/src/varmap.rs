//! Variable bindings produced by a route lookup.
//!
//! A lookup binds each path variable to a single decoded segment, and a
//! wildcard variable to the list of remaining segments.  The bindings are
//! returned as a mapping keyed by variable name; the mapping is held as a
//! vector of pairs kept strictly sorted by name, so enumeration of the
//! names is deterministic.

use vstd::prelude::*;

use crate::util::str_eq;

verus! {

/// A value for a variable: either a single value or a list of values in
/// the case of wildcard path matching.
#[derive(Debug, Clone, PartialEq, Eq)]
pub enum VariableValue {
    Single(String),
    Components(Vec<String>),
}

/// The mathematical value of a [`VariableValue`].
pub enum VarValueView {
    Single(Seq<char>),
    Components(Seq<Seq<char>>),
}

impl View for VariableValue {
    type V = VarValueView;

    open spec fn view(&self) -> VarValueView {
        match self {
            VariableValue::Single(s) => VarValueView::Single(s@),
            VariableValue::Components(v) => VarValueView::Components(v.deep_view()),
        }
    }
}

/// Reported when a variable value is read as the wrong shape.
#[derive(Debug, Clone, PartialEq, Eq)]
pub struct MapError {
    pub message: String,
}

impl VariableValue {
    /// The single string behind the value, or an error for a wildcard list.
    pub fn as_value(&self) -> (r: Result<&String, MapError>)
        ensures
            match r {
                Ok(s) => self@ matches VarValueView::Single(v) && s@ == v,
                Err(_) => self@ is Components,
            },
    {
        match self {
            VariableValue::Single(s) => Ok(s),
            VariableValue::Components(_) => {
                proof {
                    reveal_strlit("cannot deserialize sequence as a single value");
                }
                Err(
                    MapError {
                        message: String::from_str(
                            "cannot deserialize sequence as a single value",
                        ),
                    },
                )
            },
        }
    }

    /// The list of strings behind the value, or an error for a single value.
    pub fn as_seq(&self) -> (r: Result<&Vec<String>, MapError>)
        ensures
            match r {
                Ok(v) => self@ matches VarValueView::Components(c) && v.deep_view() == c,
                Err(_) => self@ is Single,
            },
    {
        match self {
            VariableValue::Single(_) => {
                proof {
                    reveal_strlit("cannot deserialize a single value as a sequence");
                }
                Err(
                    MapError {
                        message: String::from_str(
                            "cannot deserialize a single value as a sequence",
                        ),
                    },
                )
            },
            VariableValue::Components(v) => Ok(v),
        }
    }
}

/// Strict lexicographic order on character sequences, by scalar value.
pub open spec fn seq_str_lt(a: Seq<char>, b: Seq<char>) -> bool
    decreases a.len(),
{
    if a.len() == 0 {
        b.len() > 0
    } else if b.len() == 0 {
        false
    } else if a[0] < b[0] {
        true
    } else if a[0] == b[0] {
        seq_str_lt(a.drop_first(), b.drop_first())
    } else {
        false
    }
}

/// Lexicographic order never relates a sequence to itself.
pub proof fn lemma_seq_str_lt_irrefl(a: Seq<char>)
    ensures
        !seq_str_lt(a, a),
    decreases a.len(),
{
    if a.len() > 0 {
        lemma_seq_str_lt_irrefl(a.drop_first());
    }
}

/// Lexicographic order is transitive.
pub proof fn lemma_seq_str_lt_trans(a: Seq<char>, b: Seq<char>, c: Seq<char>)
    requires
        seq_str_lt(a, b),
        seq_str_lt(b, c),
    ensures
        seq_str_lt(a, c),
    decreases a.len(),
{
    if a.len() > 0 && b.len() > 0 && c.len() > 0 {
        if a[0] == b[0] && b[0] == c[0] {
            lemma_seq_str_lt_trans(a.drop_first(), b.drop_first(), c.drop_first());
        }
    }
}

/// Lexicographic order is total: two sequences are ordered or equal.
pub proof fn lemma_seq_str_lt_total(a: Seq<char>, b: Seq<char>)
    ensures
        seq_str_lt(a, b) || seq_str_lt(b, a) || a == b,
    decreases a.len(),
{
    if a.len() > 0 && b.len() > 0 && a[0] == b[0] {
        lemma_seq_str_lt_total(a.drop_first(), b.drop_first());
        if a.drop_first() == b.drop_first() {
            assert(forall|i: int| 1 <= i < a.len() ==> a[i] == a.drop_first()[i - 1]);
            assert(forall|i: int| 1 <= i < b.len() ==> b[i] == b.drop_first()[i - 1]);
            assert(a.len() == b.len());
            assert(a =~= b);
        }
    } else if a.len() == 0 && b.len() == 0 {
        assert(a =~= b);
    }
}

/// Three-way comparison of two strings in lexicographic order by scalar
/// value: negative, zero, or positive as `a` is below, equal to, or above
/// `b`.
pub fn str_cmp(a: &str, b: &str) -> (o: i8)
    ensures
        o == -1 ==> seq_str_lt(a@, b@),
        o == 0 ==> a@ == b@,
        o == 1 ==> seq_str_lt(b@, a@),
        o == -1 || o == 0 || o == 1,
    decreases a@.len(),
{
    let alen = a.unicode_len();
    let blen = b.unicode_len();
    if alen == 0 && blen == 0 {
        proof {
            assert(a@ =~= b@);
        }
        0
    } else if alen == 0 {
        -1
    } else if blen == 0 {
        1
    } else {
        let ca = a.get_char(0);
        let cb = b.get_char(0);
        if ca < cb {
            -1
        } else if cb < ca {
            1
        } else {
            let ra = a.substring_char(1, alen);
            let rb = b.substring_char(1, blen);
            let o = str_cmp(ra, rb);
            proof {
                assert(ra@ == a@.drop_first());
                assert(rb@ == b@.drop_first());
                if o == 0 {
                    assert(a@ =~= b@) by {
                        assert(forall|i: int|
                            1 <= i < a@.len() ==> a@[i] == a@.drop_first()[i - 1]);
                    };
                }
            }
            o
        }
    }
}

/// The mapping described by a sequence of key/value pairs, later pairs
/// overriding earlier ones.
pub open spec fn pairs_to_map(s: Seq<(Seq<char>, VarValueView)>) -> Map<Seq<char>, VarValueView>
    decreases s.len(),
{
    if s.len() == 0 {
        Map::empty()
    } else {
        pairs_to_map(s.drop_last()).insert(s.last().0, s.last().1)
    }
}

/// A pair with a key that appears nowhere in the sequence adds exactly that
/// key to the mapping.
pub proof fn lemma_pairs_map_index(s: Seq<(Seq<char>, VarValueView)>, i: int)
    requires
        0 <= i < s.len(),
        forall|j: int, k: int| 0 <= j < k < s.len() ==> s[j].0 != s[k].0,
    ensures
        pairs_to_map(s).contains_key(s[i].0),
        pairs_to_map(s)[s[i].0] == s[i].1,
    decreases s.len(),
{
    if i < s.len() - 1 {
        lemma_pairs_map_index(s.drop_last(), i);
        assert(s.last().0 != s[i].0);
    }
}

/// A key that appears in no pair is absent from the mapping.
pub proof fn lemma_pairs_map_missing(s: Seq<(Seq<char>, VarValueView)>, k: Seq<char>)
    requires
        forall|i: int| 0 <= i < s.len() ==> s[i].0 != k,
    ensures
        !pairs_to_map(s).contains_key(k),
    decreases s.len(),
{
    if s.len() > 0 {
        lemma_pairs_map_missing(s.drop_last(), k);
    }
}

/// Inserting a pair anywhere before pairs with other keys is insertion
/// into the mapping.
pub proof fn lemma_pairs_map_insert_mid(
    s1: Seq<(Seq<char>, VarValueView)>,
    x: (Seq<char>, VarValueView),
    s2: Seq<(Seq<char>, VarValueView)>,
)
    requires
        forall|i: int| 0 <= i < s2.len() ==> s2[i].0 != x.0,
    ensures
        pairs_to_map(s1 + seq![x] + s2) == pairs_to_map(s1 + s2).insert(x.0, x.1),
    decreases s2.len(),
{
    if s2.len() == 0 {
        assert((s1 + seq![x] + s2).drop_last() =~= s1);
        assert((s1 + seq![x] + s2).last() == x);
        assert(s1 + s2 =~= s1);
    } else {
        let y = s2.last();
        lemma_pairs_map_insert_mid(s1, x, s2.drop_last());
        assert((s1 + seq![x] + s2).drop_last() =~= s1 + seq![x] + s2.drop_last());
        assert((s1 + s2).drop_last() =~= s1 + s2.drop_last());
        assert((s1 + seq![x] + s2).last() == y);
        assert((s1 + s2).last() == y);
        assert(pairs_to_map(s1 + s2.drop_last()).insert(x.0, x.1).insert(y.0, y.1)
            == pairs_to_map(s1 + s2.drop_last()).insert(y.0, y.1).insert(x.0, x.1)) by {
            assert(x.0 != y.0);
            assert(pairs_to_map(s1 + s2.drop_last()).insert(x.0, x.1).insert(y.0, y.1)
                =~= pairs_to_map(s1 + s2.drop_last()).insert(y.0, y.1).insert(x.0, x.1));
        };
    }
}

/// A mapping from variable names to bound values, enumerable in sorted
/// name order.
#[derive(Debug, Clone, PartialEq, Eq)]
pub struct VariableSet {
    entries: Vec<(String, VariableValue)>,
}

impl View for VariableSet {
    type V = Map<Seq<char>, VarValueView>;

    closed spec fn view(&self) -> Map<Seq<char>, VarValueView> {
        pairs_to_map(self.pairs())
    }
}

impl VariableSet {
    /// The ordered name/value pairs behind the mapping.
    pub closed spec fn pairs(&self) -> Seq<(Seq<char>, VarValueView)> {
        Seq::new(self.entries@.len(), |i: int| (self.entries@[i].0@, self.entries@[i].1@))
    }

    /// The names are held in strictly increasing order, so each occurs once.
    pub closed spec fn wf(&self) -> bool {
        forall|i: int, j: int|
            0 <= i < j < self.entries@.len() ==> seq_str_lt(
                #[trigger] self.entries@[i].0@,
                #[trigger] self.entries@[j].0@,
            )
    }

    /// Sorted names are pairwise distinct.
    proof fn lemma_wf_distinct(&self)
        requires
            self.wf(),
        ensures
            forall|i: int, j: int|
                0 <= i < j < self.pairs().len() ==> #[trigger] self.pairs()[i].0
                    != #[trigger] self.pairs()[j].0,
    {
        assert forall|i: int, j: int|
            0 <= i < j < self.pairs().len() implies #[trigger] self.pairs()[i].0
            != #[trigger] self.pairs()[j].0 by {
            lemma_seq_str_lt_irrefl(self.pairs()[i].0);
        };
    }

    /// An empty mapping.
    pub fn new() -> (r: VariableSet)
        ensures
            r.wf(),
            r@ == Map::<Seq<char>, VarValueView>::empty(),
            r.pairs() == Seq::<(Seq<char>, VarValueView)>::empty(),
    {
        let r = VariableSet { entries: Vec::new() };
        proof {
            assert(r.pairs() =~= Seq::<(Seq<char>, VarValueView)>::empty());
        }
        r
    }

    /// The position at which `name` stands or would be inserted, and
    /// whether it is already present.
    fn find_pos(&self, name: &str) -> (r: (usize, bool))
        requires
            self.wf(),
        ensures
            r.0 <= self.entries@.len(),
            forall|j: int| 0 <= j < r.0 ==> seq_str_lt(#[trigger] self.entries@[j].0@, name@),
            r.1 ==> r.0 < self.entries@.len() && self.entries@[r.0 as int].0@ == name@,
            !r.1 && r.0 < self.entries@.len() ==> seq_str_lt(
                name@,
                self.entries@[r.0 as int].0@,
            ),
    {
        let mut i: usize = 0;
        while i < self.entries.len()
            invariant
                self.wf(),
                i <= self.entries@.len(),
                forall|j: int| 0 <= j < i ==> seq_str_lt(#[trigger] self.entries@[j].0@, name@),
            decreases self.entries@.len() - i,
        {
            let o = str_cmp(self.entries[i].0.as_str(), name);
            if o == 0 {
                return (i, true);
            }
            if o == 1 {
                return (i, false);
            }
            i = i + 1;
        }
        (i, false)
    }

    /// Bind `name` to `value`, replacing any earlier binding of the name.
    pub fn insert(&mut self, name: String, value: VariableValue)
        requires
            old(self).wf(),
        ensures
            final(self).wf(),
            final(self)@ == old(self)@.insert(name@, value@),
    {
        let ghost old_pairs = self.pairs();
        let (i, found_eq) = self.find_pos(name.as_str());
        proof {
            self.lemma_wf_distinct();
        }
        if found_eq {
            let ghost p = i as int;
            let (k, _old_v) = self.entries.remove(i);
            self.entries.insert(i, (k, value));
            proof {
                let s1 = old_pairs.take(p);
                let s2 = old_pairs.skip(p + 1);
                let x_old = old_pairs[p];
                let x_new = (name@, value@);
                assert(self.wf()) by {
                    assert(forall|j: int|
                        0 <= j < self.entries@.len() ==> #[trigger] self.entries@[j].0@
                            == old_pairs[j].0);
                };
                assert(old_pairs =~= s1 + seq![x_old] + s2);
                assert(self.pairs() =~= s1 + seq![x_new] + s2);
                assert(forall|t: int|
                    0 <= t < s2.len() ==> #[trigger] s2[t].0 == old_pairs[p + 1 + t].0);
                assert forall|t: int| 0 <= t < s2.len() implies #[trigger] s2[t].0 != name@ by {
                    assert(old_pairs[p + 1 + t].0 != old_pairs[p].0);
                };
                lemma_pairs_map_insert_mid(s1, x_new, s2);
                lemma_pairs_map_insert_mid(s1, x_old, s2);
                assert(pairs_to_map(s1 + s2).insert(x_old.0, x_old.1).insert(name@, value@)
                    =~= pairs_to_map(s1 + s2).insert(name@, value@));
            }
        } else {
            let ghost p = i as int;
            self.entries.insert(i, (name, value));
            proof {
                let s1 = old_pairs.take(p);
                let s2 = old_pairs.skip(p);
                let x = (name@, value@);
                assert(old_pairs =~= s1 + s2);
                assert(self.pairs() =~= s1 + seq![x] + s2);
                assert forall|t: int| 0 <= t < s2.len() implies #[trigger] s2[t].0 != name@ by {
                    assert(s2[t].0 == old_pairs[p + t].0);
                    assert(seq_str_lt(name@, old_pairs[p].0));
                    if t == 0 {
                        lemma_seq_str_lt_irrefl(name@);
                    } else {
                        lemma_seq_str_lt_trans(name@, old_pairs[p].0, old_pairs[p + t].0);
                        lemma_seq_str_lt_irrefl(name@);
                    }
                };
                lemma_pairs_map_insert_mid(s1, x, s2);
                assert(self.wf()) by {
                    assert forall|a: int, b: int|
                        0 <= a < b < self.entries@.len() implies seq_str_lt(
                        #[trigger] self.entries@[a].0@,
                        #[trigger] self.entries@[b].0@,
                    ) by {
                        if a < p && b == p {
                        } else if a == p && b > p {
                            assert(self.entries@[b].0@ == old_pairs[b - 1].0);
                            if b - 1 == p {
                            } else {
                                lemma_seq_str_lt_trans(
                                    name@,
                                    old_pairs[p].0,
                                    old_pairs[b - 1].0,
                                );
                            }
                        } else if a < p && b > p {
                            assert(self.entries@[a].0@ == old_pairs[a].0);
                            assert(self.entries@[b].0@ == old_pairs[b - 1].0);
                        } else {
                        }
                    };
                };
            }
        }
    }

    /// The value bound to `name`, if any.
    pub fn get(&self, name: &str) -> (r: Option<&VariableValue>)
        requires
            self.wf(),
        ensures
            match r {
                Some(v) => self@.contains_key(name@) && v@ == self@[name@],
                None => !self@.contains_key(name@),
            },
    {
        proof {
            self.lemma_wf_distinct();
        }
        let mut i: usize = 0;
        while i < self.entries.len()
            invariant
                self.wf(),
                i <= self.entries@.len(),
                forall|j: int| 0 <= j < i ==> #[trigger] self.entries@[j].0@ != name@,
            decreases self.entries@.len() - i,
        {
            if str_eq(self.entries[i].0.as_str(), name) {
                proof {
                    self.lemma_wf_distinct();
                    lemma_pairs_map_index(self.pairs(), i as int);
                }
                return Some(&self.entries[i].1);
            }
            i = i + 1;
        }
        proof {
            assert(forall|j: int|
                0 <= j < self.pairs().len() ==> #[trigger] self.pairs()[j].0 != name@);
            lemma_pairs_map_missing(self.pairs(), name@);
        }
        None
    }

    /// Whether no variable is bound.
    pub fn is_empty(&self) -> (r: bool)
        requires
            self.wf(),
        ensures
            r == (self@ == Map::<Seq<char>, VarValueView>::empty()),
            r == (self.pairs().len() == 0),
    {
        let r = self.entries.len() == 0;
        proof {
            if r {
                assert(self.pairs().len() == 0);
            } else {
                self.lemma_wf_distinct();
                lemma_pairs_map_index(self.pairs(), 0);
                assert(self@.contains_key(self.pairs()[0].0));
            }
        }
        r
    }

    /// The number of bound variables.
    pub fn len(&self) -> (n: usize)
        ensures
            n == self.pairs().len(),
    {
        self.entries.len()
    }

    /// The bound names, in increasing order.
    pub fn keys(&self) -> (r: Vec<String>)
        ensures
            r.deep_view() =~= self.pairs().map_values(|p: (Seq<char>, VarValueView)| p.0),
    {
        let mut r: Vec<String> = Vec::new();
        let mut i: usize = 0;
        while i < self.entries.len()
            invariant
                i <= self.entries@.len(),
                r.deep_view() =~= self.pairs().take(i as int).map_values(
                    |p: (Seq<char>, VarValueView)| p.0,
                ),
            decreases self.entries@.len() - i,
        {
            let ghost prev = r.deep_view();
            let k = self.entries[i].0.clone();
            r.push(k);
            proof {
                assert(r.deep_view() =~= prev.push(self.pairs()[i as int].0));
                assert(self.pairs().take(i + 1).map_values(
                    |p: (Seq<char>, VarValueView)| p.0,
                ) =~= self.pairs().take(i as int).map_values(
                    |p: (Seq<char>, VarValueView)| p.0,
                ).push(self.pairs()[i as int].0));
            }
            i = i + 1;
        }
        proof {
            assert(self.pairs().take(self.pairs().len() as int) =~= self.pairs());
        }
        r
    }
}

} // verus!
