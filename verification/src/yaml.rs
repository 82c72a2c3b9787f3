//! A plain model of YAML documents.
//!
//! The derivation engine rewrites compose documents, so the library holds
//! them in a value type of its own: scalars as machine values, mappings as
//! association lists in document order. Scalar numbers that do not fit an
//! `i64` keep their source text in `Num`.

use vstd::prelude::*;

verus! {

#[derive(Debug)]
pub enum Yaml {
    Null,
    Bool(bool),
    Int(i64),
    Num(String),
    Str(String),
    Sequence(Vec<Yaml>),
    Mapping(Vec<(Yaml, Yaml)>),
}

/// Structural equivalence of two documents: equal scalars (strings by
/// contents) and element-wise equivalent sequences and mappings.
pub open spec fn yeq(a: Yaml, b: Yaml) -> bool
    decreases a,
{
    match (a, b) {
        (Yaml::Null, Yaml::Null) => true,
        (Yaml::Bool(x), Yaml::Bool(y)) => x == y,
        (Yaml::Int(x), Yaml::Int(y)) => x == y,
        (Yaml::Num(x), Yaml::Num(y)) => x@ == y@,
        (Yaml::Str(x), Yaml::Str(y)) => x@ == y@,
        (Yaml::Sequence(x), Yaml::Sequence(y)) => x@.len() == y@.len() && (forall|i: int|
            0 <= i < x@.len() ==> yeq(#[trigger] x@[i], y@[i])),
        (Yaml::Mapping(x), Yaml::Mapping(y)) => x@.len() == y@.len() && (forall|i: int|
            0 <= i < x@.len() ==> yeq(#[trigger] x@[i].0, y@[i].0) && yeq(x@[i].1, y@[i].1)),
        _ => false,
    }
}

/// Equivalence of the values of two mapping entry sequences, pairwise.
pub open spec fn entries_equiv(a: Seq<(Yaml, Yaml)>, b: Seq<(Yaml, Yaml)>) -> bool {
    a.len() == b.len() && forall|i: int|
        0 <= i < a.len() ==> yeq(#[trigger] a[i].0, b[i].0) && yeq(a[i].1, b[i].1)
}

pub proof fn lemma_yeq_refl(a: Yaml)
    ensures
        yeq(a, a),
    decreases a,
{
    match a {
        Yaml::Sequence(x) => {
            assert forall|i: int| 0 <= i < x@.len() implies yeq(#[trigger] x@[i], x@[i]) by {
                assert(decreases_to!(a => a->Sequence_0));
                assert(decreases_to!(x => x@));
                assert(decreases_to!(x@ => x@[i]));
                lemma_yeq_refl(x@[i]);
            }
        },
        Yaml::Mapping(x) => {
            assert forall|i: int|
                0 <= i < x@.len() implies yeq(#[trigger] x@[i].0, x@[i].0) && yeq(
                x@[i].1,
                x@[i].1,
            ) by {
                assert(decreases_to!(a => a->Mapping_0));
                assert(decreases_to!(x => x@));
                assert(decreases_to!(x@ => x@[i]));
                assert(decreases_to!(x@[i] => x@[i].0));
                assert(decreases_to!(x@[i] => x@[i].1));
                lemma_yeq_refl(x@[i].0);
                lemma_yeq_refl(x@[i].1);
            }
        },
        _ => {},
    }
}

pub proof fn lemma_yeq_trans(a: Yaml, b: Yaml, c: Yaml)
    requires
        yeq(a, b),
        yeq(b, c),
    ensures
        yeq(a, c),
    decreases a,
{
    match (a, b, c) {
        (Yaml::Sequence(x), Yaml::Sequence(y), Yaml::Sequence(z)) => {
            assert forall|i: int| 0 <= i < x@.len() implies yeq(#[trigger] x@[i], z@[i]) by {
                assert(decreases_to!(a => a->Sequence_0));
                assert(decreases_to!(x => x@));
                assert(decreases_to!(x@ => x@[i]));
                assert(yeq(x@[i], y@[i]));
                assert(yeq(y@[i], z@[i]));
                lemma_yeq_trans(x@[i], y@[i], z@[i]);
            }
        },
        (Yaml::Mapping(x), Yaml::Mapping(y), Yaml::Mapping(z)) => {
            assert forall|i: int|
                0 <= i < x@.len() implies yeq(#[trigger] x@[i].0, z@[i].0) && yeq(
                x@[i].1,
                z@[i].1,
            ) by {
                assert(decreases_to!(a => a->Mapping_0));
                assert(decreases_to!(x => x@));
                assert(decreases_to!(x@ => x@[i]));
                assert(decreases_to!(x@[i] => x@[i].0));
                assert(decreases_to!(x@[i] => x@[i].1));
                assert(yeq(x@[i].0, y@[i].0) && yeq(x@[i].1, y@[i].1));
                assert(yeq(y@[i].0, z@[i].0) && yeq(y@[i].1, z@[i].1));
                lemma_yeq_trans(x@[i].0, y@[i].0, z@[i].0);
                lemma_yeq_trans(x@[i].1, y@[i].1, z@[i].1);
            }
        },
        _ => {},
    }
}

impl Yaml {
    /// A deep copy, structurally equivalent to the original.
    pub fn duplicate(&self) -> (r: Yaml)
        ensures
            yeq(r, *self),
        decreases *self,
    {
        match self {
            Yaml::Null => Yaml::Null,
            Yaml::Bool(b) => Yaml::Bool(*b),
            Yaml::Int(i) => Yaml::Int(*i),
            Yaml::Num(s) => Yaml::Num(s.clone()),
            Yaml::Str(s) => Yaml::Str(s.clone()),
            Yaml::Sequence(children) => {
                let mut out: Vec<Yaml> = Vec::new();
                let mut i: usize = 0;
                while i < children.len()
                    invariant
                        i <= children@.len(),
                        *self == Yaml::Sequence(*children),
                        out@.len() == i,
                        forall|j: int| 0 <= j < i ==> yeq(#[trigger] out@[j], children@[j]),
                    decreases children@.len() - i,
                {
                    proof {
                        assert(decreases_to!(*self => self->Sequence_0));
                        assert(decreases_to!(*children => children@));
                        assert(decreases_to!(children@ => children@[i as int]));
                    }
                    let c = children[i].duplicate();
                    out.push(c);
                    i = i + 1;
                }
                Yaml::Sequence(out)
            },
            Yaml::Mapping(entries) => {
                let mut out: Vec<(Yaml, Yaml)> = Vec::new();
                let mut i: usize = 0;
                while i < entries.len()
                    invariant
                        i <= entries@.len(),
                        *self == Yaml::Mapping(*entries),
                        out@.len() == i,
                        forall|j: int|
                            0 <= j < i ==> yeq(#[trigger] out@[j].0, entries@[j].0) && yeq(
                                out@[j].1,
                                entries@[j].1,
                            ),
                    decreases entries@.len() - i,
                {
                    proof {
                        assert(decreases_to!(*self => self->Mapping_0));
                        assert(decreases_to!(*entries => entries@));
                        assert(decreases_to!(entries@ => entries@[i as int]));
                        assert(decreases_to!(entries@[i as int] => entries@[i as int].0));
                        assert(decreases_to!(entries@[i as int] => entries@[i as int].1));
                    }
                    let k = entries[i].0.duplicate();
                    let v = entries[i].1.duplicate();
                    out.push((k, v));
                    i = i + 1;
                }
                Yaml::Mapping(out)
            },
        }
    }

    pub fn as_str(&self) -> (r: Option<&String>)
        ensures
            match r {
                Some(s) => *self == Yaml::Str(*s),
                None => !(*self matches Yaml::Str(_)),
            },
    {
        match self {
            Yaml::Str(s) => Some(s),
            _ => None,
        }
    }
}

/// Whether a mapping entry's key is the string `k`.
pub open spec fn is_str_key(e: (Yaml, Yaml), k: Seq<char>) -> bool {
    match e.0 {
        Yaml::Str(s) => s@ == k,
        _ => false,
    }
}

/// Index of the first entry keyed by the string `k`, or `-1`.
pub open spec fn find_key(m: Seq<(Yaml, Yaml)>, k: Seq<char>) -> int
    decreases m.len(),
{
    if m.len() == 0 {
        -1
    } else if is_str_key(m[0], k) {
        0
    } else {
        let r = find_key(m.drop_first(), k);
        if r < 0 {
            -1
        } else {
            r + 1
        }
    }
}

pub open spec fn map_has(m: Seq<(Yaml, Yaml)>, k: Seq<char>) -> bool {
    find_key(m, k) >= 0
}

pub open spec fn map_get(m: Seq<(Yaml, Yaml)>, k: Seq<char>) -> Option<Yaml>
    decreases m.len(),
{
    if m.len() == 0 {
        None
    } else if is_str_key(m[0], k) {
        Some(m[0].1)
    } else {
        map_get(m.drop_first(), k)
    }
}

/// `map_get` returns the value at the index `find_key` names.
pub proof fn lemma_map_get_find(m: Seq<(Yaml, Yaml)>, k: Seq<char>)
    ensures
        map_get(m, k) == if find_key(m, k) >= 0 {
            Some(m[find_key(m, k)].1)
        } else {
            None::<Yaml>
        },
    decreases m.len(),
{
    if m.len() > 0 && !is_str_key(m[0], k) {
        lemma_map_get_find(m.drop_first(), k);
        if find_key(m.drop_first(), k) >= 0 {
            lemma_find_key(m.drop_first(), k);
            assert(m.drop_first()[find_key(m.drop_first(), k)] == m[find_key(m.drop_first(), k)
                + 1]);
        }
    }
}

pub proof fn lemma_find_key(m: Seq<(Yaml, Yaml)>, k: Seq<char>)
    ensures
        find_key(m, k) >= 0 ==> find_key(m, k) < m.len() && is_str_key(m[find_key(m, k)], k)
            && forall|j: int| 0 <= j < find_key(m, k) ==> !is_str_key(#[trigger] m[j], k),
        find_key(m, k) < 0 ==> forall|j: int| 0 <= j < m.len() ==> !is_str_key(#[trigger] m[j], k),
    decreases m.len(),
{
    if m.len() > 0 {
        if !is_str_key(m[0], k) {
            lemma_find_key(m.drop_first(), k);
            let r = find_key(m.drop_first(), k);
            if r >= 0 {
                assert(m[find_key(m, k)] == m.drop_first()[r]);
                assert forall|j: int| 0 <= j < find_key(m, k) implies !is_str_key(
                    #[trigger] m[j],
                    k,
                ) by {
                    if j > 0 {
                        assert(m.drop_first()[j - 1] == m[j]);
                    }
                }
            } else {
                assert forall|j: int| 0 <= j < m.len() implies !is_str_key(#[trigger] m[j], k) by {
                    if j > 0 {
                        assert(m.drop_first()[j - 1] == m[j]);
                    }
                }
            }
        }
    }
}

/// Finds the first entry keyed by `k` in an association list.
pub fn map_find(m: &Vec<(Yaml, Yaml)>, k: &str) -> (r: Option<usize>)
    ensures
        match r {
            Some(i) => find_key(m@, k@) == i,
            None => find_key(m@, k@) < 0,
        },
{
    proof {
        lemma_find_key(m@, k@);
    }
    let mut i: usize = 0;
    while i < m.len()
        invariant
            i <= m@.len(),
            forall|j: int| 0 <= j < i ==> !is_str_key(#[trigger] m@[j], k@),
        decreases m@.len() - i,
    {
        let hit = match &m[i].0 {
            Yaml::Str(s) => crate::strings::str_eq(s.as_str(), k),
            _ => false,
        };
        if hit {
            proof {
                lemma_find_key_at(m@, k@, i as int);
            }
            return Some(i);
        }
        i = i + 1;
    }
    proof {
        if find_key(m@, k@) >= 0 {
            lemma_find_key(m@, k@);
        }
    }
    None
}

/// If `i` is the first index whose key is `k`, then `find_key` returns `i`.
pub proof fn lemma_find_key_at(m: Seq<(Yaml, Yaml)>, k: Seq<char>, i: int)
    requires
        0 <= i < m.len(),
        is_str_key(m[i], k),
        forall|j: int| 0 <= j < i ==> !is_str_key(#[trigger] m[j], k),
    ensures
        find_key(m, k) == i,
    decreases m.len(),
{
    if i > 0 {
        assert forall|j: int| 0 <= j < i - 1 implies !is_str_key(#[trigger] m.drop_first()[j], k) by {
            assert(m.drop_first()[j] == m[j + 1]);
        }
        assert(m.drop_first()[i - 1] == m[i]);
        lemma_find_key_at(m.drop_first(), k, i - 1);
    }
}

/// Borrows the value of the first entry keyed by `k`.
pub fn map_get_ref<'a>(m: &'a Vec<(Yaml, Yaml)>, k: &str) -> (r: Option<&'a Yaml>)
    ensures
        match r {
            Some(v) => map_get(m@, k@) == Some(*v),
            None => map_get(m@, k@) is None,
        },
{
    proof {
        lemma_map_get_find(m@, k@);
    }
    match map_find(m, k) {
        Some(i) => {
            proof {
                lemma_find_key(m@, k@);
            }
            Some(&m[i].1)
        },
        None => None,
    }
}

/// The string value under `k`, if the entry exists and is a string.
pub fn map_get_str(m: &Vec<(Yaml, Yaml)>, k: &str) -> (r: Option<String>)
    ensures
        match r {
            Some(s) => map_get(m@, k@) matches Some(v) && v == Yaml::Str(s),
            None => !(map_get(m@, k@) matches Some(v) && v matches Yaml::Str(_)),
        },
{
    match map_get_ref(m, k) {
        Some(Yaml::Str(s)) => Some(s.clone()),
        _ => None,
    }
}

/// Replaces the value of the first entry keyed by `k`, or appends a new
/// entry at the end.
pub fn map_put(m: &mut Vec<(Yaml, Yaml)>, k: &str, v: Yaml)
    ensures
        ({
            let idx = find_key(old(m)@, k@);
            if idx >= 0 {
                final(m)@ == old(m)@.update(idx, (old(m)@[idx].0, v))
            } else {
                final(m)@.len() == old(m)@.len() + 1 && final(m)@.subrange(0, old(m)@.len() as int)
                    == old(m)@ && is_str_key(final(m)@.last(), k@) && final(m)@.last().1 == v
            }
        }),
{
    match map_find(m, k) {
        Some(i) => {
            proof {
                lemma_find_key(m@, k@);
            }
            let ghost old_entry = m@[i as int];
            let key = match &m[i].0 {
                Yaml::Str(s) => Yaml::Str(s.clone()),
                _ => Yaml::Null,
            };
            m.set(i, (key, v));
        },
        None => {
            let ghost before = m@;
            m.push((Yaml::Str(k.to_owned()), v));
            proof {
                assert(m@.subrange(0, before.len() as int) =~= before);
            }
        },
    }
}

/// Two entry lists with pointwise equal keys agree on where any key sits.
pub proof fn lemma_find_key_congruent(a: Seq<(Yaml, Yaml)>, b: Seq<(Yaml, Yaml)>, k: Seq<char>)
    requires
        a.len() == b.len(),
        forall|i: int| 0 <= i < a.len() ==> (#[trigger] a[i]).0 == b[i].0,
    ensures
        find_key(a, k) == find_key(b, k),
    decreases a.len(),
{
    if a.len() > 0 {
        assert(a[0].0 == b[0].0);
        if !is_str_key(a[0], k) {
            assert forall|i: int|
                0 <= i < a.drop_first().len() implies (#[trigger] a.drop_first()[i]).0
                == b.drop_first()[i].0 by {
                assert(a.drop_first()[i] == a[i + 1]);
                assert(b.drop_first()[i] == b[i + 1]);
            }
            lemma_find_key_congruent(a.drop_first(), b.drop_first(), k);
        }
    }
}

/// Replacing the value at the spot where `k` sits leaves every other key's
/// binding untouched.
pub proof fn lemma_map_update_other(m: Seq<(Yaml, Yaml)>, k: Seq<char>, v: Yaml, k2: Seq<char>)
    requires
        find_key(m, k) >= 0,
        k2 != k,
    ensures
        map_get(m.update(find_key(m, k), (m[find_key(m, k)].0, v)), k2) == map_get(m, k2),
    decreases m.len(),
{
    lemma_find_key(m, k);
    let idx = find_key(m, k);
    let m2 = m.update(idx, (m[idx].0, v));
    assert(m2[0].0 == m[0].0);
    if idx == 0 {
        assert(is_str_key(m[0], k));
        assert(!is_str_key(m[0], k2));
        assert(m2.drop_first() =~= m.drop_first());
    } else {
        assert(!is_str_key(m[0], k));
        if !is_str_key(m[0], k2) {
            assert(m2.drop_first() =~= m.drop_first().update(
                idx - 1,
                (m.drop_first()[idx - 1].0, v),
            ));
            lemma_map_update_other(m.drop_first(), k, v, k2);
        } else {
            assert(m2[0].1 == m[0].1);
        }
    }
}

/// Replacing the value at the spot where `k` sits binds `k` to the new value.
pub proof fn lemma_map_update_self(m: Seq<(Yaml, Yaml)>, k: Seq<char>, v: Yaml)
    requires
        find_key(m, k) >= 0,
    ensures
        map_get(m.update(find_key(m, k), (m[find_key(m, k)].0, v)), k) == Some(v),
    decreases m.len(),
{
    lemma_find_key(m, k);
    let idx = find_key(m, k);
    let m2 = m.update(idx, (m[idx].0, v));
    assert(m2[0].0 == m[0].0);
    if idx == 0 {
        assert(m2[0].1 == v);
    } else {
        assert(!is_str_key(m[0], k));
        assert(m2.drop_first() =~= m.drop_first().update(
            idx - 1,
            (m.drop_first()[idx - 1].0, v),
        ));
        lemma_map_update_self(m.drop_first(), k, v);
    }
}

/// Appending an entry leaves existing keys' bindings untouched, and binds a
/// fresh key to the appended value.
pub proof fn lemma_find_key_push(m: Seq<(Yaml, Yaml)>, e: (Yaml, Yaml), k2: Seq<char>)
    ensures
        find_key(m, k2) >= 0 ==> find_key(m.push(e), k2) == find_key(m, k2) && map_get(
            m.push(e),
            k2,
        ) == map_get(m, k2),
        find_key(m, k2) < 0 && is_str_key(e, k2) ==> find_key(m.push(e), k2) == m.len() && map_get(
            m.push(e),
            k2,
        ) == Some(e.1),
        find_key(m, k2) < 0 && !is_str_key(e, k2) ==> find_key(m.push(e), k2) < 0,
    decreases m.len(),
{
    if m.len() == 0 {
        assert(m.push(e)[0] == e);
        assert(m.push(e).drop_first() =~= Seq::<(Yaml, Yaml)>::empty());
    } else {
        assert(m.push(e)[0] == m[0]);
        if !is_str_key(m[0], k2) {
            assert(m.push(e).drop_first() =~= m.drop_first().push(e));
            lemma_find_key_push(m.drop_first(), e, k2);
        }
    }
    lemma_map_get_find(m, k2);
    lemma_map_get_find(m.push(e), k2);
    lemma_find_key(m, k2);
    lemma_find_key(m.push(e), k2);
    if find_key(m, k2) >= 0 {
        assert(m.push(e)[find_key(m, k2)] == m[find_key(m, k2)]);
    }
}

/// Removing the first entry keyed by `k` leaves every other key's binding
/// untouched.
pub proof fn lemma_map_remove_other(m: Seq<(Yaml, Yaml)>, k: Seq<char>, k2: Seq<char>)
    requires
        find_key(m, k) >= 0,
        k2 != k,
    ensures
        map_get(m.remove(find_key(m, k)), k2) == map_get(m, k2),
        find_key(m.remove(find_key(m, k)), k2) >= 0 <==> find_key(m, k2) >= 0,
    decreases m.len(),
{
    let idx = find_key(m, k);
    lemma_find_key(m, k);
    let m2 = m.remove(idx);
    if idx == 0 {
        assert(is_str_key(m[0], k));
        assert(m2 =~= m.drop_first());
        assert(!is_str_key(m[0], k2));
    } else {
        assert(m2[0] == m[0]);
        assert(!is_str_key(m[0], k));
        if !is_str_key(m[0], k2) {
            assert(m2.drop_first() =~= m.drop_first().remove(idx - 1));
            assert(find_key(m.drop_first(), k) == idx - 1);
            lemma_map_remove_other(m.drop_first(), k, k2);
        }
    }
}

/// What a `map_put` did to the bindings: `k` now binds `v`, all else is as
/// before.
pub proof fn lemma_map_put_effect(m0: Seq<(Yaml, Yaml)>, mf: Seq<(Yaml, Yaml)>, k: Seq<char>, v: Yaml)
    requires
        ({
            let idx = find_key(m0, k);
            if idx >= 0 {
                mf == m0.update(idx, (m0[idx].0, v))
            } else {
                mf.len() == m0.len() + 1 && mf.subrange(0, m0.len() as int) == m0 && is_str_key(
                    mf.last(),
                    k,
                ) && mf.last().1 == v
            }
        }),
    ensures
        map_get(mf, k) == Some(v),
        map_has(mf, k),
        forall|k2: Seq<char>| k2 != k ==> map_get(mf, k2) == map_get(m0, k2),
        forall|k2: Seq<char>| k2 != k ==> (map_has(mf, k2) <==> map_has(m0, k2)),
{
    lemma_find_key(m0, k);
    if find_key(m0, k) >= 0 {
        lemma_map_update_self(m0, k, v);
        lemma_find_key_congruent(mf, m0, k);
    } else {
        assert(mf =~= m0.push(mf.last()));
        lemma_find_key_push(m0, mf.last(), k);
        lemma_map_get_find(mf, k);
        lemma_find_key(mf, k);
    }
    assert forall|k2: Seq<char>| k2 != k implies map_get(mf, k2) == map_get(m0, k2) && (map_has(
        mf,
        k2,
    ) <==> map_has(m0, k2)) by {
        if find_key(m0, k) >= 0 {
            lemma_map_update_other(m0, k, v, k2);
            lemma_find_key_congruent(mf, m0, k2);
        } else {
            assert(mf =~= m0.push(mf.last()));
            lemma_find_key_push(m0, mf.last(), k2);
            lemma_map_get_find(m0, k2);
            lemma_map_get_find(mf, k2);
            lemma_find_key(m0, k2);
            lemma_find_key(mf, k2);
        }
    }
}

/// What a `map_remove` did to the bindings: every key but `k` is as before.
pub proof fn lemma_map_remove_effect(m0: Seq<(Yaml, Yaml)>, mf: Seq<(Yaml, Yaml)>, k: Seq<char>)
    requires
        ({
            let idx = find_key(m0, k);
            if idx >= 0 {
                mf == m0.remove(idx)
            } else {
                mf == m0
            }
        }),
    ensures
        forall|k2: Seq<char>| k2 != k ==> map_get(mf, k2) == map_get(m0, k2),
{
    assert forall|k2: Seq<char>| k2 != k implies map_get(mf, k2) == map_get(m0, k2) by {
        if find_key(m0, k) >= 0 {
            lemma_map_remove_other(m0, k, k2);
        }
    }
}

/// Structurally equivalent mappings bind the same keys to equivalent values.
pub proof fn lemma_equiv_map_get(a: Seq<(Yaml, Yaml)>, b: Seq<(Yaml, Yaml)>, k: Seq<char>)
    requires
        entries_equiv(a, b),
    ensures
        find_key(a, k) == find_key(b, k),
        match (map_get(a, k), map_get(b, k)) {
            (Some(x), Some(y)) => yeq(x, y),
            (None, None) => true,
            _ => false,
        },
    decreases a.len(),
{
    if a.len() > 0 {
        assert(yeq(a[0].0, b[0].0));
        assert(is_str_key(a[0], k) <==> is_str_key(b[0], k));
        if !is_str_key(a[0], k) {
            assert(entries_equiv(a.drop_first(), b.drop_first())) by {
                assert forall|i: int|
                    0 <= i < a.drop_first().len() implies yeq(
                    (#[trigger] a.drop_first()[i]).0,
                    b.drop_first()[i].0,
                ) && yeq(a.drop_first()[i].1, b.drop_first()[i].1) by {
                    assert(a.drop_first()[i] == a[i + 1]);
                    assert(b.drop_first()[i] == b[i + 1]);
                }
            }
            lemma_equiv_map_get(a.drop_first(), b.drop_first(), k);
        } else {
            assert(yeq(a[0].1, b[0].1));
        }
    }
}

/// Removes the first entry keyed by `k` and hands its value back.
pub fn map_remove(m: &mut Vec<(Yaml, Yaml)>, k: &str) -> (r: Option<Yaml>)
    ensures
        ({
            let idx = find_key(old(m)@, k@);
            if idx >= 0 {
                r == Some(old(m)@[idx].1) && final(m)@ == old(m)@.remove(idx)
            } else {
                r is None && final(m)@ == old(m)@
            }
        }),
{
    match map_find(m, k) {
        Some(i) => {
            proof {
                lemma_find_key(m@, k@);
            }
            let e = m.remove(i);
            Some(e.1)
        },
        None => None,
    }
}

} // verus!
